//! The wire framing of the PostgreSQL v3 protocol: big-endian integer
//! fields, splitting a byte stream into typed frames, and classifying the
//! unprefixed startup packet.
//!
//! A typed frame is one kind byte, a four-byte big-endian length that counts
//! itself and the body, and the body.  The splitter never reads past the
//! buffer: a prefix that holds no complete frame is left for the next read.

use vstd::prelude::*;

verus! {

/// The big-endian 16-bit value of two bytes.
pub open spec fn be_u16(b0: u8, b1: u8) -> u16 {
    (b0 as u16) << 8 | (b1 as u16)
}

/// The big-endian 32-bit value of four bytes.
pub open spec fn be_u32(b0: u8, b1: u8, b2: u8, b3: u8) -> u32 {
    (b0 as u32) << 24 | (b1 as u32) << 16 | (b2 as u32) << 8 | (b3 as u32)
}

/// The value of a 16-bit two's-complement field.
pub open spec fn as_i16(v: u16) -> int {
    if v < 0x8000 {
        v as int
    } else {
        v as int - 0x10000
    }
}

/// The value of a 32-bit two's-complement field.
pub open spec fn as_i32(v: u32) -> int {
    if v < 0x80000000 {
        v as int
    } else {
        v as int - 0x100000000
    }
}

/// Reads a big-endian 16-bit field at offset `i`.
pub fn read_be_u16(data: &[u8], i: usize) -> (r: u16)
    requires
        i + 2 <= data@.len(),
    ensures
        r == be_u16(data@[i as int], data@[i + 1]),
{
    let b0 = data[i];
    let b1 = data[i + 1];
    let r = (b0 as u16) << 8 | (b1 as u16);
    r
}

/// Reads a big-endian 32-bit field at offset `i`.
pub fn read_be_u32(data: &[u8], i: usize) -> (r: u32)
    requires
        i + 4 <= data@.len(),
    ensures
        r == be_u32(data@[i as int], data@[i + 1], data@[i + 2], data@[i + 3]),
{
    let b0 = data[i];
    let b1 = data[i + 1];
    let b2 = data[i + 2];
    let b3 = data[i + 3];
    let r = (b0 as u32) << 24 | (b1 as u32) << 16 | (b2 as u32) << 8 | (b3 as u32);
    r
}

/// Reads a big-endian signed 16-bit field at offset `i`.
pub fn read_be_i16(data: &[u8], i: usize) -> (r: i64)
    requires
        i + 2 <= data@.len(),
    ensures
        r == as_i16(be_u16(data@[i as int], data@[i + 1])),
{
    let v = read_be_u16(data, i);
    if v < 0x8000 {
        v as i64
    } else {
        (v as i64) - 0x10000
    }
}

/// Reads a big-endian signed 32-bit field at offset `i`.
pub fn read_be_i32(data: &[u8], i: usize) -> (r: i64)
    requires
        i + 4 <= data@.len(),
    ensures
        r == as_i32(be_u32(data@[i as int], data@[i + 1], data@[i + 2], data@[i + 3])),
{
    let v = read_be_u32(data, i);
    if v < 0x80000000 {
        v as i64
    } else {
        (v as i64) - 0x100000000
    }
}

/// One complete typed frame: the kind byte and the body that followed the
/// length field.
pub struct SpecFrame {
    pub kind: u8,
    pub body: Seq<u8>,
}

/// The four big-endian bytes of a 32-bit value.
pub open spec fn be_bytes_u32(v: u32) -> Seq<u8> {
    seq![(v >> 24) as u8, ((v >> 16) & 0xff) as u8, ((v >> 8) & 0xff) as u8, (v & 0xff) as u8]
}

/// The on-wire bytes of one typed frame.
pub open spec fn frame_bytes(f: SpecFrame) -> Seq<u8> {
    seq![f.kind] + be_bytes_u32((f.body.len() + 4) as u32) + f.body
}

/// The declared length field of the frame starting at the head of `s`.
pub open spec fn head_len(s: Seq<u8>) -> int {
    be_u32(s[1], s[2], s[3], s[4]) as int
}

/// Whether the head of `s` is a malformed frame: a declared length below
/// the four bytes the length field itself occupies.
pub open spec fn head_malformed(s: Seq<u8>) -> bool {
    s.len() >= 5 && head_len(s) < 4
}

/// Splits a byte stream into its complete leading frames and the unsplit
/// tail.  Splitting stops at an incomplete trailing frame, or at a
/// malformed length field, past which no frame boundary can be trusted.
pub open spec fn take_frames(s: Seq<u8>) -> (Seq<SpecFrame>, Seq<u8>)
    decreases s.len(),
{
    if s.len() < 5 {
        (Seq::empty(), s)
    } else {
        let len = head_len(s);
        if len < 4 || s.len() < len + 1 {
            (Seq::empty(), s)
        } else {
            let f = SpecFrame { kind: s[0], body: s.subrange(5, len + 1) };
            let rec = take_frames(s.skip(len + 1));
            (seq![f] + rec.0, rec.1)
        }
    }
}

/// The concatenated on-wire bytes of a sequence of frames.
pub open spec fn concat_frame_bytes(fs: Seq<SpecFrame>) -> Seq<u8>
    decreases fs.len(),
{
    if fs.len() == 0 {
        Seq::empty()
    } else {
        frame_bytes(fs[0]) + concat_frame_bytes(fs.skip(1))
    }
}

/// A 32-bit value rebuilt from four bytes has exactly those bytes.
pub proof fn lemma_be_bytes_u32_roundtrip(b0: u8, b1: u8, b2: u8, b3: u8)
    ensures
        be_bytes_u32(be_u32(b0, b1, b2, b3)) == seq![b0, b1, b2, b3],
{
    let v = be_u32(b0, b1, b2, b3);
    assert((v >> 24) as u8 == b0 && ((v >> 16) & 0xff) as u8 == b1 && ((v >> 8) & 0xff) as u8 == b2
        && (v & 0xff) as u8 == b3) by (bit_vector)
        requires
            v == be_u32(b0, b1, b2, b3),
    ;
    assert(be_bytes_u32(v) =~= seq![b0, b1, b2, b3]);
}

/// Framing round trip: re-emitting the bytes of every frame the splitter
/// found, followed by the unsplit tail, reproduces the input exactly.
#[verifier::rlimit(50)]
pub proof fn lemma_take_frames_roundtrip(s: Seq<u8>)
    ensures
        concat_frame_bytes(take_frames(s).0) + take_frames(s).1 == s,
    decreases s.len(),
{
    if s.len() < 5 {
        assert(concat_frame_bytes(take_frames(s).0) + take_frames(s).1 =~= s);
    } else {
        let len = head_len(s);
        if len < 4 || s.len() < len + 1 {
            assert(concat_frame_bytes(take_frames(s).0) + take_frames(s).1 =~= s);
        } else {
            let f = SpecFrame { kind: s[0], body: s.subrange(5, len + 1) };
            let tail = s.skip(len + 1);
            lemma_take_frames_roundtrip(tail);
            lemma_be_bytes_u32_roundtrip(s[1], s[2], s[3], s[4]);
            assert(f.body.len() + 4 == len);
            assert(be_bytes_u32((f.body.len() + 4) as u32) == seq![s[1], s[2], s[3], s[4]]);
            assert(frame_bytes(f) =~= s.subrange(0, len + 1));
            let rec = take_frames(tail);
            assert(take_frames(s).0 == seq![f] + rec.0);
            assert(take_frames(s).0.skip(1) =~= rec.0);
            assert(take_frames(s).0[0] == f);
            assert(concat_frame_bytes(take_frames(s).0) == frame_bytes(f) + concat_frame_bytes(
                rec.0,
            ));
            assert(concat_frame_bytes(take_frames(s).0) + take_frames(s).1 =~= s.subrange(
                0,
                len + 1,
            ) + (concat_frame_bytes(rec.0) + rec.1));
            assert(s.subrange(0, len + 1) + tail =~= s);
        }
    }
}

/// Streaming equivalence: splitting a stream read in two chunks yields the
/// same frames as splitting the concatenation in one piece.  The first
/// chunk's complete frames come out as they stand, and its unsplit tail is
/// re-fed in front of the second chunk.
pub proof fn lemma_take_frames_stream(a: Seq<u8>, b: Seq<u8>)
    ensures
        take_frames(a + b).0 == take_frames(a).0 + take_frames(take_frames(a).1 + b).0,
        take_frames(a + b).1 == take_frames(take_frames(a).1 + b).1,
    decreases a.len(),
{
    if a.len() < 5 {
        assert(take_frames(a).1 =~= a);
        assert(take_frames(a).1 + b =~= a + b);
        assert(take_frames(a).0 + take_frames(take_frames(a).1 + b).0 =~= take_frames(a + b).0);
    } else {
        let len = head_len(a);
        let s = a + b;
        assert(s[0] == a[0] && s[1] == a[1] && s[2] == a[2] && s[3] == a[3] && s[4] == a[4]);
        assert(head_len(s) == len);
        if len < 4 {
            assert(take_frames(a).1 =~= a);
            assert(take_frames(a).1 + b =~= a + b);
            assert(take_frames(a).0 + take_frames(take_frames(a).1 + b).0 =~= take_frames(a + b).0);
        } else if a.len() < len + 1 {
            assert(take_frames(a).1 =~= a);
            assert(take_frames(a).1 + b =~= a + b);
            assert(take_frames(a).0 + take_frames(take_frames(a).1 + b).0 =~= take_frames(a + b).0);
        } else {
            let fa = SpecFrame { kind: a[0], body: a.subrange(5, len + 1) };
            let fs = SpecFrame { kind: s[0], body: s.subrange(5, len + 1) };
            assert(s.len() >= len + 1);
            assert(fs.body =~= fa.body);
            assert(fs == fa);
            assert(s.skip(len + 1) =~= a.skip(len + 1) + b);
            lemma_take_frames_stream(a.skip(len + 1), b);
            let a2 = a.skip(len + 1);
            assert(take_frames(s).0 == seq![fa] + take_frames(a2 + b).0);
            assert(take_frames(a).0 == seq![fa] + take_frames(a2).0);
            assert(take_frames(a).1 == take_frames(a2).1);
            assert(seq![fa] + (take_frames(a2).0 + take_frames(take_frames(a2).1 + b).0) =~= (
            seq![fa] + take_frames(a2).0) + take_frames(take_frames(a2).1 + b).0);
        }
    }
}

/// The sentinel protocol code of an SSLRequest packet.
pub const SSL_REQUEST_CODE: u32 = 80877103;

/// The sentinel protocol code of a CancelRequest packet.
pub const CANCEL_REQUEST_CODE: u32 = 80877102;

/// How the first packet of a client connection is to be handled.
#[derive(PartialEq, Eq, Structural, Clone, Copy, Debug)]
pub enum StartupClass {
    /// Fewer than eight bytes arrived so far.
    Incomplete,
    /// The eight-byte SSLRequest sentinel: answer `S` or `N`.
    SslRequest,
    /// The eight-byte CancelRequest sentinel: forward it, no further framing.
    CancelRequest,
    /// An ordinary startup message.
    Startup,
}

/// The class of the startup packet whose first bytes are in `buf`.
pub open spec fn spec_classify_startup(s: Seq<u8>) -> StartupClass {
    if s.len() < 8 {
        StartupClass::Incomplete
    } else {
        let len = be_u32(s[0], s[1], s[2], s[3]);
        let code = be_u32(s[4], s[5], s[6], s[7]);
        if len == 8 && code == SSL_REQUEST_CODE {
            StartupClass::SslRequest
        } else if len == 8 && code == CANCEL_REQUEST_CODE {
            StartupClass::CancelRequest
        } else {
            StartupClass::Startup
        }
    }
}

/// Classifies the first packet a client sends: the SSLRequest or
/// CancelRequest sentinel, an ordinary startup message, or not yet enough
/// bytes to tell.
pub fn classify_startup(buf: &[u8]) -> (r: StartupClass)
    ensures
        r == spec_classify_startup(buf@),
{
    if buf.len() < 8 {
        return StartupClass::Incomplete;
    }
    let len = read_be_u32(buf, 0);
    let code = read_be_u32(buf, 4);
    if len == 8 && code == SSL_REQUEST_CODE {
        StartupClass::SslRequest
    } else if len == 8 && code == CANCEL_REQUEST_CODE {
        StartupClass::CancelRequest
    } else {
        StartupClass::Startup
    }
}

/// What the head of a read buffer holds: not yet a whole frame, a frame
/// with an impossible length field, or one complete frame.
pub enum FrameStep {
    Incomplete,
    Malformed,
    Frame { kind: u8, body: Vec<u8>, consumed: usize },
}

/// Takes the first complete typed frame off the head of `buf`, telling an
/// incomplete head from a malformed one.
pub fn next_frame(buf: &[u8]) -> (r: FrameStep)
    ensures
        buf@.len() < 5 ==> r is Incomplete,
        buf@.len() >= 5 && head_len(buf@) < 4 ==> r is Malformed,
        buf@.len() >= 5 && head_len(buf@) >= 4 && buf@.len() < head_len(buf@) + 1 ==> r
            is Incomplete,
        buf@.len() >= 5 && head_len(buf@) >= 4 && buf@.len() >= head_len(buf@) + 1 ==> (r
            matches FrameStep::Frame { kind, body, consumed } && kind == buf@[0] && body@
            == buf@.subrange(5, head_len(buf@) + 1) && consumed == head_len(buf@) + 1),
{
    let n = buf.len();
    if n < 5 {
        return FrameStep::Incomplete;
    }
    let length = read_be_u32(buf, 1) as usize;
    if length < 4 {
        return FrameStep::Malformed;
    }
    if length > n - 1 {
        return FrameStep::Incomplete;
    }
    let kind = buf[0];
    let body = vstd::slice::slice_to_vec(vstd::slice::slice_subrange(buf, 5, 1 + length));
    FrameStep::Frame { kind, body, consumed: 1 + length }
}

/// The unsplit tail is stable: running the splitter on it again finds no
/// frame and leaves it unchanged.
pub proof fn lemma_take_frames_rest_fixed(s: Seq<u8>)
    ensures
        take_frames(take_frames(s).1) == (Seq::<SpecFrame>::empty(), take_frames(s).1),
    decreases s.len(),
{
    if s.len() < 5 {
        assert(take_frames(s).1 == s);
    } else {
        let len = head_len(s);
        if len < 4 || s.len() < len + 1 {
        } else {
            lemma_take_frames_rest_fixed(s.skip(len + 1));
        }
    }
}

/// The concatenation of a sequence of read chunks.
pub open spec fn concat_chunks(chunks: Seq<Seq<u8>>) -> Seq<u8>
    decreases chunks.len(),
{
    if chunks.len() == 0 {
        Seq::empty()
    } else {
        chunks[0] + concat_chunks(chunks.skip(1))
    }
}

/// Feeding the splitter chunk by chunk: each chunk is appended to the
/// carried tail, the complete frames are taken, and the new tail is
/// carried on.
pub open spec fn take_frames_chunked(chunks: Seq<Seq<u8>>, carry: Seq<u8>) -> (
    Seq<SpecFrame>,
    Seq<u8>,
)
    decreases chunks.len(),
{
    if chunks.len() == 0 {
        (Seq::empty(), carry)
    } else {
        let r = take_frames(carry + chunks[0]);
        let rec = take_frames_chunked(chunks.skip(1), r.1);
        (r.0 + rec.0, rec.1)
    }
}

/// Streaming equivalence over any partition: however a stream is cut into
/// read chunks, feeding them one at a time with the tail carried between
/// reads yields exactly the frames of the whole stream split in one piece,
/// and the same final tail.
pub proof fn lemma_take_frames_chunked(chunks: Seq<Seq<u8>>, carry: Seq<u8>)
    requires
        take_frames(carry) == (Seq::<SpecFrame>::empty(), carry),
    ensures
        take_frames_chunked(chunks, carry) == take_frames(carry + concat_chunks(chunks)),
    decreases chunks.len(),
{
    if chunks.len() == 0 {
        assert(carry + concat_chunks(chunks) =~= carry);
        assert(take_frames_chunked(chunks, carry) == take_frames(carry + concat_chunks(chunks)));
    } else {
        let first = carry + chunks[0];
        let r = take_frames(first);
        lemma_take_frames_rest_fixed(first);
        lemma_take_frames_chunked(chunks.skip(1), r.1);
        lemma_take_frames_stream(first, concat_chunks(chunks.skip(1)));
        assert(first + concat_chunks(chunks.skip(1)) =~= carry + concat_chunks(chunks));
        assert(take_frames(carry + concat_chunks(chunks)).0 == r.0 + take_frames(
            r.1 + concat_chunks(chunks.skip(1)),
        ).0);
        assert(take_frames_chunked(chunks.skip(1), r.1) == take_frames(
            r.1 + concat_chunks(chunks.skip(1)),
        ));
        assert(take_frames_chunked(chunks, carry).0 == take_frames(
            carry + concat_chunks(chunks),
        ).0);
        assert(take_frames_chunked(chunks, carry).1 == take_frames(
            carry + concat_chunks(chunks),
        ).1);
        assert(take_frames_chunked(chunks, carry) == take_frames(carry + concat_chunks(chunks)));
    }
}

} // verus!
