//! The diagnostic client's protocol core: frontend message encoders, the
//! decoded backend message, the authentication and extended-query decision
//! rules, and the report of one query run.

use vstd::prelude::*;
use vstd::string::StringSliceAdditionalSpecFns;
use crate::strutil::{
    lossy_of, lossy_string, push_char, push_hex_byte, spec_dec, spec_hex_byte, spec_hex_bytes,
    push_hex_bytes, spec_join, lemma_join_snoc, u64_to_dec, utf8_string,
};

verus! {

/// Appends every byte of `src` to `dst`.
pub fn extend_bytes(dst: &mut Vec<u8>, src: &[u8])
    ensures
        final(dst)@ == old(dst)@ + src@,
{
    let n = src.len();
    let mut i: usize = 0;
    while i < n
        invariant
            n == src@.len(),
            i <= n,
            dst@ =~= old(dst)@ + src@.subrange(0, i as int),
        decreases n - i,
    {
        dst.push(src[i]);
        proof {
            assert(dst@ =~= old(dst)@ + src@.subrange(0, (i + 1) as int));
        }
        i = i + 1;
    }
    proof {
        assert(old(dst)@ + src@.subrange(0, n as int) =~= old(dst)@ + src@);
    }
}

/// Appends the four big-endian bytes of `x` to `v`.
pub fn push_be_u32(v: &mut Vec<u8>, x: u32)
    ensures
        final(v)@ == old(v)@ + crate::frame::be_bytes_u32(x),
{
    proof {
        assert((x >> 24) < 256 && ((x >> 16) & 0xff) < 256 && ((x >> 8) & 0xff) < 256 && (x & 0xff)
            < 256) by (bit_vector);
    }
    v.push((x >> 24) as u8);
    v.push(((x >> 16) & 0xff) as u8);
    v.push(((x >> 8) & 0xff) as u8);
    v.push((x & 0xff) as u8);
    proof {
        assert(v@ =~= old(v)@ + crate::frame::be_bytes_u32(x));
    }
}

/// The two big-endian bytes of a 16-bit value.
pub open spec fn be_bytes_u16(x: u16) -> Seq<u8> {
    seq![(x >> 8) as u8, (x & 0xff) as u8]
}

/// Appends the two big-endian bytes of `x` to `v`.
pub fn push_be_u16(v: &mut Vec<u8>, x: u16)
    ensures
        final(v)@ == old(v)@ + be_bytes_u16(x),
{
    proof {
        assert((x >> 8) < 256 && (x & 0xff) < 256) by (bit_vector);
    }
    v.push((x >> 8) as u8);
    v.push((x & 0xff) as u8);
    proof {
        assert(v@ =~= old(v)@ + be_bytes_u16(x));
    }
}

/// The hex rendering of bytes with a leading `0x`.
pub open spec fn spec_hex_string(bytes: Seq<u8>) -> Seq<char> {
    "0x"@ + spec_hex_bytes(bytes)
}

/// Renders bytes as `0x` followed by two lower-case hex digits a byte.
pub fn hex_string(bytes: &[u8]) -> (r: String)
    ensures
        r@ == spec_hex_string(bytes@),
{
    let mut out = String::new();
    out.append("0x");
    push_hex_bytes(&mut out, bytes);
    out
}

/// Whether every byte is ASCII.
pub open spec fn spec_all_ascii(bytes: Seq<u8>) -> bool {
    forall|i: int| 0 <= i < bytes.len() ==> bytes[i] < 0x80
}

/// A column value rendered for display: quoted text where the bytes are
/// ASCII, a hex string otherwise.
pub open spec fn spec_format_value(bytes: Seq<u8>) -> Seq<char> {
    if spec_all_ascii(bytes) {
        "text:'"@ + Seq::new(bytes.len(), |i: int| bytes[i] as char) + "'"@
    } else {
        "hex:"@ + spec_hex_string(bytes)
    }
}

/// Renders a column value: `text:'…'` for ASCII bytes, `hex:0x…` otherwise.
pub fn format_value(bytes: &[u8]) -> (r: String)
    ensures
        r@ == spec_format_value(bytes@),
{
    let n = bytes.len();
    let mut ascii = true;
    let mut i: usize = 0;
    while i < n
        invariant_except_break
            ascii == (forall|k: int| 0 <= k < i ==> bytes@[k] < 0x80),
        invariant
            n == bytes@.len(),
            i <= n,
        ensures
            ascii == spec_all_ascii(bytes@),
        decreases n - i,
    {
        if bytes[i] >= 0x80 {
            ascii = false;
            proof {
                assert(!spec_all_ascii(bytes@));
            }
            break ;
        }
        i = i + 1;
    }
    if ascii {
        let mut out = String::new();
        out.append("text:'");
        let ghost mid = out@;
        let mut k: usize = 0;
        while k < n
            invariant
                n == bytes@.len(),
                k <= n,
                spec_all_ascii(bytes@),
                out@ == mid + Seq::new(k as nat, |j: int| bytes@[j] as char),
            decreases n - k,
        {
            push_char(&mut out, bytes[k] as char);
            proof {
                assert(out@ =~= mid + Seq::new((k + 1) as nat, |j: int| bytes@[j] as char));
            }
            k = k + 1;
        }
        out.append("'");
        proof {
            assert(out@ =~= spec_format_value(bytes@));
        }
        out
    } else {
        let mut out = String::new();
        out.append("hex:");
        let tail = hex_string(bytes);
        out.append(tail.as_str());
        proof {
            assert(out@ =~= spec_format_value(bytes@));
        }
        out
    }
}

/// One column of a data row: absent, or its raw bytes.
pub enum ColumnValue {
    Null,
    Bytes(Vec<u8>),
}

/// Renders one column value, with `<NULL>` for an absent one.
pub open spec fn spec_wrap_column_value(v: ColumnValue) -> Seq<char> {
    match v {
        ColumnValue::Null => "<NULL>"@,
        ColumnValue::Bytes(b) => spec_format_value(b@),
    }
}

/// Renders one column value for display.
pub fn wrap_column_value(value: &ColumnValue) -> (r: String)
    ensures
        r@ == spec_wrap_column_value(*value),
{
    match value {
        ColumnValue::Null => {
            let mut s = String::new();
            s.append("<NULL>");
            proof {
                assert(s@ =~= "<NULL>"@);
            }
            s
        },
        ColumnValue::Bytes(b) => format_value(b.as_slice()),
    }
}

/// One column's metadata from a RowDescription.
pub struct RowField {
    pub name: String,
    pub type_oid: u32,
    pub format: i64,
}

/// The wire format code's name: text, binary, or unknown.
pub open spec fn spec_format_label(format: i64) -> Seq<char> {
    if format == 0 {
        "text"@
    } else if format == 1 {
        "binary"@
    } else {
        "unknown"@
    }
}

impl RowField {
    /// Names this field's wire format.
    pub fn format_label(&self) -> (r: &'static str)
        ensures
            r@ == spec_format_label(self.format),
    {
        if self.format == 0 {
            "text"
        } else if self.format == 1 {
            "binary"
        } else {
            "unknown"
        }
    }
}

/// The MD5 digest of a byte sequence: a function of the bytes alone.
pub uninterp spec fn md5_of(bytes: Seq<u8>) -> Seq<u8>;

/// Relies on md5::compute: the digest is sixteen bytes and depends on the
/// input alone.
#[verifier::external_body]
fn md5_digest(data: &Vec<u8>) -> (r: Vec<u8>)
    ensures
        r@ == md5_of(data@),
        r@.len() == 16,
{
    md5::compute(data.as_slice()).0.to_vec()
}

/// The response to an MD5 password challenge: `md5` followed by the hex
/// digest of the hex digest of password and user, concatenated with the
/// salt.
pub open spec fn spec_md5_password_response(
    user: Seq<u8>,
    password: Seq<u8>,
    salt: Seq<u8>,
) -> Seq<char> {
    let first_hex = spec_hex_bytes(md5_of(password + user));
    let inner: Seq<u8> = Seq::new(first_hex.len(), |i: int| first_hex[i] as u8);
    "md5"@ + spec_hex_bytes(md5_of(inner + salt))
}

/// Computes the `PasswordMessage` payload for MD5 authentication:
/// `md5` + hex(md5(hex(md5(password + user)) + salt)).
pub fn md5_password_response(user: &str, password: &str, salt: [u8; 4]) -> (r: String)
    ensures
        r@ == spec_md5_password_response(
            vstd::utf8::encode_utf8(user@),
            vstd::utf8::encode_utf8(password@),
            salt@,
        ),
        r@.len() == 35,
{
    broadcast use vstd::string::is_ascii_spec_bytes;

    let mut inner: Vec<u8> = Vec::new();
    extend_bytes(&mut inner, password.as_bytes());
    extend_bytes(&mut inner, user.as_bytes());
    let digest1 = md5_digest(&inner);
    let mut first_hash = String::new();
    push_hex_bytes(&mut first_hash, digest1.as_slice());

    let mut outer: Vec<u8> = Vec::new();
    let fh = first_hash.as_str();
    proof {
        assert(vstd::string::is_ascii(fh)) by {
            lemma_hex_bytes_ascii(md5_of(inner@));
        }
        broadcast use vstd::string::is_ascii_spec_bytes;

        assert(fh.spec_bytes() =~= Seq::new(fh@.len(), |i: int| fh@[i] as u8));
    }
    extend_bytes(&mut outer, fh.as_bytes());
    let ghost outer_mid = outer@;
    outer.push(salt[0]);
    outer.push(salt[1]);
    outer.push(salt[2]);
    outer.push(salt[3]);
    proof {
        assert(outer@ =~= outer_mid + salt@);
    }
    let digest2 = md5_digest(&outer);

    let mut out = String::new();
    out.append("md5");
    push_hex_bytes(&mut out, digest2.as_slice());
    proof {
        let ub = vstd::utf8::encode_utf8(user@);
        let pb = vstd::utf8::encode_utf8(password@);
        assert(inner@ =~= pb + ub);
        let first_hex = spec_hex_bytes(md5_of(pb + ub));
        assert(first_hash@ == first_hex);
        lemma_hex_bytes_ascii(md5_of(pb + ub));
        assert(outer@ =~= Seq::new(first_hex.len(), |i: int| first_hex[i] as u8) + salt@);
        assert(out@ =~= spec_md5_password_response(ub, pb, salt@));
        crate::strutil::lemma_hex_bytes_len(digest2@);
        reveal_strlit("md5");
        assert(out@.len() == 35);
    }
    out
}

/// Hex digits are ASCII, so a hex string's bytes are its characters.
proof fn lemma_hex_bytes_ascii(bs: Seq<u8>)
    ensures
        vstd::utf8::is_ascii_chars(spec_hex_bytes(bs)),
        forall|i: int|
            0 <= i < spec_hex_bytes(bs).len() ==> (#[trigger] spec_hex_bytes(bs)[i]) < 128 as char,
    decreases bs.len(),
{
    if bs.len() > 0 {
        lemma_hex_bytes_ascii(bs.drop_last());
    }
}

/// A decoded backend message, carrying the fields the diagnostic client
/// reads.
pub enum Message {
    AuthenticationOk,
    AuthenticationCleartextPassword,
    AuthenticationMd5Password { salt: [u8; 4] },
    AuthenticationSasl { mechanisms: Vec<String> },
    AuthenticationSaslContinue,
    AuthenticationSaslFinal,
    AuthenticationOther { code: u32 },
    ParameterStatus { name: String, value: String },
    BackendKeyData { process_id: u32, secret_key: u32 },
    ReadyForQuery { status: u8 },
    RowDescription { fields: Vec<RowField> },
    DataRow { columns: Vec<ColumnValue> },
    CommandComplete { tag: String },
    ParseComplete,
    BindComplete,
    CloseComplete,
    NoData,
    EmptyQueryResponse,
    PortalSuspended,
    ParameterDescription { oids: Vec<u32> },
    ErrorResponse { fields: Vec<(u8, Vec<u8>)> },
    NoticeResponse { fields: Vec<(u8, Vec<u8>)> },
    NotificationResponse { channel: String, payload: String },
    CopyInResponse,
    CopyOutResponse,
    CopyBothResponse,
    CopyData,
    CopyDone,
    Unknown { kind: u8 },
}

/// The SASL mechanism names of an AuthenticationSASL body: NUL-terminated
/// strings up to an empty one or the end.
pub open spec fn spec_sasl_mechs(data: Seq<u8>, i: int) -> Seq<Seq<u8>>
    decreases data.len() - i + 1,
    via spec_sasl_mechs_decreases
{
    if i < 0 || i >= data.len() || data[i] == 0 {
        Seq::empty()
    } else {
        let e = crate::protocol::find_nul(data, i);
        seq![data.subrange(i, e)] + spec_sasl_mechs(data, e + 1)
    }
}

#[via_fn]
proof fn spec_sasl_mechs_decreases(data: Seq<u8>, i: int) {
    if !(i < 0 || i >= data.len() || data[i] == 0) {
        crate::protocol::lemma_find_nul(data, i);
    }
}

/// The raw column values of a DataRow body from offset `i`, at most
/// `count` of them: a negative-one length is an absent value, and decoding
/// stops at a truncated length or value.
pub open spec fn spec_columns(data: Seq<u8>, i: int, count: int) -> Seq<Option<Seq<u8>>>
    decreases count,
{
    if count <= 0 || i < 0 || i + 4 > data.len() {
        Seq::empty()
    } else {
        let l = crate::frame::as_i32(
            crate::frame::be_u32(data[i], data[i + 1], data[i + 2], data[i + 3]),
        );
        if l == -1 {
            seq![None] + spec_columns(data, i + 4, count - 1)
        } else if l >= 0 {
            if i + 4 + l > data.len() {
                Seq::empty()
            } else {
                seq![Some(data.subrange(i + 4, i + 4 + l))] + spec_columns(
                    data,
                    i + 4 + l,
                    count - 1,
                )
            }
        } else {
            spec_columns(data, i + 4, count - 1)
        }
    }
}

/// Reads the raw column values of a DataRow body.
pub fn parse_data_row(data: &[u8]) -> (r: Vec<ColumnValue>)
    requires
        data@.len() >= 2,
    ensures
        ({
            let cols = spec_columns(data@, 2, crate::protocol::be_u16_of(data@) as int);
            r@.len() == cols.len() && (forall|k: int|
                0 <= k < cols.len() ==> match cols[k] {
                    None => (#[trigger] r@[k]) is Null,
                    Some(b) => r@[k] matches ColumnValue::Bytes(v) && v@ == b,
                })
        }),
{
    let count = crate::frame::read_be_u16(data, 0);
    let ghost cols = spec_columns(data@, 2, count as int);
    let mut out: Vec<ColumnValue> = Vec::new();
    let ghost done: int = 0;
    let mut i: usize = 2;
    let mut k: u16 = 0;
    let n = data.len();
    while k < count
        invariant
            n == data@.len(),
            n >= 2,
            2 <= i <= n,
            k <= count,
            0 <= done <= cols.len(),
            cols == spec_columns(data@, 2, count as int),
            cols =~~= cols.subrange(0, done) + spec_columns(data@, i as int, (count - k) as int),
            cols.subrange(0, done).len() == done,
            out@.len() == done,
            forall|m: int|
                0 <= m < done ==> match cols[m] {
                    None => (#[trigger] out@[m]) is Null,
                    Some(b) => out@[m] matches ColumnValue::Bytes(v) && v@ == b,
                },
        ensures
            spec_columns(data@, i as int, (count - k) as int) =~~= Seq::<Option<Seq<u8>>>::empty(),
        decreases count - k,
    {
        if n < 4 || i > n - 4 {
            proof {
                assert(spec_columns(data@, i as int, (count - k) as int) =~~= Seq::<
                    Option<Seq<u8>>,
                >::empty());
            }
            break ;
        }
        let l = crate::frame::read_be_i32(data, i);
        if l == -1 {
            out.push(ColumnValue::Null);
            proof {
                assert(spec_columns(data@, i as int, (count - k) as int) == seq![
                    None::<Seq<u8>>,
                ] + spec_columns(data@, i + 4 as int, (count - k - 1) as int));
                assert(cols[done] is None);
                assert(cols =~~= cols.subrange(0, done + 1) + spec_columns(
                    data@,
                    i + 4 as int,
                    (count - k - 1) as int,
                ));
                done = done + 1;
            }
            i = i + 4;
        } else if l >= 0 {
            let ll = l as usize;
            if ll > n - (i + 4) {
                proof {
                    assert(i + 4 + l > n);
                    assert(spec_columns(data@, i as int, (count - k) as int) =~~= Seq::<
                        Option<Seq<u8>>,
                    >::empty());
                }
                break ;
            }
            let vb = vstd::slice::slice_subrange(data, i + 4, i + 4 + ll);
            let v = vstd::slice::slice_to_vec(vb);
            out.push(ColumnValue::Bytes(v));
            proof {
                assert(spec_columns(data@, i as int, (count - k) as int) == seq![
                    Some(data@.subrange(i + 4, i + 4 + l)),
                ] + spec_columns(data@, i + 4 + l, (count - k - 1) as int));
                assert(cols[done] == Some(data@.subrange(i + 4, i + 4 + l)));
                assert(cols =~~= cols.subrange(0, done + 1) + spec_columns(
                    data@,
                    i + 4 + l,
                    (count - k - 1) as int,
                ));
                done = done + 1;
            }
            i = i + 4 + ll;
        } else {
            proof {
                assert(spec_columns(data@, i as int, (count - k) as int) == spec_columns(
                    data@,
                    i + 4 as int,
                    (count - k - 1) as int,
                ));
            }
            i = i + 4;
        }
        k = k + 1;
    }
    proof {
        assert(cols =~~= cols.subrange(0, done));
        assert(cols.len() == done);
    }
    out
}

/// Reads the fields of a RowDescription body as the client keeps them.
pub fn parse_fields(data: &[u8]) -> (r: Vec<RowField>)
    requires
        data@.len() >= 2,
    ensures
        ({
            let fields = crate::protocol::spec_rd_fields(
                data@,
                2,
                crate::protocol::be_u16_of(data@) as int,
            );
            r@.len() == fields.len() && (forall|k: int|
                0 <= k < fields.len() ==> {
                    &&& (#[trigger] r@[k]).name@ == lossy_of(fields[k].name)
                    &&& r@[k].type_oid == fields[k].type_oid
                    &&& r@[k].format == crate::frame::as_i16(fields[k].format)
                })
        }),
{
    let count = crate::frame::read_be_u16(data, 0);
    let ghost fields = crate::protocol::spec_rd_fields(data@, 2, count as int);
    let mut out: Vec<RowField> = Vec::new();
    let mut i: usize = 2;
    let mut k: u16 = 0;
    let n = data.len();
    while k < count
        invariant
            n == data@.len(),
            n >= 2,
            2 <= i <= n,
            k <= count,
            fields == crate::protocol::spec_rd_fields(data@, 2, count as int),
            fields =~= fields.subrange(0, k as int) + crate::protocol::spec_rd_fields(
                data@,
                i as int,
                (count - k) as int,
            ),
            fields.subrange(0, k as int).len() == k,
            out@.len() == k,
            forall|m: int|
                0 <= m < k ==> {
                    &&& (#[trigger] out@[m]).name@ == lossy_of(fields[m].name)
                    &&& out@[m].type_oid == fields[m].type_oid
                    &&& out@[m].format == crate::frame::as_i16(fields[m].format)
                },
        ensures
            crate::protocol::spec_rd_fields(data@, i as int, (count - k) as int) =~= Seq::<
                crate::protocol::SpecField,
            >::empty(),
        decreases count - k,
    {
        proof {
            crate::protocol::lemma_find_nul(data@, i as int);
        }
        let j = crate::protocol::nul_pos(data, i);
        if n < 19 || j > n - 19 {
            proof {
                assert(crate::protocol::spec_rd_fields(data@, i as int, (count - k) as int)
                    =~= Seq::<crate::protocol::SpecField>::empty());
            }
            break ;
        }
        let name_bytes = vstd::slice::slice_subrange(data, i, j);
        let kk = j + 1;
        let type_oid = crate::frame::read_be_u32(data, kk + 6);
        let format = crate::frame::read_be_i16(data, kk + 16);
        let ghost fld = crate::protocol::spec_rd_fields(data@, i as int, (count - k) as int)[0];
        proof {
            assert(crate::protocol::spec_rd_fields(data@, i as int, (count - k) as int) == seq![
                fld,
            ] + crate::protocol::spec_rd_fields(data@, kk + 18 as int, (count - k - 1) as int));
            assert(fields[k as int] == fld);
        }
        let name = lossy_string(name_bytes);
        out.push(RowField { name, type_oid, format });
        proof {
            assert(fields.subrange(0, (k + 1) as int) =~= fields.subrange(0, k as int) + seq![fld]);
            assert(fields =~= fields.subrange(0, (k + 1) as int)
                + crate::protocol::spec_rd_fields(data@, kk + 18 as int, (count - k - 1) as int));
        }
        i = kk + 18;
        k = k + 1;
    }
    proof {
        assert(fields =~= fields.subrange(0, k as int));
    }
    out
}

/// Reads the error fields of an ErrorResponse or NoticeResponse body.
fn read_error_fields(data: &[u8]) -> (r: Vec<(u8, Vec<u8>)>)
    ensures
        ({
            let fields = crate::protocol::spec_error_fields(data@, 0);
            r@.len() == fields.len() && (forall|k: int|
                0 <= k < fields.len() ==> (#[trigger] r@[k]).0 == fields[k].0 && r@[k].1@
                    == fields[k].1)
        }),
{
    let n = data.len();
    let ghost fields = crate::protocol::spec_error_fields(data@, 0);
    let mut out: Vec<(u8, Vec<u8>)> = Vec::new();
    let ghost done: int = 0;
    let mut i: usize = 0;
    proof {
        crate::protocol::lemma_error_fields_count(data@, 0);
    }
    while i < n && data[i] != 0
        invariant
            n == data@.len(),
            0 <= i <= n,
            0 <= done <= fields.len(),
            fields.len() <= n,
            fields == crate::protocol::spec_error_fields(data@, 0),
            fields =~= fields.subrange(0, done) + crate::protocol::spec_error_fields(
                data@,
                i as int,
            ),
            fields.subrange(0, done).len() == done,
            out@.len() == done,
            forall|m: int|
                0 <= m < done ==> (#[trigger] out@[m]).0 == fields[m].0 && out@[m].1@
                    == fields[m].1,
        decreases n - i,
    {
        let code = data[i];
        proof {
            crate::protocol::lemma_find_nul(data@, i + 1 as int);
        }
        let e = crate::protocol::nul_pos(data, i + 1);
        let value = vstd::slice::slice_to_vec(vstd::slice::slice_subrange(data, i + 1, e));
        let ghost fld = (code, data@.subrange(i + 1 as int, e as int));
        proof {
            assert(crate::protocol::spec_error_fields(data@, i as int) == seq![fld]
                + crate::protocol::spec_error_fields(data@, e + 1 as int));
            assert(fields[done] == fld);
        }
        out.push((code, value));
        proof {
            assert(fields.subrange(0, done + 1).drop_last() =~= fields.subrange(0, done));
            assert(fields =~= fields.subrange(0, done + 1) + crate::protocol::spec_error_fields(
                data@,
                if e + 1 <= n {
                    e + 1 as int
                } else {
                    n as int
                },
            ));
            assert(fields.subrange(0, done + 1).len() == done + 1);
            done = done + 1;
        }
        if e >= n {
            i = n;
            proof {
                assert(crate::protocol::spec_error_fields(data@, n as int) =~= Seq::<
                    (u8, Seq<u8>),
                >::empty());
            }
        } else {
            i = e + 1;
        }
    }
    proof {
        assert(crate::protocol::spec_error_fields(data@, i as int) =~= Seq::<
            (u8, Seq<u8>),
        >::empty());
        assert(fields =~= fields.subrange(0, done));
    }
    out
}

/// Whether `r` is the correct decoding of one backend frame with kind byte
/// `kind` and body `data`.  A body shorter than its kind's fixed fields
/// decodes as Unknown.
pub open spec fn spec_decoded(kind: u8, data: Seq<u8>, r: Message) -> bool {
    if kind == 82 {
        if data.len() < 4 {
            r == (Message::Unknown { kind })
        } else {
            let code = crate::frame::be_u32(data[0], data[1], data[2], data[3]);
            if code == 0 {
                r is AuthenticationOk
            } else if code == 3 {
                r is AuthenticationCleartextPassword
            } else if code == 5 {
                if data.len() >= 8 {
                    r matches Message::AuthenticationMd5Password { salt } && salt@ == data.subrange(
                        4,
                        8,
                    )
                } else {
                    r == (Message::Unknown { kind })
                }
            } else if code == 10 {
                r matches Message::AuthenticationSasl { mechanisms } && mechanisms.deep_view()
                    == spec_sasl_mechs(data, 4).map_values(|b: Seq<u8>| lossy_of(b))
            } else if code == 11 {
                r is AuthenticationSaslContinue
            } else if code == 12 {
                r is AuthenticationSaslFinal
            } else {
                r == (Message::AuthenticationOther { code })
            }
        }
    } else if kind == 75 {
        if data.len() >= 8 {
            r == (Message::BackendKeyData {
                process_id: crate::frame::be_u32(data[0], data[1], data[2], data[3]),
                secret_key: crate::frame::be_u32(data[4], data[5], data[6], data[7]),
            })
        } else {
            r == (Message::Unknown { kind })
        }
    } else if kind == 90 {
        if data.len() >= 1 {
            r == (Message::ReadyForQuery { status: data[0] })
        } else {
            r == (Message::Unknown { kind })
        }
    } else if kind == 83 {
        match crate::protocol::spec_cstring_pair(data) {
            Some(p) => r matches Message::ParameterStatus { name, value } && name@ == lossy_of(p.0)
                && value@ == lossy_of(p.1),
            None => r == (Message::Unknown { kind }),
        }
    } else if kind == 84 {
        if data.len() >= 2 {
            let fields = crate::protocol::spec_rd_fields(
                data,
                2,
                crate::protocol::be_u16_of(data) as int,
            );
            r matches Message::RowDescription { fields: fs } && fs@.len() == fields.len() && (
            forall|k: int|
                0 <= k < fields.len() ==> {
                    &&& (#[trigger] fs@[k]).name@ == lossy_of(fields[k].name)
                    &&& fs@[k].type_oid == fields[k].type_oid
                    &&& fs@[k].format == crate::frame::as_i16(fields[k].format)
                })
        } else {
            r == (Message::Unknown { kind })
        }
    } else if kind == 68 {
        if data.len() >= 2 {
            let cols = spec_columns(data, 2, crate::protocol::be_u16_of(data) as int);
            r matches Message::DataRow { columns } && columns@.len() == cols.len() && (forall|
                k: int,
            |
                0 <= k < cols.len() ==> match cols[k] {
                    None => (#[trigger] columns@[k]) is Null,
                    Some(b) => columns@[k] matches ColumnValue::Bytes(v) && v@ == b,
                })
        } else {
            r == (Message::Unknown { kind })
        }
    } else if kind == 67 {
        let tagb = crate::protocol::spec_drop_last(data);
        r matches Message::CommandComplete { tag } && tag@ == (if vstd::utf8::valid_utf8(tagb) {
            vstd::utf8::decode_utf8(tagb)
        } else {
            "<invalid utf8>"@
        })
    } else if kind == 49 {
        r is ParseComplete
    } else if kind == 50 {
        r is BindComplete
    } else if kind == 51 {
        r is CloseComplete
    } else if kind == 110 {
        r is NoData
    } else if kind == 73 {
        r is EmptyQueryResponse
    } else if kind == 115 {
        r is PortalSuspended
    } else if kind == 116 {
        if data.len() >= 2 {
            let oids = crate::protocol::spec_param_oids(
                data,
                2,
                crate::protocol::be_u16_of(data) as int,
            );
            r matches Message::ParameterDescription { oids: os } && os@ == oids
        } else {
            r == (Message::Unknown { kind })
        }
    } else if kind == 69 {
        let fields = crate::protocol::spec_error_fields(data, 0);
        r matches Message::ErrorResponse { fields: fs } && fs@.len() == fields.len() && (forall|
            k: int,
        |
            0 <= k < fields.len() ==> (#[trigger] fs@[k]).0 == fields[k].0 && fs@[k].1@
                == fields[k].1)
    } else if kind == 78 {
        let fields = crate::protocol::spec_error_fields(data, 0);
        r matches Message::NoticeResponse { fields: fs } && fs@.len() == fields.len() && (forall|
            k: int,
        |
            0 <= k < fields.len() ==> (#[trigger] fs@[k]).0 == fields[k].0 && fs@[k].1@
                == fields[k].1)
    } else if kind == 65 {
        if data.len() >= 4 {
            let e1 = crate::protocol::find_nul(data, 4);
            if e1 >= data.len() {
                r == (Message::Unknown { kind })
            } else {
                r matches Message::NotificationResponse { channel, payload } && channel@
                    == lossy_of(data.subrange(4, e1)) && payload@ == lossy_of(
                    data.subrange(e1 + 1, crate::protocol::find_nul(data, e1 + 1)),
                )
            }
        } else {
            r == (Message::Unknown { kind })
        }
    } else if kind == 71 {
        r is CopyInResponse
    } else if kind == 72 {
        r is CopyOutResponse
    } else if kind == 87 {
        r is CopyBothResponse
    } else if kind == 100 {
        r is CopyData
    } else if kind == 99 {
        r is CopyDone
    } else {
        r == (Message::Unknown { kind })
    }
}

/// Decodes one backend frame into a message; bodies shorter than their
/// kind's fixed fields decode as Unknown.
pub fn decode_backend_message(kind: u8, data: &[u8]) -> (r: Message)
    ensures
        spec_decoded(kind, data@, r),
{
    let n = data.len();
    if kind == 82 {
        if n < 4 {
            return Message::Unknown { kind };
        }
        let code = crate::frame::read_be_u32(data, 0);
        if code == 0 {
            Message::AuthenticationOk
        } else if code == 3 {
            Message::AuthenticationCleartextPassword
        } else if code == 5 {
            if n >= 8 {
                let salt: [u8; 4] = [data[4], data[5], data[6], data[7]];
                proof {
                    assert(salt@ =~= data@.subrange(4, 8));
                }
                Message::AuthenticationMd5Password { salt }
            } else {
                Message::Unknown { kind }
            }
        } else if code == 10 {
            let ghost smechs = spec_sasl_mechs(data@, 4);
            let mut mechanisms: Vec<String> = Vec::new();
            let mut i: usize = 4;
            let ghost done: int = 0;
            while i < n && data[i] != 0
                invariant
                    n == data@.len(),
                    4 <= i <= n,
                    smechs == spec_sasl_mechs(data@, 4),
                    0 <= done,
                    smechs =~~= smechs.subrange(0, done) + spec_sasl_mechs(data@, i as int),
                    smechs.subrange(0, done).len() == done,
                    done <= smechs.len(),
                    mechanisms.deep_view() =~~= smechs.subrange(0, done).map_values(
                        |b: Seq<u8>| lossy_of(b),
                    ),
                decreases n - i,
            {
                proof {
                    crate::protocol::lemma_find_nul(data@, i as int);
                }
                let e = crate::protocol::nul_pos(data, i);
                let name = lossy_string(vstd::slice::slice_subrange(data, i, e));
                let ghost mech = data@.subrange(i as int, e as int);
                proof {
                    assert(spec_sasl_mechs(data@, i as int) == seq![mech] + spec_sasl_mechs(
                        data@,
                        e + 1 as int,
                    ));
                    assert(smechs[done] == mech);
                    crate::strutil::lemma_deep_view_is_seq_deep(&mechanisms);
                }
                let ghost pv = mechanisms@;
                mechanisms.push(name);
                proof {
                    crate::strutil::lemma_seq_deep_push(pv, name);
                    crate::strutil::lemma_deep_view_is_seq_deep(&mechanisms);
                    assert(smechs.subrange(0, done + 1).drop_last() =~~= smechs.subrange(0, done));
                    assert(mechanisms.deep_view() =~~= smechs.subrange(0, done + 1).map_values(
                        |b: Seq<u8>| lossy_of(b),
                    ));
                    if e + 1 <= n {
                        assert(smechs =~~= smechs.subrange(0, done + 1) + spec_sasl_mechs(
                            data@,
                            e + 1 as int,
                        ));
                    } else {
                        assert(spec_sasl_mechs(data@, e + 1 as int) =~~= Seq::<Seq<u8>>::empty());
                        assert(smechs =~~= smechs.subrange(0, done + 1) + spec_sasl_mechs(
                            data@,
                            n as int,
                        ));
                    }
                    assert(smechs.subrange(0, done + 1).len() == done + 1);
                    done = done + 1;
                }
                if e >= n {
                    i = n;
                } else {
                    i = e + 1;
                }
            }
            proof {
                assert(spec_sasl_mechs(data@, i as int) =~~= Seq::<Seq<u8>>::empty());
                assert(smechs =~~= smechs.subrange(0, done));
                assert(mechanisms.deep_view() =~~= smechs.map_values(|b: Seq<u8>| lossy_of(b)));
            }
            Message::AuthenticationSasl { mechanisms }
        } else if code == 11 {
            Message::AuthenticationSaslContinue
        } else if code == 12 {
            Message::AuthenticationSaslFinal
        } else {
            Message::AuthenticationOther { code }
        }
    } else if kind == 75 {
        if n >= 8 {
            Message::BackendKeyData {
                process_id: crate::frame::read_be_u32(data, 0),
                secret_key: crate::frame::read_be_u32(data, 4),
            }
        } else {
            Message::Unknown { kind }
        }
    } else if kind == 90 {
        if n >= 1 {
            Message::ReadyForQuery { status: data[0] }
        } else {
            Message::Unknown { kind }
        }
    } else if kind == 83 {
        match crate::protocol::parse_cstring_pair(data) {
            Some((name, value)) => Message::ParameterStatus { name, value },
            None => Message::Unknown { kind },
        }
    } else if kind == 84 {
        if n >= 2 {
            Message::RowDescription { fields: parse_fields(data) }
        } else {
            Message::Unknown { kind }
        }
    } else if kind == 68 {
        if n >= 2 {
            Message::DataRow { columns: parse_data_row(data) }
        } else {
            Message::Unknown { kind }
        }
    } else if kind == 67 {
        let tagb = if n > 0 {
            vstd::slice::slice_subrange(data, 0, n - 1)
        } else {
            vstd::slice::slice_subrange(data, 0, 0)
        };
        proof {
            assert(tagb@ =~= crate::protocol::spec_drop_last(data@));
        }
        let tag = match utf8_string(tagb) {
            Some(t) => t,
            None => {
                let mut s = String::new();
                s.append("<invalid utf8>");
                proof {
                    assert(s@ =~= "<invalid utf8>"@);
                }
                s
            },
        };
        Message::CommandComplete { tag }
    } else if kind == 49 {
        Message::ParseComplete
    } else if kind == 50 {
        Message::BindComplete
    } else if kind == 51 {
        Message::CloseComplete
    } else if kind == 110 {
        Message::NoData
    } else if kind == 73 {
        Message::EmptyQueryResponse
    } else if kind == 115 {
        Message::PortalSuspended
    } else if kind == 116 {
        if n >= 2 {
            let count = crate::frame::read_be_u16(data, 0);
            let ghost oids = crate::protocol::spec_param_oids(data@, 2, count as int);
            let mut os: Vec<u32> = Vec::new();
            let mut i: usize = 2;
            let mut k: u16 = 0;
            while k < count && n >= 4 && i <= n - 4
                invariant
                    n == data@.len(),
                    n >= 2,
                    2 <= i,
                    i <= 2 + 4 * (k as int),
                    k <= count,
                    oids == crate::protocol::spec_param_oids(data@, 2, count as int),
                    oids =~= oids.subrange(0, k as int) + crate::protocol::spec_param_oids(
                        data@,
                        i as int,
                        (count - k) as int,
                    ),
                    oids.subrange(0, k as int).len() == k,
                    os@ =~= oids.subrange(0, k as int),
                decreases count - k,
            {
                let oid = crate::frame::read_be_u32(data, i);
                os.push(oid);
                proof {
                    assert(crate::protocol::spec_param_oids(data@, i as int, (count - k) as int)
                        == seq![oid] + crate::protocol::spec_param_oids(
                        data@,
                        i + 4 as int,
                        (count - k - 1) as int,
                    ));
                    assert(oids.subrange(0, (k + 1) as int) =~= oids.subrange(0, k as int) + seq![
                        oid,
                    ]);
                    assert(oids =~= oids.subrange(0, (k + 1) as int)
                        + crate::protocol::spec_param_oids(
                        data@,
                        i + 4 as int,
                        (count - k - 1) as int,
                    ));
                }
                i = i + 4;
                k = k + 1;
            }
            proof {
                assert(crate::protocol::spec_param_oids(data@, i as int, (count - k) as int)
                    =~= Seq::<u32>::empty());
                assert(oids =~= oids.subrange(0, k as int));
            }
            Message::ParameterDescription { oids: os }
        } else {
            Message::Unknown { kind }
        }
    } else if kind == 69 {
        Message::ErrorResponse { fields: read_error_fields(data) }
    } else if kind == 78 {
        Message::NoticeResponse { fields: read_error_fields(data) }
    } else if kind == 65 {
        if n >= 4 {
            proof {
                crate::protocol::lemma_find_nul(data@, 4);
            }
            let e1 = crate::protocol::nul_pos(data, 4);
            if e1 >= n {
                Message::Unknown { kind }
            } else {
                let channel = lossy_string(vstd::slice::slice_subrange(data, 4, e1));
                proof {
                    crate::protocol::lemma_find_nul(data@, e1 + 1 as int);
                }
                let e2 = crate::protocol::nul_pos(data, e1 + 1);
                let payload = lossy_string(vstd::slice::slice_subrange(data, e1 + 1, e2));
                Message::NotificationResponse { channel, payload }
            }
        } else {
            Message::Unknown { kind }
        }
    } else if kind == 71 {
        Message::CopyInResponse
    } else if kind == 72 {
        Message::CopyOutResponse
    } else if kind == 87 {
        Message::CopyBothResponse
    } else if kind == 100 {
        Message::CopyData
    } else if kind == 99 {
        Message::CopyDone
    } else {
        Message::Unknown { kind }
    }
}

/// The display tag of a decoded message kind.
pub open spec fn spec_message_tag(m: Message) -> Seq<char> {
    match m {
        Message::AuthenticationCleartextPassword => "AuthenticationCleartextPassword"@,
        Message::AuthenticationMd5Password { .. } => "AuthenticationMd5Password"@,
        Message::AuthenticationOk => "AuthenticationOk"@,
        Message::BackendKeyData { .. } => "BackendKeyData"@,
        Message::BindComplete => "BindComplete"@,
        Message::CommandComplete { .. } => "CommandComplete"@,
        Message::DataRow { .. } => "DataRow"@,
        Message::EmptyQueryResponse => "EmptyQueryResponse"@,
        Message::ErrorResponse { .. } => "ErrorResponse"@,
        Message::NoData => "NoData"@,
        Message::NoticeResponse { .. } => "NoticeResponse"@,
        Message::NotificationResponse { .. } => "NotificationResponse"@,
        Message::ParameterDescription { .. } => "ParameterDescription"@,
        Message::ParameterStatus { .. } => "ParameterStatus"@,
        Message::ParseComplete => "ParseComplete"@,
        Message::ReadyForQuery { .. } => "ReadyForQuery"@,
        Message::RowDescription { .. } => "RowDescription"@,
        _ => "Other"@,
    }
}

/// Names a decoded message's kind for display.
pub fn message_tag(message: &Message) -> (r: &'static str)
    ensures
        r@ == spec_message_tag(*message),
{
    match message {
        Message::AuthenticationCleartextPassword => "AuthenticationCleartextPassword",
        Message::AuthenticationMd5Password { .. } => "AuthenticationMd5Password",
        Message::AuthenticationOk => "AuthenticationOk",
        Message::BackendKeyData { .. } => "BackendKeyData",
        Message::BindComplete => "BindComplete",
        Message::CommandComplete { .. } => "CommandComplete",
        Message::DataRow { .. } => "DataRow",
        Message::EmptyQueryResponse => "EmptyQueryResponse",
        Message::ErrorResponse { .. } => "ErrorResponse",
        Message::NoData => "NoData",
        Message::NoticeResponse { .. } => "NoticeResponse",
        Message::NotificationResponse { .. } => "NotificationResponse",
        Message::ParameterDescription { .. } => "ParameterDescription",
        Message::ParameterStatus { .. } => "ParameterStatus",
        Message::ParseComplete => "ParseComplete",
        Message::ReadyForQuery { .. } => "ReadyForQuery",
        Message::RowDescription { .. } => "RowDescription",
        _ => "Other",
    }
}

/// The UTF-8 bytes of a string followed by a NUL terminator.
pub open spec fn spec_cstr(s: Seq<char>) -> Seq<u8> {
    vstd::utf8::encode_utf8(s) + seq![0u8]
}

/// Appends a string's bytes and a NUL terminator.
fn push_cstr(v: &mut Vec<u8>, s: &str)
    ensures
        final(v)@ == old(v)@ + spec_cstr(s@),
{
    let b = s.as_bytes();
    extend_bytes(v, b);
    v.push(0);
    proof {
        assert(v@ =~= old(v)@ + spec_cstr(s@));
    }
}

/// The key/value section of a startup message: each name and value
/// NUL-terminated, in order.
pub open spec fn spec_kv_bytes(params: Seq<(Seq<char>, Seq<char>)>) -> Seq<u8>
    decreases params.len(),
{
    if params.len() == 0 {
        Seq::empty()
    } else {
        spec_cstr(params[0].0) + spec_cstr(params[0].1) + spec_kv_bytes(params.skip(1))
    }
}

/// A startup message: a length that counts itself, the protocol version,
/// the NUL-terminated parameter pairs, and a final NUL.
pub open spec fn spec_startup_message(params: Seq<(Seq<char>, Seq<char>)>) -> Seq<u8> {
    let body = crate::frame::be_bytes_u32(196608) + spec_kv_bytes(params) + seq![0u8];
    crate::frame::be_bytes_u32((body.len() + 4) as u32) + body
}

/// Encodes a startup message for protocol version three.
pub fn startup_message(params: &Vec<(String, String)>) -> (r: Vec<u8>)
    requires
        spec_kv_bytes(params.deep_view()).len() + 9 < 0x80000000,
    ensures
        r@ == spec_startup_message(params.deep_view()),
{
    let mut body: Vec<u8> = Vec::new();
    push_be_u32(&mut body, 196608);
    let ghost target = crate::frame::be_bytes_u32(196608) + spec_kv_bytes(params.deep_view());
    let n = params.len();
    let mut i: usize = 0;
    while i < n
        invariant
            n == params@.len(),
            i <= n,
            spec_kv_bytes(params.deep_view()).len() + 9 < 0x80000000,
            body@ =~= crate::frame::be_bytes_u32(196608) + spec_kv_bytes(
                params.deep_view().subrange(0, i as int),
            ),
        decreases n - i,
    {
        push_cstr(&mut body, params[i].0.as_str());
        push_cstr(&mut body, params[i].1.as_str());
        proof {
            lemma_kv_bytes_snoc(params.deep_view().subrange(0, (i + 1) as int));
            assert(params.deep_view().subrange(0, (i + 1) as int).drop_last()
                =~~= params.deep_view().subrange(0, i as int));
            assert(body@ =~= crate::frame::be_bytes_u32(196608) + spec_kv_bytes(
                params.deep_view().subrange(0, (i + 1) as int),
            ));
        }
        i = i + 1;
    }
    proof {
        assert(params.deep_view().subrange(0, n as int) =~~= params.deep_view());
    }
    body.push(0);
    let mut out: Vec<u8> = Vec::new();
    push_be_u32(&mut out, (body.len() + 4) as u32);
    extend_bytes(&mut out, body.as_slice());
    proof {
        assert(out@ =~= spec_startup_message(params.deep_view()));
    }
    out
}

/// Splitting off the last parameter pair splits its bytes off the end.
proof fn lemma_kv_bytes_snoc(params: Seq<(Seq<char>, Seq<char>)>)
    requires
        params.len() >= 1,
    ensures
        spec_kv_bytes(params) == spec_kv_bytes(params.drop_last()) + (spec_cstr(params.last().0)
            + spec_cstr(params.last().1)),
    decreases params.len(),
{
    if params.len() == 1 {
        assert(params.drop_last() =~= Seq::<(Seq<char>, Seq<char>)>::empty());
        assert(spec_kv_bytes(params.drop_last()) == Seq::<u8>::empty());
        assert(params.skip(1) =~= Seq::<(Seq<char>, Seq<char>)>::empty());
        assert(spec_kv_bytes(params) =~= spec_kv_bytes(params.drop_last()) + (spec_cstr(
            params.last().0,
        ) + spec_cstr(params.last().1)));
    } else {
        lemma_kv_bytes_snoc(params.skip(1));
        assert(params.skip(1).drop_last() =~= params.drop_last().skip(1));
        assert(params.skip(1).last() == params.last());
        assert(params.drop_last()[0] == params[0]);
        assert(spec_kv_bytes(params.drop_last()) == spec_cstr(params[0].0) + spec_cstr(
            params[0].1,
        ) + spec_kv_bytes(params.drop_last().skip(1)));
        assert(spec_kv_bytes(params) =~= spec_kv_bytes(params.drop_last()) + (spec_cstr(
            params.last().0,
        ) + spec_cstr(params.last().1)));
    }
}

/// A frame with a kind byte: the kind, a length that counts itself and the
/// body, and the body.
pub open spec fn spec_typed_frame(kind: u8, body: Seq<u8>) -> Seq<u8> {
    seq![kind] + crate::frame::be_bytes_u32((body.len() + 4) as u32) + body
}

/// Encodes a PasswordMessage frame.
pub fn password_message(password: &str) -> (r: Vec<u8>)
    requires
        vstd::utf8::encode_utf8(password@).len() + 5 < 0x80000000,
    ensures
        r@ == spec_typed_frame(112, spec_cstr(password@)),
{
    let mut body: Vec<u8> = Vec::new();
    push_cstr(&mut body, password);
    typed_frame(112, body)
}

/// Wraps a body in a typed frame.
fn typed_frame(kind: u8, body: Vec<u8>) -> (r: Vec<u8>)
    requires
        body@.len() + 4 < 0x80000000,
    ensures
        r@ == spec_typed_frame(kind, body@),
{
    let mut out: Vec<u8> = Vec::new();
    out.push(kind);
    push_be_u32(&mut out, (body.len() + 4) as u32);
    extend_bytes(&mut out, body.as_slice());
    proof {
        assert(out@ =~= spec_typed_frame(kind, body@));
    }
    out
}

/// The body of a Parse message: statement name, query, and parameter type
/// OIDs.
pub open spec fn spec_parse_body(stmt: Seq<char>, query: Seq<char>, oids: Seq<u32>) -> Seq<u8> {
    spec_cstr(stmt) + spec_cstr(query) + be_bytes_u16(oids.len() as u16) + spec_oid_bytes(oids)
}

/// The concatenated big-endian OIDs.
pub open spec fn spec_oid_bytes(oids: Seq<u32>) -> Seq<u8>
    decreases oids.len(),
{
    if oids.len() == 0 {
        Seq::empty()
    } else {
        crate::frame::be_bytes_u32(oids[0]) + spec_oid_bytes(oids.skip(1))
    }
}

proof fn lemma_oid_bytes_snoc(oids: Seq<u32>)
    requires
        oids.len() >= 1,
    ensures
        spec_oid_bytes(oids) == spec_oid_bytes(oids.drop_last()) + crate::frame::be_bytes_u32(
            oids.last(),
        ),
    decreases oids.len(),
{
    if oids.len() == 1 {
        assert(oids.drop_last() =~= Seq::<u32>::empty());
        assert(oids.skip(1) =~= Seq::<u32>::empty());
        assert(spec_oid_bytes(oids) =~= spec_oid_bytes(oids.drop_last())
            + crate::frame::be_bytes_u32(oids.last()));
    } else {
        lemma_oid_bytes_snoc(oids.skip(1));
        assert(oids.skip(1).drop_last() =~= oids.drop_last().skip(1));
        assert(oids.skip(1).last() == oids.last());
        assert(oids.drop_last()[0] == oids[0]);
        assert(spec_oid_bytes(oids.drop_last()) == crate::frame::be_bytes_u32(oids[0])
            + spec_oid_bytes(oids.drop_last().skip(1)));
        assert(spec_oid_bytes(oids) =~= spec_oid_bytes(oids.drop_last())
            + crate::frame::be_bytes_u32(oids.last()));
    }
}

/// Encodes a Parse frame naming a prepared statement.
pub fn encode_parse(stmt: &str, query: &str, param_oids: &Vec<u32>) -> (r: Vec<u8>)
    requires
        param_oids@.len() < 0x10000,
        spec_parse_body(stmt@, query@, param_oids@).len() + 4 < 0x80000000,
    ensures
        r@ == spec_typed_frame(80, spec_parse_body(stmt@, query@, param_oids@)),
{
    let mut body: Vec<u8> = Vec::new();
    push_cstr(&mut body, stmt);
    push_cstr(&mut body, query);
    push_be_u16(&mut body, param_oids.len() as u16);
    let ghost mid = body@;
    let n = param_oids.len();
    let mut i: usize = 0;
    while i < n
        invariant
            n == param_oids@.len(),
            i <= n,
            body@ =~= mid + spec_oid_bytes(param_oids@.subrange(0, i as int)),
        decreases n - i,
    {
        push_be_u32(&mut body, param_oids[i]);
        proof {
            lemma_oid_bytes_snoc(param_oids@.subrange(0, (i + 1) as int));
            assert(param_oids@.subrange(0, (i + 1) as int).drop_last() =~= param_oids@.subrange(
                0,
                i as int,
            ));
            assert(body@ =~= mid + spec_oid_bytes(param_oids@.subrange(0, (i + 1) as int)));
        }
        i = i + 1;
    }
    proof {
        assert(param_oids@.subrange(0, n as int) =~= param_oids@);
        assert(body@ =~= spec_parse_body(stmt@, query@, param_oids@));
    }
    typed_frame(80, body)
}

/// The concatenated big-endian format codes.
pub open spec fn spec_format_bytes(codes: Seq<u16>) -> Seq<u8>
    decreases codes.len(),
{
    if codes.len() == 0 {
        Seq::empty()
    } else {
        be_bytes_u16(codes[0]) + spec_format_bytes(codes.skip(1))
    }
}

proof fn lemma_format_bytes_snoc(codes: Seq<u16>)
    requires
        codes.len() >= 1,
    ensures
        spec_format_bytes(codes) == spec_format_bytes(codes.drop_last()) + be_bytes_u16(
            codes.last(),
        ),
    decreases codes.len(),
{
    if codes.len() == 1 {
        assert(codes.drop_last() =~= Seq::<u16>::empty());
        assert(codes.skip(1) =~= Seq::<u16>::empty());
        assert(spec_format_bytes(codes) =~= spec_format_bytes(codes.drop_last()) + be_bytes_u16(
            codes.last(),
        ));
    } else {
        lemma_format_bytes_snoc(codes.skip(1));
        assert(codes.skip(1).drop_last() =~= codes.drop_last().skip(1));
        assert(codes.skip(1).last() == codes.last());
        assert(codes.drop_last()[0] == codes[0]);
        assert(spec_format_bytes(codes.drop_last()) == be_bytes_u16(codes[0]) + spec_format_bytes(
            codes.drop_last().skip(1),
        ));
        assert(spec_format_bytes(codes) =~= spec_format_bytes(codes.drop_last()) + be_bytes_u16(
            codes.last(),
        ));
    }
}

fn push_format_codes(body: &mut Vec<u8>, codes: &Vec<u16>)
    requires
        codes@.len() < 0x10000,
    ensures
        final(body)@ == old(body)@ + be_bytes_u16(codes@.len() as u16) + spec_format_bytes(codes@),
{
    push_be_u16(body, codes.len() as u16);
    let ghost mid = body@;
    let n = codes.len();
    let mut i: usize = 0;
    while i < n
        invariant
            n == codes@.len(),
            i <= n,
            body@ =~= mid + spec_format_bytes(codes@.subrange(0, i as int)),
        decreases n - i,
    {
        push_be_u16(body, codes[i]);
        proof {
            lemma_format_bytes_snoc(codes@.subrange(0, (i + 1) as int));
            assert(codes@.subrange(0, (i + 1) as int).drop_last() =~= codes@.subrange(0, i as int));
            assert(body@ =~= mid + spec_format_bytes(codes@.subrange(0, (i + 1) as int)));
        }
        i = i + 1;
    }
    proof {
        assert(codes@.subrange(0, n as int) =~= codes@);
        assert(body@ =~= old(body)@ + be_bytes_u16(codes@.len() as u16) + spec_format_bytes(
            codes@,
        ));
    }
}

/// The concatenated parameter values, each length-prefixed; an absent
/// value carries length minus one and no bytes.
pub open spec fn spec_param_bytes(params: Seq<Option<Seq<u8>>>) -> Seq<u8>
    decreases params.len(),
{
    if params.len() == 0 {
        Seq::empty()
    } else {
        (match params[0] {
            None => crate::frame::be_bytes_u32(0xffffffff),
            Some(b) => crate::frame::be_bytes_u32(b.len() as u32) + b,
        }) + spec_param_bytes(params.skip(1))
    }
}

proof fn lemma_param_bytes_snoc(params: Seq<Option<Seq<u8>>>)
    requires
        params.len() >= 1,
    ensures
        spec_param_bytes(params) == spec_param_bytes(params.drop_last()) + (match params.last() {
            None => crate::frame::be_bytes_u32(0xffffffff),
            Some(b) => crate::frame::be_bytes_u32(b.len() as u32) + b,
        }),
    decreases params.len(),
{
    if params.len() == 1 {
        assert(params.drop_last() =~= Seq::<Option<Seq<u8>>>::empty());
        assert(params.skip(1) =~= Seq::<Option<Seq<u8>>>::empty());
        assert(spec_param_bytes(params) =~= spec_param_bytes(params.drop_last()) + (
        match params.last() {
            None => crate::frame::be_bytes_u32(0xffffffff),
            Some(b) => crate::frame::be_bytes_u32(b.len() as u32) + b,
        }));
    } else {
        lemma_param_bytes_snoc(params.skip(1));
        assert(params.skip(1).drop_last() =~= params.drop_last().skip(1));
        assert(params.skip(1).last() == params.last());
        assert(params.drop_last()[0] == params[0]);
        assert(spec_param_bytes(params.drop_last()) == (match params[0] {
            None => crate::frame::be_bytes_u32(0xffffffff),
            Some(b) => crate::frame::be_bytes_u32(b.len() as u32) + b,
        }) + spec_param_bytes(params.drop_last().skip(1)));
        assert(spec_param_bytes(params) =~= spec_param_bytes(params.drop_last()) + (
        match params.last() {
            None => crate::frame::be_bytes_u32(0xffffffff),
            Some(b) => crate::frame::be_bytes_u32(b.len() as u32) + b,
        }));
    }
}

/// The body of a Bind message: portal and statement names, parameter
/// format codes, parameter values, and result format codes.
pub open spec fn spec_bind_body(
    portal: Seq<char>,
    stmt: Seq<char>,
    param_formats: Seq<u16>,
    params: Seq<Option<Seq<u8>>>,
    result_formats: Seq<u16>,
) -> Seq<u8> {
    spec_cstr(portal) + spec_cstr(stmt) + be_bytes_u16(param_formats.len() as u16)
        + spec_format_bytes(param_formats) + be_bytes_u16(params.len() as u16) + spec_param_bytes(
        params,
    ) + be_bytes_u16(result_formats.len() as u16) + spec_format_bytes(result_formats)
}

/// Encodes a Bind frame tying a portal to a prepared statement.
pub fn encode_bind(
    portal: &str,
    stmt: &str,
    param_formats: &Vec<u16>,
    params: &Vec<Option<Vec<u8>>>,
    result_formats: &Vec<u16>,
) -> (r: Vec<u8>)
    requires
        param_formats@.len() < 0x10000,
        params@.len() < 0x10000,
        result_formats@.len() < 0x10000,
        forall|k: int|
            0 <= k < params@.len() ==> ((#[trigger] params@[k]) matches Some(b) ==> b@.len()
                < 0x80000000),
        spec_bind_body(
            portal@,
            stmt@,
            param_formats@,
            params.deep_view(),
            result_formats@,
        ).len() + 4 < 0x80000000,
    ensures
        r@ == spec_typed_frame(
            66,
            spec_bind_body(portal@, stmt@, param_formats@, params.deep_view(), result_formats@),
        ),
{
    let mut body: Vec<u8> = Vec::new();
    push_cstr(&mut body, portal);
    push_cstr(&mut body, stmt);
    push_format_codes(&mut body, param_formats);
    push_be_u16(&mut body, params.len() as u16);
    let ghost mid = body@;
    let n = params.len();
    let mut i: usize = 0;
    while i < n
        invariant
            n == params@.len(),
            i <= n,
            forall|k: int|
                0 <= k < params@.len() ==> ((#[trigger] params@[k]) matches Some(b) ==> b@.len()
                    < 0x80000000),
            body@ =~= mid + spec_param_bytes(params.deep_view().subrange(0, i as int)),
        decreases n - i,
    {
        match &params[i] {
            None => {
                push_be_u32(&mut body, 0xffffffff);
            },
            Some(b) => {
                push_be_u32(&mut body, b.len() as u32);
                extend_bytes(&mut body, b.as_slice());
            },
        }
        proof {
            lemma_param_bytes_snoc(params.deep_view().subrange(0, (i + 1) as int));
            assert(params.deep_view().subrange(0, (i + 1) as int).drop_last()
                =~~= params.deep_view().subrange(0, i as int));
            assert(params.deep_view().subrange(0, (i + 1) as int).last()
                == params.deep_view()[i as int]);
            assert(body@ =~= mid + spec_param_bytes(
                params.deep_view().subrange(0, (i + 1) as int),
            ));
        }
        i = i + 1;
    }
    proof {
        assert(params.deep_view().subrange(0, n as int) =~~= params.deep_view());
    }
    push_format_codes(&mut body, result_formats);
    proof {
        assert(body@ =~= spec_bind_body(
            portal@,
            stmt@,
            param_formats@,
            params.deep_view(),
            result_formats@,
        ));
    }
    typed_frame(66, body)
}

/// Encodes a Describe frame for a statement or a portal.
pub fn encode_describe(kind: u8, name: &str) -> (r: Vec<u8>)
    requires
        vstd::utf8::encode_utf8(name@).len() + 6 < 0x80000000,
    ensures
        r@ == spec_typed_frame(68, seq![kind] + spec_cstr(name@)),
{
    let mut body: Vec<u8> = Vec::new();
    body.push(kind);
    push_cstr(&mut body, name);
    proof {
        assert(body@ =~= seq![kind] + spec_cstr(name@));
    }
    typed_frame(68, body)
}

/// Encodes an Execute frame for a portal, with its row limit.
pub fn encode_execute(portal: &str, max_rows: u32) -> (r: Vec<u8>)
    requires
        vstd::utf8::encode_utf8(portal@).len() + 9 < 0x80000000,
    ensures
        r@ == spec_typed_frame(69, spec_cstr(portal@) + crate::frame::be_bytes_u32(max_rows)),
{
    let mut body: Vec<u8> = Vec::new();
    push_cstr(&mut body, portal);
    push_be_u32(&mut body, max_rows);
    typed_frame(69, body)
}

/// Encodes a Sync frame.
pub fn encode_sync() -> (r: Vec<u8>)
    ensures
        r@ == spec_typed_frame(83, Seq::<u8>::empty()),
{
    let body: Vec<u8> = Vec::new();
    typed_frame(83, body)
}

/// Encodes a Terminate frame.
pub fn encode_terminate() -> (r: Vec<u8>)
    ensures
        r@ == spec_typed_frame(88, Seq::<u8>::empty()),
{
    let body: Vec<u8> = Vec::new();
    typed_frame(88, body)
}

/// One error field as `<code char>=<value>`, with non-UTF-8 values noted.
pub open spec fn spec_err_item(f: (u8, Seq<u8>)) -> Seq<char> {
    seq![f.0 as char] + "="@ + (if vstd::utf8::valid_utf8(f.1) {
        vstd::utf8::decode_utf8(f.1)
    } else {
        "<non-utf8>"@
    })
}

/// A backend error rendered as its fields, space-separated.
pub open spec fn spec_error_fields_text(fields: Seq<(u8, Seq<u8>)>) -> Seq<char> {
    spec_join(fields.map_values(|f: (u8, Seq<u8>)| spec_err_item(f)), " "@)
}

/// Renders a backend error's fields, space-separated, each as
/// `<code char>=<value>`.
pub fn format_error_fields(fields: &Vec<(u8, Vec<u8>)>) -> (r: String)
    ensures
        r@ == spec_error_fields_text(fields.deep_view()),
{
    let ghost items = fields.deep_view().map_values(|f: (u8, Seq<u8>)| spec_err_item(f));
    let n = fields.len();
    let mut out = String::new();
    let mut i: usize = 0;
    while i < n
        invariant
            n == fields@.len(),
            i <= n,
            items == fields.deep_view().map_values(|f: (u8, Seq<u8>)| spec_err_item(f)),
            out@ == spec_join(items.subrange(0, i as int), " "@) + if 0 < i < n {
                " "@
            } else {
                Seq::<char>::empty()
            },
        decreases n - i,
    {
        push_char(&mut out, fields[i].0 as char);
        out.append("=");
        match utf8_string(fields[i].1.as_slice()) {
            Some(v) => {
                out.append(v.as_str());
            },
            None => {
                out.append("<non-utf8>");
            },
        }
        if i + 1 < n {
            out.append(" ");
        }
        proof {
            assert(fields.deep_view()[i as int].0 == fields@[i as int].0);
            assert(fields.deep_view()[i as int].1 == fields@[i as int].1@);
            lemma_join_snoc(items.subrange(0, i + 1), " "@);
            assert(items.subrange(0, i + 1).drop_last() =~= items.subrange(0, i as int));
            assert(items.subrange(0, i + 1).last() == items[i as int]);
            if i + 1 < n {
                assert(out@ =~= spec_join(items.subrange(0, i + 1), " "@) + " "@);
            } else {
                assert(out@ =~= spec_join(items.subrange(0, i + 1), " "@));
            }
        }
        i = i + 1;
    }
    proof {
        assert(items.subrange(0, n as int) =~= items);
    }
    out
}

/// Renders a backend ErrorResponse's fields for display.
pub fn format_backend_error(fields: &Vec<(u8, Vec<u8>)>) -> (r: String)
    ensures
        r@ == spec_error_fields_text(fields.deep_view()),
{
    format_error_fields(fields)
}

/// What the authentication loop does next in reaction to one backend
/// message.
pub enum AuthAction {
    /// Keep reading.
    Continue,
    /// Print the note and keep reading.
    Note(String),
    /// Send the password response and keep reading.
    SendPassword(String),
    /// Print the note; authentication is over.
    Ready(String),
    /// Authentication failed; surface the error.
    Fail(String),
}

/// The list of SASL mechanisms as it is reported in the failure message.
pub open spec fn spec_mech_list(mechs: Seq<Seq<char>>) -> Seq<char> {
    "["@ + spec_join(mechs.map_values(|m: Seq<char>| seq!['"'] + m + seq!['"']), ", "@) + "]"@
}

/// Whether `r` is the correct reaction of the authentication loop to `m`.
pub open spec fn spec_auth_action_ok(
    m: Message,
    user: Seq<char>,
    password: Option<Seq<char>>,
    r: AuthAction,
) -> bool {
    match m {
        Message::AuthenticationOk => r is Continue,
        Message::AuthenticationCleartextPassword => match password {
            Some(p) => r matches AuthAction::SendPassword(s) && s@ == p,
            None => r matches AuthAction::Fail(e) && e@
                == "server requested cleartext password but none provided"@,
        },
        Message::AuthenticationMd5Password { salt } => match password {
            Some(p) => r matches AuthAction::SendPassword(s) && s@ == spec_md5_password_response(
                vstd::utf8::encode_utf8(user),
                vstd::utf8::encode_utf8(p),
                salt@,
            ),
            None => r matches AuthAction::Fail(e) && e@
                == "server requested md5 password authentication but none provided"@,
        },
        Message::AuthenticationSasl { mechanisms } => r matches AuthAction::Fail(e) && e@
            == "SASL authentication is not supported: "@ + spec_mech_list(mechanisms.deep_view()),
        Message::AuthenticationSaslContinue => r matches AuthAction::Fail(e) && e@
            == "SASL continuation not supported by inspector"@,
        Message::AuthenticationSaslFinal => r matches AuthAction::Fail(e) && e@
            == "SASL final message not supported by inspector"@,
        Message::ParameterStatus { name, value } => r matches AuthAction::Note(s) && s@
            == "parameter: "@ + name@ + " = "@ + value@,
        Message::BackendKeyData { process_id, secret_key } => r matches AuthAction::Note(s) && s@
            == "backend key data: pid="@ + spec_dec(process_id as u64) + " secret="@ + spec_dec(
            secret_key as u64,
        ),
        Message::ReadyForQuery { status } => r matches AuthAction::Ready(s) && s@
            == "ready for query (transaction state "@ + spec_dec(status as u64) + ")"@,
        Message::ErrorResponse { fields } => r matches AuthAction::Fail(e) && e@
            == spec_error_fields_text(fields.deep_view()),
        _ => r matches AuthAction::Note(s) && s@ == "startup message ignored: \""@
            + spec_message_tag(m) + "\""@,
    }
}

/// Decides the authentication loop's next step from one backend message:
/// continue, answer a password challenge, note a server message, stop at
/// ReadyForQuery, or fail on errors and unsupported mechanisms.
pub fn auth_step(message: &Message, user: &str, password: Option<&String>) -> (r: AuthAction)
    ensures
        spec_auth_action_ok(
            *message,
            user@,
            match password {
                Some(p) => Some(p@),
                None => None,
            },
            r,
        ),
{
    match message {
        Message::AuthenticationOk => AuthAction::Continue,
        Message::AuthenticationCleartextPassword => match password {
            Some(p) => AuthAction::SendPassword(p.clone()),
            None => {
                let mut e = String::new();
                e.append("server requested cleartext password but none provided");
                proof {
                    assert(e@ =~= "server requested cleartext password but none provided"@);
                }
                AuthAction::Fail(e)
            },
        },
        Message::AuthenticationMd5Password { salt } => match password {
            Some(p) => AuthAction::SendPassword(md5_password_response(user, p.as_str(), *salt)),
            None => {
                let mut e = String::new();
                e.append("server requested md5 password authentication but none provided");
                proof {
                    assert(e@
                        =~= "server requested md5 password authentication but none provided"@);
                }
                AuthAction::Fail(e)
            },
        },
        Message::AuthenticationSasl { mechanisms } => {
            let ghost quoted = mechanisms.deep_view().map_values(
                |m: Seq<char>| seq!['"'] + m + seq!['"'],
            );
            let mut e = String::new();
            e.append("SASL authentication is not supported: ");
            e.append("[");
            let n = mechanisms.len();
            let mut i: usize = 0;
            let ghost base = e@;
            while i < n
                invariant
                    n == mechanisms@.len(),
                    i <= n,
                    quoted == mechanisms.deep_view().map_values(
                        |m: Seq<char>| seq!['"'] + m + seq!['"'],
                    ),
                    e@ == base + spec_join(quoted.subrange(0, i as int), ", "@) + if 0 < i < n {
                        ", "@
                    } else {
                        Seq::<char>::empty()
                    },
                decreases n - i,
            {
                push_char(&mut e, '"');
                e.append(mechanisms[i].as_str());
                push_char(&mut e, '"');
                if i + 1 < n {
                    e.append(", ");
                }
                proof {
                    lemma_join_snoc(quoted.subrange(0, i + 1), ", "@);
                    assert(quoted.subrange(0, i + 1).drop_last() =~= quoted.subrange(0, i as int));
                    assert(quoted.subrange(0, i + 1).last() == quoted[i as int]);
                    if i + 1 < n {
                        assert(e@ =~= base + spec_join(quoted.subrange(0, i + 1), ", "@) + ", "@);
                    } else {
                        assert(e@ =~= base + spec_join(quoted.subrange(0, i + 1), ", "@));
                    }
                }
                i = i + 1;
            }
            e.append("]");
            proof {
                assert(quoted.subrange(0, n as int) =~= quoted);
                assert(e@ =~= "SASL authentication is not supported: "@ + spec_mech_list(
                    mechanisms.deep_view(),
                ));
            }
            AuthAction::Fail(e)
        },
        Message::AuthenticationSaslContinue => {
            let mut e = String::new();
            e.append("SASL continuation not supported by inspector");
            proof {
                assert(e@ =~= "SASL continuation not supported by inspector"@);
            }
            AuthAction::Fail(e)
        },
        Message::AuthenticationSaslFinal => {
            let mut e = String::new();
            e.append("SASL final message not supported by inspector");
            proof {
                assert(e@ =~= "SASL final message not supported by inspector"@);
            }
            AuthAction::Fail(e)
        },
        Message::ParameterStatus { name, value } => {
            let mut s = String::new();
            s.append("parameter: ");
            s.append(name.as_str());
            s.append(" = ");
            s.append(value.as_str());
            proof {
                assert(s@ =~= "parameter: "@ + name@ + " = "@ + value@);
            }
            AuthAction::Note(s)
        },
        Message::BackendKeyData { process_id, secret_key } => {
            let mut s = String::new();
            s.append("backend key data: pid=");
            let pid = u64_to_dec(*process_id as u64);
            s.append(pid.as_str());
            s.append(" secret=");
            let sec = u64_to_dec(*secret_key as u64);
            s.append(sec.as_str());
            proof {
                assert(s@ =~= "backend key data: pid="@ + spec_dec(*process_id as u64)
                    + " secret="@ + spec_dec(*secret_key as u64));
            }
            AuthAction::Note(s)
        },
        Message::ReadyForQuery { status } => {
            let mut s = String::new();
            s.append("ready for query (transaction state ");
            let st = u64_to_dec(*status as u64);
            s.append(st.as_str());
            s.append(")");
            proof {
                assert(s@ =~= "ready for query (transaction state "@ + spec_dec(*status as u64)
                    + ")"@);
            }
            AuthAction::Ready(s)
        },
        Message::ErrorResponse { fields } => AuthAction::Fail(format_error_fields(fields)),
        _ => {
            let mut s = String::new();
            s.append("startup message ignored: \"");
            s.append(message_tag(message));
            s.append("\"");
            proof {
                assert(s@ =~= "startup message ignored: \""@ + spec_message_tag(*message) + "\""@);
            }
            AuthAction::Note(s)
        },
    }
}

/// The outcome of one query run: which acknowledgements arrived, the
/// result's shape, its rows, and the completion tag.
pub struct QueryReport {
    pub parse_complete: bool,
    pub bind_complete: bool,
    pub fields: Vec<RowField>,
    pub rows: Vec<Vec<ColumnValue>>,
    pub command_tag: Option<String>,
}

impl Default for QueryReport {
    /// An empty report: nothing acknowledged, no rows, no tag.
    fn default() -> (r: Self)
        ensures
            !r.parse_complete,
            !r.bind_complete,
            r.fields@.len() == 0,
            r.rows@.len() == 0,
            r.command_tag is None,
    {
        QueryReport {
            parse_complete: false,
            bind_complete: false,
            fields: Vec::new(),
            rows: Vec::new(),
            command_tag: None,
        }
    }
}

/// The name of a boolean for display.
pub open spec fn spec_bool_text(b: bool) -> Seq<char> {
    if b {
        "true"@
    } else {
        "false"@
    }
}

/// The debug lines for a field list: one line per column, or a note that
/// there is none.
pub open spec fn spec_debug_fields(fs: Seq<RowField>) -> Seq<Seq<char>> {
    if fs.len() == 0 {
        seq!["  (no columns)"@]
    } else {
        Seq::new(
            fs.len(),
            |i: int| "  col "@ + spec_dec(i as u64) + ": name='"@ + fs[i].name@ + "' oid="@
                + spec_dec(fs[i].type_oid as u64) + " format="@ + spec_format_label(fs[i].format),
        )
    }
}

/// Prints one line per column of a field list.
pub fn debug_print_fields(fields: &Vec<RowField>) -> (lines: Vec<String>)
    ensures
        lines.deep_view() == spec_debug_fields(fields@),
{
    let n = fields.len();
    if n == 0 {
        let mut s = String::new();
        s.append("  (no columns)");
        proof {
            assert(s@ =~= "  (no columns)"@);
        }
        return crate::protocol::vec1(s);
    }
    let mut lines: Vec<String> = Vec::new();
    let mut i: usize = 0;
    while i < n
        invariant
            n == fields@.len(),
            n > 0,
            i <= n,
            lines.deep_view() =~~= spec_debug_fields(fields@).subrange(0, i as int),
        decreases n - i,
    {
        let mut s = String::new();
        s.append("  col ");
        let num = u64_to_dec(i as u64);
        s.append(num.as_str());
        s.append(": name='");
        s.append(fields[i].name.as_str());
        s.append("' oid=");
        let oid = u64_to_dec(fields[i].type_oid as u64);
        s.append(oid.as_str());
        s.append(" format=");
        s.append(fields[i].format_label());
        proof {
            assert(s@ =~= spec_debug_fields(fields@)[i as int]);
        }
        crate::protocol::push_line(&mut lines, s);
        proof {
            assert(lines.deep_view() =~~= spec_debug_fields(fields@).subrange(0, (i + 1) as int));
        }
        i = i + 1;
    }
    proof {
        assert(spec_debug_fields(fields@).subrange(0, n as int) =~~= spec_debug_fields(fields@));
    }
    lines
}

/// The column name used for column `i`, with a fallback past the known
/// fields.
pub open spec fn spec_col_name(fs: Seq<RowField>, i: int, fallback: Seq<char>) -> Seq<char> {
    if 0 <= i < fs.len() {
        fs[i].name@
    } else {
        fallback
    }
}

/// The format label used for column `i`, with `unknown` past the known
/// fields.
pub open spec fn spec_col_label(fs: Seq<RowField>, i: int) -> Seq<char> {
    if 0 <= i < fs.len() {
        spec_format_label(fs[i].format)
    } else {
        "unknown"@
    }
}

/// The debug lines for one data row: one line per column value.
pub open spec fn spec_debug_row(fs: Seq<RowField>, vals: Seq<ColumnValue>) -> Seq<Seq<char>> {
    Seq::new(
        vals.len(),
        |i: int| "    col "@ + spec_dec(i as u64) + " ("@ + spec_col_name(fs, i, "<unnamed>"@)
            + " / "@ + spec_col_label(fs, i) + "): "@ + spec_wrap_column_value(vals[i]),
    )
}

/// Prints one line per column of a data row.
pub fn debug_print_row(fields: &Vec<RowField>, values: &Vec<ColumnValue>) -> (lines: Vec<String>)
    ensures
        lines.deep_view() == spec_debug_row(fields@, values@),
{
    let n = values.len();
    let mut lines: Vec<String> = Vec::new();
    let mut i: usize = 0;
    while i < n
        invariant
            n == values@.len(),
            i <= n,
            lines.deep_view() =~~= spec_debug_row(fields@, values@).subrange(0, i as int),
        decreases n - i,
    {
        let mut s = String::new();
        s.append("    col ");
        let num = u64_to_dec(i as u64);
        s.append(num.as_str());
        s.append(" (");
        if i < fields.len() {
            s.append(fields[i].name.as_str());
        } else {
            s.append("<unnamed>");
        }
        s.append(" / ");
        if i < fields.len() {
            s.append(fields[i].format_label());
        } else {
            s.append("unknown");
        }
        s.append("): ");
        let v = wrap_column_value(&values[i]);
        s.append(v.as_str());
        proof {
            assert(s@ =~= spec_debug_row(fields@, values@)[i as int]);
        }
        crate::protocol::push_line(&mut lines, s);
        proof {
            assert(lines.deep_view() =~~= spec_debug_row(fields@, values@).subrange(
                0,
                (i + 1) as int,
            ));
        }
        i = i + 1;
    }
    proof {
        assert(spec_debug_row(fields@, values@).subrange(0, n as int) =~~= spec_debug_row(
            fields@,
            values@,
        ));
    }
    lines
}

/// What the extended-query loop does next in reaction to one backend
/// message.
pub enum QueryAction {
    /// Print the lines and keep reading.
    Continue(Vec<String>),
    /// The run is over.
    Done,
    /// The backend reported an error; surface it.
    Fail(String),
}

/// The list text for parameter type OIDs.
pub open spec fn spec_oid_list(oids: Seq<u32>) -> Seq<char> {
    "["@ + spec_join(oids.map_values(|o: u32| spec_dec(o as u64)), ", "@) + "]"@
}

/// The note printed when a row's column count disagrees with the row
/// description.
pub open spec fn spec_row_count_warning(values: u64, columns: u64) -> Seq<char> {
    "warning: row has "@ + spec_dec(values) + " values but description has "@ + spec_dec(columns)
        + " columns"@
}

/// Whether `r` and the report change are the correct reaction of the
/// extended-query loop to `m`.
pub open spec fn spec_report_step_ok(
    before: QueryReport,
    after: QueryReport,
    m: Message,
    r: QueryAction,
) -> bool {
    match m {
        Message::ParseComplete => after == (QueryReport { parse_complete: true, ..before }) && (r
            matches QueryAction::Continue(ls) && ls.deep_view() == seq![
            "parse response: ParseComplete"@,
        ]),
        Message::BindComplete => after == (QueryReport { bind_complete: true, ..before }) && (r
            matches QueryAction::Continue(ls) && ls.deep_view() == seq![
            "bind response: BindComplete"@,
        ]),
        Message::RowDescription { fields } => after == (QueryReport { fields, ..before }) && (r
            matches QueryAction::Continue(ls) && ls.deep_view() == seq!["row description arrived:"@]
            + spec_debug_fields(fields@)),
        Message::DataRow { columns } => after.parse_complete == before.parse_complete
            && after.bind_complete == before.bind_complete && after.fields == before.fields
            && after.command_tag == before.command_tag && after.rows@ == before.rows@.push(columns)
            && (r matches QueryAction::Continue(ls) && ls.deep_view() == (
        if columns@.len() != before.fields@.len() {
            seq![spec_row_count_warning(columns@.len() as u64, before.fields@.len() as u64)]
        } else {
            Seq::<Seq<char>>::empty()
        }) + seq!["data row received:"@] + spec_debug_row(before.fields@, columns@)),
        Message::CommandComplete { tag } => after == (QueryReport {
            command_tag: Some(tag),
            ..before
        }) && (r matches QueryAction::Continue(ls) && ls.deep_view() == Seq::<Seq<char>>::empty()),
        Message::ReadyForQuery { .. } => after == before && r is Done,
        Message::EmptyQueryResponse => after == before && (r matches QueryAction::Continue(ls)
            && ls.deep_view() == seq!["empty query response"@]),
        Message::ParameterDescription { oids } => after == before && (r
            matches QueryAction::Continue(ls) && ls.deep_view() == seq![
            "parameter types: "@ + spec_oid_list(oids@),
        ]),
        Message::NoData => after == before && (r matches QueryAction::Continue(ls)
            && ls.deep_view() == seq!["no data response"@]),
        Message::ErrorResponse { fields } => after == before && (r matches QueryAction::Fail(e)
            && e@ == spec_error_fields_text(fields.deep_view())),
        Message::NoticeResponse { fields } => after == before && (r
            matches QueryAction::Continue(ls) && ls.deep_view() == seq![
            "notice: "@ + spec_error_fields_text(fields.deep_view()),
        ]),
        Message::NotificationResponse { channel, payload } => after == before && (r
            matches QueryAction::Continue(ls) && ls.deep_view() == seq![
            "notification: channel="@ + channel@ + " payload="@ + payload@,
        ]),
        _ => after == before && (r matches QueryAction::Continue(ls) && ls.deep_view() == seq![
            "unexpected message: \""@ + spec_message_tag(m) + "\""@,
        ]),
    }
}

/// Folds one backend message into the report: acknowledgements set flags,
/// the row description and rows accumulate, CommandComplete keeps its tag,
/// ReadyForQuery ends the run, and an ErrorResponse fails it.
pub fn report_step(report: &mut QueryReport, message: Message) -> (r: QueryAction)
    ensures
        spec_report_step_ok(*old(report), *final(report), message, r),
{
    match message {
        Message::ParseComplete => {
            report.parse_complete = true;
            let mut s = String::new();
            s.append("parse response: ParseComplete");
            proof {
                assert(s@ =~= "parse response: ParseComplete"@);
            }
            QueryAction::Continue(crate::protocol::vec1(s))
        },
        Message::BindComplete => {
            report.bind_complete = true;
            let mut s = String::new();
            s.append("bind response: BindComplete");
            proof {
                assert(s@ =~= "bind response: BindComplete"@);
            }
            QueryAction::Continue(crate::protocol::vec1(s))
        },
        Message::RowDescription { fields } => {
            let mut s = String::new();
            s.append("row description arrived:");
            proof {
                assert(s@ =~= "row description arrived:"@);
            }
            let mut lines = crate::protocol::vec1(s);
            let more = debug_print_fields(&fields);
            crate::protocol::extend_lines(&mut lines, &more);
            report.fields = fields;
            proof {
                assert(lines.deep_view() =~~= seq!["row description arrived:"@]
                    + spec_debug_fields(final(report).fields@));
            }
            QueryAction::Continue(lines)
        },
        Message::DataRow { columns } => {
            let mut lines: Vec<String> = Vec::new();
            proof {
                crate::strutil::lemma_deep_view_is_seq_deep(&lines);
            }
            if columns.len() != report.fields.len() {
                let mut w = String::new();
                w.append("warning: row has ");
                let nv = u64_to_dec(columns.len() as u64);
                w.append(nv.as_str());
                w.append(" values but description has ");
                let nc = u64_to_dec(report.fields.len() as u64);
                w.append(nc.as_str());
                w.append(" columns");
                proof {
                    assert(w@ =~= spec_row_count_warning(
                        columns@.len() as u64,
                        report.fields@.len() as u64,
                    ));
                }
                crate::protocol::push_line(&mut lines, w);
            }
            let ghost warn_lines = lines.deep_view();
            let mut s = String::new();
            s.append("data row received:");
            proof {
                assert(s@ =~= "data row received:"@);
            }
            crate::protocol::push_line(&mut lines, s);
            let more = debug_print_row(&report.fields, &columns);
            crate::protocol::extend_lines(&mut lines, &more);
            proof {
                assert(lines.deep_view() =~~= warn_lines + seq!["data row received:"@]
                    + spec_debug_row(report.fields@, columns@));
                if columns@.len() != report.fields@.len() {
                    assert(warn_lines =~~= seq![
                        spec_row_count_warning(
                            columns@.len() as u64,
                            report.fields@.len() as u64,
                        ),
                    ]);
                } else {
                    assert(warn_lines =~~= Seq::<Seq<char>>::empty());
                }
            }
            report.rows.push(columns);
            QueryAction::Continue(lines)
        },
        Message::CommandComplete { tag } => {
            report.command_tag = Some(tag);
            let lines: Vec<String> = Vec::new();
            proof {
                crate::strutil::lemma_deep_view_is_seq_deep(&lines);
                assert(lines.deep_view() =~~= Seq::<Seq<char>>::empty());
            }
            QueryAction::Continue(lines)
        },
        Message::ReadyForQuery { .. } => QueryAction::Done,
        Message::EmptyQueryResponse => {
            let mut s = String::new();
            s.append("empty query response");
            proof {
                assert(s@ =~= "empty query response"@);
            }
            QueryAction::Continue(crate::protocol::vec1(s))
        },
        Message::ParameterDescription { oids } => {
            let ghost items = oids@.map_values(|o: u32| spec_dec(o as u64));
            let mut s = String::new();
            s.append("parameter types: ");
            s.append("[");
            let ghost base = s@;
            let n = oids.len();
            let mut i: usize = 0;
            while i < n
                invariant
                    n == oids@.len(),
                    i <= n,
                    items == oids@.map_values(|o: u32| spec_dec(o as u64)),
                    s@ == base + spec_join(items.subrange(0, i as int), ", "@) + if 0 < i < n {
                        ", "@
                    } else {
                        Seq::<char>::empty()
                    },
                decreases n - i,
            {
                let num = u64_to_dec(oids[i] as u64);
                s.append(num.as_str());
                if i + 1 < n {
                    s.append(", ");
                }
                proof {
                    lemma_join_snoc(items.subrange(0, i + 1), ", "@);
                    assert(items.subrange(0, i + 1).drop_last() =~= items.subrange(0, i as int));
                    assert(items.subrange(0, i + 1).last() == items[i as int]);
                    if i + 1 < n {
                        assert(s@ =~= base + spec_join(items.subrange(0, i + 1), ", "@) + ", "@);
                    } else {
                        assert(s@ =~= base + spec_join(items.subrange(0, i + 1), ", "@));
                    }
                }
                i = i + 1;
            }
            s.append("]");
            proof {
                assert(items.subrange(0, n as int) =~= items);
                assert(s@ =~= "parameter types: "@ + spec_oid_list(oids@));
            }
            QueryAction::Continue(crate::protocol::vec1(s))
        },
        Message::NoData => {
            let mut s = String::new();
            s.append("no data response");
            proof {
                assert(s@ =~= "no data response"@);
            }
            QueryAction::Continue(crate::protocol::vec1(s))
        },
        Message::ErrorResponse { fields } => QueryAction::Fail(format_error_fields(&fields)),
        Message::NoticeResponse { fields } => {
            let mut s = String::new();
            s.append("notice: ");
            let body = format_error_fields(&fields);
            s.append(body.as_str());
            proof {
                assert(s@ =~= "notice: "@ + spec_error_fields_text(fields.deep_view()));
            }
            QueryAction::Continue(crate::protocol::vec1(s))
        },
        Message::NotificationResponse { channel, payload } => {
            let mut s = String::new();
            s.append("notification: channel=");
            s.append(channel.as_str());
            s.append(" payload=");
            s.append(payload.as_str());
            proof {
                assert(s@ =~= "notification: channel="@ + channel@ + " payload="@ + payload@);
            }
            QueryAction::Continue(crate::protocol::vec1(s))
        },
        _ => {
            let mut s = String::new();
            s.append("unexpected message: \"");
            s.append(message_tag(&message));
            s.append("\"");
            proof {
                assert(s@ =~= "unexpected message: \""@ + spec_message_tag(message) + "\""@);
            }
            QueryAction::Continue(crate::protocol::vec1(s))
        },
    }
}

/// One report line per column of one result row.
pub open spec fn spec_report_row(fs: Seq<RowField>, vals: Seq<ColumnValue>) -> Seq<Seq<char>> {
    Seq::new(
        vals.len(),
        |j: int| "  "@ + spec_dec(j as u64) + " ("@ + spec_col_name(fs, j, "?col"@) + " / "@
            + spec_col_label(fs, j) + "): "@ + spec_wrap_column_value(vals[j]),
    )
}

/// The report lines of the rows from index `idx` on: a header line per
/// row, then one line per column.
pub open spec fn spec_rows_lines(fs: Seq<RowField>, rows: Seq<Vec<ColumnValue>>, idx: int) -> Seq<
    Seq<char>,
>
    decreases rows.len(),
{
    if rows.len() == 0 {
        Seq::empty()
    } else {
        seq!["row "@ + spec_dec(idx as u64) + ":"@] + spec_report_row(fs, rows[0]@)
            + spec_rows_lines(fs, rows.skip(1), idx + 1)
    }
}

/// The column-description lines of the report.
pub open spec fn spec_report_field_lines(fs: Seq<RowField>) -> Seq<Seq<char>> {
    if fs.len() == 0 {
        seq!["no row description returned"@]
    } else {
        seq!["row description ("@ + spec_dec(fs.len() as u64) + " column(s)):"@] + Seq::new(
            fs.len(),
            |i: int| "  "@ + spec_dec(i as u64) + ": name='"@ + fs[i].name@ + "' oid="@ + spec_dec(
                fs[i].type_oid as u64,
            ) + " format="@ + spec_format_label(fs[i].format),
        )
    }
}

/// The whole report, one line per entry.
pub open spec fn spec_report_lines(r: QueryReport) -> Seq<Seq<char>> {
    seq![
        "parse complete: "@ + spec_bool_text(r.parse_complete),
        "bind complete: "@ + spec_bool_text(r.bind_complete),
    ] + spec_report_field_lines(r.fields@) + spec_rows_lines(r.fields@, r.rows@, 0) + (
    match r.command_tag {
        Some(t) => seq!["command tag: "@ + t@],
        None => Seq::<Seq<char>>::empty(),
    })
}

impl QueryReport {
    /// Renders the report: the acknowledgements, the result's columns,
    /// every row, and the completion tag.
    pub fn print(&self) -> (lines: Vec<String>)
        ensures
            lines.deep_view() == spec_report_lines(*self),
    {
        let mut lines: Vec<String> = Vec::new();
        let mut l1 = String::new();
        l1.append("parse complete: ");
        if self.parse_complete {
            l1.append("true");
        } else {
            l1.append("false");
        }
        proof {
            assert(l1@ =~= "parse complete: "@ + spec_bool_text(self.parse_complete));
        }
        crate::protocol::push_line(&mut lines, l1);
        let mut l2 = String::new();
        l2.append("bind complete: ");
        if self.bind_complete {
            l2.append("true");
        } else {
            l2.append("false");
        }
        proof {
            assert(l2@ =~= "bind complete: "@ + spec_bool_text(self.bind_complete));
        }
        crate::protocol::push_line(&mut lines, l2);
        let ghost head = lines.deep_view();
        proof {
            assert(head =~~= seq![
                "parse complete: "@ + spec_bool_text(self.parse_complete),
                "bind complete: "@ + spec_bool_text(self.bind_complete),
            ]);
        }

        let nf = self.fields.len();
        if nf == 0 {
            let mut s = String::new();
            s.append("no row description returned");
            proof {
                assert(s@ =~= "no row description returned"@);
            }
            crate::protocol::push_line(&mut lines, s);
        } else {
            let mut s = String::new();
            s.append("row description (");
            let num = u64_to_dec(nf as u64);
            s.append(num.as_str());
            s.append(" column(s)):");
            proof {
                assert(s@ =~= spec_report_field_lines(self.fields@)[0]);
            }
            crate::protocol::push_line(&mut lines, s);
            let mut i: usize = 0;
            while i < nf
                invariant
                    nf == self.fields@.len(),
                    nf > 0,
                    i <= nf,
                    lines.deep_view() =~~= head + spec_report_field_lines(self.fields@).subrange(
                        0,
                        i + 1,
                    ),
                decreases nf - i,
            {
                let mut fl = String::new();
                fl.append("  ");
                let num = u64_to_dec(i as u64);
                fl.append(num.as_str());
                fl.append(": name='");
                fl.append(self.fields[i].name.as_str());
                fl.append("' oid=");
                let oid = u64_to_dec(self.fields[i].type_oid as u64);
                fl.append(oid.as_str());
                fl.append(" format=");
                fl.append(self.fields[i].format_label());
                proof {
                    assert(fl@ =~= spec_report_field_lines(self.fields@)[i + 1]);
                }
                crate::protocol::push_line(&mut lines, fl);
                proof {
                    assert(lines.deep_view() =~~= head + spec_report_field_lines(
                        self.fields@,
                    ).subrange(0, i + 2));
                }
                i = i + 1;
            }
        }
        proof {
            assert(spec_report_field_lines(self.fields@).subrange(
                0,
                spec_report_field_lines(self.fields@).len() as int,
            ) =~~= spec_report_field_lines(self.fields@));
            assert(lines.deep_view() =~~= head + spec_report_field_lines(self.fields@));
        }
        let ghost head2 = lines.deep_view();
        proof {
            assert(self.rows@.skip(0) =~= self.rows@);
            assert(lines.deep_view().skip(head2.len() as int) =~~= Seq::<Seq<char>>::empty());
            assert(lines.deep_view().subrange(0, head2.len() as int) =~~= head2);
        }

        let nr = self.rows.len();
        let mut ri: usize = 0;
        while ri < nr
            invariant
                nr == self.rows@.len(),
                ri <= nr,
                spec_rows_lines(self.fields@, self.rows@, 0) =~~= lines.deep_view().skip(
                    head2.len() as int,
                ) + spec_rows_lines(self.fields@, self.rows@.skip(ri as int), ri as int),
                lines.deep_view().len() >= head2.len(),
                lines.deep_view().subrange(0, head2.len() as int) =~~= head2,
            decreases nr - ri,
        {
            let mut rh = String::new();
            rh.append("row ");
            let num = u64_to_dec(ri as u64);
            rh.append(num.as_str());
            rh.append(":");
            proof {
                assert(rh@ =~= "row "@ + spec_dec(ri as u64) + ":"@);
            }
            crate::protocol::push_line(&mut lines, rh);
            let row = &self.rows[ri];
            let nc = row.len();
            let ghost rowtarget = spec_report_row(self.fields@, row@);
            let ghost before_cols = lines.deep_view();
            let mut ci: usize = 0;
            while ci < nc
                invariant
                    nc == row@.len(),
                    ci <= nc,
                    rowtarget == spec_report_row(self.fields@, row@),
                    lines.deep_view() =~~= before_cols + rowtarget.subrange(0, ci as int),
                decreases nc - ci,
            {
                let mut cl = String::new();
                cl.append("  ");
                let num = u64_to_dec(ci as u64);
                cl.append(num.as_str());
                cl.append(" (");
                if ci < self.fields.len() {
                    cl.append(self.fields[ci].name.as_str());
                } else {
                    cl.append("?col");
                }
                cl.append(" / ");
                if ci < self.fields.len() {
                    cl.append(self.fields[ci].format_label());
                } else {
                    cl.append("unknown");
                }
                cl.append("): ");
                let v = wrap_column_value(&row[ci]);
                cl.append(v.as_str());
                proof {
                    assert(cl@ =~= rowtarget[ci as int]);
                }
                crate::protocol::push_line(&mut lines, cl);
                proof {
                    assert(lines.deep_view() =~~= before_cols + rowtarget.subrange(
                        0,
                        (ci + 1) as int,
                    ));
                }
                ci = ci + 1;
            }
            proof {
                assert(rowtarget.subrange(0, nc as int) =~~= rowtarget);
                assert(self.rows@.skip(ri as int)[0] == self.rows@[ri as int]);
                assert(spec_rows_lines(self.fields@, self.rows@.skip(ri as int), ri as int)
                    == seq!["row "@ + spec_dec(ri as u64) + ":"@] + rowtarget + spec_rows_lines(
                    self.fields@,
                    self.rows@.skip(ri as int).skip(1),
                    ri + 1,
                ));
                assert(self.rows@.skip(ri as int).skip(1) =~= self.rows@.skip(ri + 1));
                assert(lines.deep_view().skip(head2.len() as int) =~~= (before_cols + rowtarget).skip(
                    head2.len() as int,
                ));
                assert(spec_rows_lines(self.fields@, self.rows@, 0) =~~= lines.deep_view().skip(
                    head2.len() as int,
                ) + spec_rows_lines(self.fields@, self.rows@.skip(ri + 1), ri + 1));
                assert(lines.deep_view().subrange(0, head2.len() as int) =~~= head2);
            }
            ri = ri + 1;
        }
        proof {
            assert(spec_rows_lines(self.fields@, self.rows@.skip(nr as int), nr as int) =~~= Seq::<
                Seq<char>,
            >::empty());
            assert(lines.deep_view() =~~= head2 + spec_rows_lines(self.fields@, self.rows@, 0));
        }

        match &self.command_tag {
            Some(t) => {
                let mut s = String::new();
                s.append("command tag: ");
                s.append(t.as_str());
                proof {
                    assert(s@ =~= "command tag: "@ + t@);
                }
                crate::protocol::push_line(&mut lines, s);
            },
            None => {},
        }
        proof {
            assert(lines.deep_view() =~~= spec_report_lines(*self));
        }
        lines
    }
}

} // verus!
