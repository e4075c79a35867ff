//! Verified string-building helpers: decimal and hexadecimal rendering,
//! padding, and character-level string construction.

use vstd::prelude::*;

verus! {

/// Relies on String::push: appends the given character to the end of the string.
#[verifier::external_body]
pub fn push_char(s: &mut String, c: char)
    ensures
        final(s)@ == old(s)@.push(c),
{
    s.push(c);
}

/// The decimal digit character for a value below ten.
pub open spec fn dec_digit(d: u64) -> char {
    if d == 0 {
        '0'
    } else if d == 1 {
        '1'
    } else if d == 2 {
        '2'
    } else if d == 3 {
        '3'
    } else if d == 4 {
        '4'
    } else if d == 5 {
        '5'
    } else if d == 6 {
        '6'
    } else if d == 7 {
        '7'
    } else if d == 8 {
        '8'
    } else {
        '9'
    }
}

/// The usual base-ten rendering of `n`, without leading zeros.
pub open spec fn spec_dec(n: u64) -> Seq<char>
    decreases n,
{
    if n < 10 {
        seq![dec_digit(n)]
    } else {
        spec_dec(n / 10).push(dec_digit(n % 10))
    }
}

fn dec_digit_char(d: u64) -> (c: char)
    requires
        d < 10,
    ensures
        c == dec_digit(d),
{
    if d == 0 {
        '0'
    } else if d == 1 {
        '1'
    } else if d == 2 {
        '2'
    } else if d == 3 {
        '3'
    } else if d == 4 {
        '4'
    } else if d == 5 {
        '5'
    } else if d == 6 {
        '6'
    } else if d == 7 {
        '7'
    } else if d == 8 {
        '8'
    } else {
        '9'
    }
}

/// Renders `n` in decimal.
pub fn u64_to_dec(n: u64) -> (r: String)
    ensures
        r@ == spec_dec(n),
    decreases n,
{
    if n < 10 {
        let mut s = String::new();
        push_char(&mut s, dec_digit_char(n));
        assert(s@ =~= spec_dec(n));
        s
    } else {
        let mut s = u64_to_dec(n / 10);
        push_char(&mut s, dec_digit_char(n % 10));
        s
    }
}

/// The base-ten rendering of a signed value: a minus sign where negative.
pub open spec fn spec_dec_i64(n: i64) -> Seq<char> {
    if n < 0 {
        seq!['-'] + spec_dec((-(n as int)) as u64)
    } else {
        spec_dec(n as u64)
    }
}

/// Renders a signed value in decimal.
pub fn i64_to_dec(n: i64) -> (r: String)
    requires
        n > i64::MIN,
    ensures
        r@ == spec_dec_i64(n),
{
    if n < 0 {
        let mut s = String::new();
        push_char(&mut s, '-');
        let m: u64 = (-n) as u64;
        s.append(u64_to_dec(m).as_str());
        assert(s@ =~= spec_dec_i64(n));
        s
    } else {
        u64_to_dec(n as u64)
    }
}

/// The lower-case hexadecimal digit for a value below sixteen.
pub open spec fn hex_digit(d: u8) -> char {
    if d < 10 {
        dec_digit(d as u64)
    } else if d == 10 {
        'a'
    } else if d == 11 {
        'b'
    } else if d == 12 {
        'c'
    } else if d == 13 {
        'd'
    } else if d == 14 {
        'e'
    } else {
        'f'
    }
}

fn hex_digit_char(d: u8) -> (c: char)
    requires
        d < 16,
    ensures
        c == hex_digit(d),
{
    if d < 10 {
        dec_digit_char(d as u64)
    } else if d == 10 {
        'a'
    } else if d == 11 {
        'b'
    } else if d == 12 {
        'c'
    } else if d == 13 {
        'd'
    } else if d == 14 {
        'e'
    } else {
        'f'
    }
}

/// The two lower-case hex digits of one byte.
pub open spec fn spec_hex_byte(b: u8) -> Seq<char> {
    seq![hex_digit(b / 16), hex_digit(b % 16)]
}

/// Appends the two-digit lower-case hex form of `b` to `s`.
pub fn push_hex_byte(s: &mut String, b: u8)
    ensures
        final(s)@ == old(s)@ + spec_hex_byte(b),
{
    push_char(s, hex_digit_char(b / 16));
    push_char(s, hex_digit_char(b % 16));
    assert(s@ =~= old(s)@ + spec_hex_byte(b));
}

/// The lower-case hex rendering of a byte sequence, two digits a byte.
pub open spec fn spec_hex_bytes(bs: Seq<u8>) -> Seq<char>
    decreases bs.len(),
{
    if bs.len() == 0 {
        Seq::empty()
    } else {
        spec_hex_bytes(bs.drop_last()) + spec_hex_byte(bs.last())
    }
}

/// The hex rendering is two characters a byte.
pub proof fn lemma_hex_bytes_len(bs: Seq<u8>)
    ensures
        spec_hex_bytes(bs).len() == 2 * bs.len(),
    decreases bs.len(),
{
    if bs.len() > 0 {
        lemma_hex_bytes_len(bs.drop_last());
    }
}

/// Appends the hex rendering of every byte of `bs` to `s`.
pub fn push_hex_bytes(s: &mut String, bs: &[u8])
    ensures
        final(s)@ == old(s)@ + spec_hex_bytes(bs@),
{
    let n = bs.len();
    let mut k: usize = 0;
    while k < n
        invariant
            n == bs@.len(),
            k <= n,
            s@ == old(s)@ + spec_hex_bytes(bs@.subrange(0, k as int)),
        decreases n - k,
    {
        push_hex_byte(s, bs[k]);
        proof {
            assert(bs@.subrange(0, k + 1 as int).drop_last() =~= bs@.subrange(0, k as int));
            assert(bs@.subrange(0, k + 1 as int).last() == bs@[k as int]);
        }
        k = k + 1;
    }
    proof {
        assert(bs@.subrange(0, n as int) =~= bs@);
    }
}

/// A sequence of `n` copies of `c`.
pub open spec fn spec_repeat(c: char, n: nat) -> Seq<char> {
    Seq::new(n, |i: int| c)
}

/// Appends `n` copies of `c` to `s`.
pub fn push_repeat(s: &mut String, c: char, n: usize)
    ensures
        final(s)@ == old(s)@ + spec_repeat(c, n as nat),
{
    let mut k: usize = 0;
    while k < n
        invariant
            k <= n,
            s@ == old(s)@ + spec_repeat(c, k as nat),
        decreases n - k,
    {
        push_char(s, c);
        proof {
            assert(old(s)@ + spec_repeat(c, (k + 1) as nat) =~= (old(s)@ + spec_repeat(
                c,
                k as nat,
            )).push(c));
        }
        k = k + 1;
    }
}

/// The views of a sequence of strings, element by element.
pub open spec fn seq_deep(v: Seq<String>) -> Seq<Seq<char>> {
    Seq::new(v.len(), |i: int| v[i]@)
}

/// Pushing a string onto a vector pushes its view onto the views.
pub proof fn lemma_seq_deep_push(v: Seq<String>, x: String)
    ensures
        seq_deep(v.push(x)) =~~= seq_deep(v).push(x@),
{
    assert forall|k: int| 0 <= k < v.len() + 1 implies #[trigger] seq_deep(v.push(x))[k]
        == seq_deep(v).push(x@)[k] by {
        if k < v.len() {
            assert(v.push(x)[k] == v[k]);
        } else {
            assert(v.push(x)[k] == x);
        }
    }
}

/// A vector of strings viewed deeply is the element-wise view.
pub proof fn lemma_deep_view_is_seq_deep(v: &Vec<String>)
    ensures
        v.deep_view() =~~= seq_deep(v@),
{
    assert forall|k: int| 0 <= k < v@.len() implies #[trigger] v.deep_view()[k]
        == seq_deep(v@)[k] by {
    }
}

/// The characters that `String::from_utf8_lossy` yields for a byte
/// sequence: a function of the bytes alone.
pub uninterp spec fn lossy_of(bytes: Seq<u8>) -> Seq<char>;

/// Relies on String::from_utf8_lossy: the result depends only on the
/// bytes; ASCII bytes come through as their own characters, and the result
/// is empty exactly when the input is.
#[verifier::external_body]
pub fn lossy_string(b: &[u8]) -> (r: String)
    ensures
        r@ == lossy_of(b@),
        (forall|i: int| 0 <= i < b@.len() ==> b@[i] < 0x80) ==> r@ == Seq::new(
            b@.len(),
            |i: int| b@[i] as char,
        ),
        r@.len() == 0 <==> b@.len() == 0,
{
    String::from_utf8_lossy(b).to_string()
}

/// Relies on std::str::from_utf8: it succeeds exactly on valid UTF-8 and
/// decodes it.
#[verifier::external_body]
pub fn utf8_string(b: &[u8]) -> (r: Option<String>)
    ensures
        r is Some <==> vstd::utf8::valid_utf8(b@),
        r matches Some(s) ==> s@ == vstd::utf8::decode_utf8(b@),
{
    match std::str::from_utf8(b) {
        Ok(s) => Some(s.to_string()),
        Err(_) => None,
    }
}

/// `parts` joined by `sep`.
pub open spec fn spec_join(parts: Seq<Seq<char>>, sep: Seq<char>) -> Seq<char>
    decreases parts.len(),
{
    if parts.len() == 0 {
        Seq::empty()
    } else if parts.len() == 1 {
        parts[0]
    } else {
        parts[0] + sep + spec_join(parts.skip(1), sep)
    }
}

/// Joins rendered cells with a separator string.
pub fn join_cells(cells: Vec<String>, sep: &str) -> (r: String)
    ensures
        r@ == spec_join(cells.deep_view(), sep@),
{
    let mut out = String::new();
    let n = cells.len();
    let mut i: usize = 0;
    while i < n
        invariant
            n == cells.len(),
            i <= n,
            out@ == spec_join(cells.deep_view().subrange(0, i as int), sep@) + if i < n && i > 0 {
                sep@
            } else {
                Seq::<char>::empty()
            },
        decreases n - i,
    {
        out.append(cells[i].as_str());
        if i + 1 < n {
            out.append(sep);
        }
        proof {
            lemma_join_snoc(cells.deep_view().subrange(0, i + 1), sep@);
            assert(cells.deep_view().subrange(0, i + 1).drop_last() =~= cells.deep_view().subrange(
                0,
                i as int,
            ));
            assert(cells.deep_view().subrange(0, i + 1).last() == cells.deep_view()[i as int]);
            if i + 1 < n {
                assert(out@ =~= spec_join(cells.deep_view().subrange(0, i + 1), sep@) + sep@);
            } else {
                assert(out@ =~= spec_join(cells.deep_view().subrange(0, i + 1), sep@));
            }
        }
        i = i + 1;
    }
    proof {
        assert(cells.deep_view().subrange(0, n as int) =~~= cells.deep_view());
    }
    out
}

pub proof fn lemma_join_snoc(parts: Seq<Seq<char>>, sep: Seq<char>)
    requires
        parts.len() >= 1,
    ensures
        spec_join(parts, sep) == if parts.len() == 1 {
            parts[0]
        } else {
            spec_join(parts.drop_last(), sep) + sep + parts.last()
        },
    decreases parts.len(),
{
    reveal_with_fuel(spec_join, 3);
    if parts.len() == 1 {
    } else if parts.len() == 2 {
        assert(parts.skip(1) =~= seq![parts[1]]);
        assert(parts.drop_last() =~= seq![parts[0]]);
        assert(spec_join(parts, sep) == parts[0] + sep + parts[1]);
    } else {
        lemma_join_snoc(parts.skip(1), sep);
        assert(parts.skip(1).drop_last() =~= parts.drop_last().skip(1));
        assert(parts.skip(1).last() == parts.last());
        assert(parts.drop_last()[0] == parts[0]);
        assert(spec_join(parts.drop_last(), sep) == parts[0] + sep + spec_join(
            parts.drop_last().skip(1),
            sep,
        ));
        assert(parts[0] + sep + (spec_join(parts.skip(1).drop_last(), sep) + sep + parts.last())
            =~= (parts[0] + sep + spec_join(parts.drop_last().skip(1), sep)) + sep + parts.last());
    }
}

} // verus!
