//! Bytes: percent escapes, and what bytes mean as text.
use percent_encoding::percent_decode_str;
use vstd::prelude::*;
use vstd::utf8::*;

verus! {

// ---------------------------------------------------------------------------
// Bytes as text
// ---------------------------------------------------------------------------
/// What `String::from_utf8_lossy` makes of bytes that are not valid UTF-8: the
/// text in which each ill-formed part is replaced by U+FFFD.
pub uninterp spec fn utf8_replaced(bytes: Seq<u8>) -> Seq<char>;

/// The text that bytes stand for, with ill-formed parts replaced.
pub open spec fn lossy(bytes: Seq<u8>) -> Seq<char> {
    if valid_utf8(bytes) {
        decode_utf8(bytes)
    } else {
        utf8_replaced(bytes)
    }
}

/// `String::from_utf8_lossy`, from the standard library: valid UTF-8 is decoded
/// as it stands; of other bytes only the name of the result is known.
#[verifier::external_body]
pub(crate) fn lossy_text(bytes: &[u8]) -> (r: String)
    ensures
        r@ == (if valid_utf8(bytes@) {
            decode_utf8(bytes@)
        } else {
            utf8_replaced(bytes@)
        }),
{
    String::from_utf8_lossy(bytes).into_owned()
}

/// `std::str::from_utf8`, from the standard library: the text that bytes stand
/// for, where they are valid UTF-8.
#[verifier::external_body]
pub(crate) fn strict_text(bytes: &[u8]) -> (r: Option<String>)
    ensures
        match r {
            Some(t) => valid_utf8(bytes@) && t@ == decode_utf8(bytes@),
            None => !valid_utf8(bytes@),
        },
{
    std::str::from_utf8(bytes).ok().map(str::to_string)
}

/// A copy of some bytes.
pub fn copy_bytes(bytes: &[u8]) -> (r: Vec<u8>)
    ensures
        r@ == bytes@,
{
    let mut out: Vec<u8> = Vec::new();
    let mut i: usize = 0;
    while i < bytes.len()
        invariant
            i <= bytes@.len(),
            out@ == bytes@.take(i as int),
        decreases bytes@.len() - i,
    {
        out.push(bytes[i]);
        i = i + 1;
    }
    assert(bytes@.take(bytes@.len() as int) == bytes@);
    out
}

/// The bytes of a text.
pub fn text_bytes(s: &str) -> (r: Vec<u8>)
    ensures
        r@ == encode_utf8(s@),
{
    copy_bytes(s.as_bytes())
}

/// Text that is turned into bytes and read back is unchanged.
pub proof fn law_lossy_reads_text_back(s: Seq<char>)
    ensures
        lossy(encode_utf8(s)) == s,
{
    encode_utf8_valid_utf8(s);
    encode_utf8_decode_utf8(s);
}

// ---------------------------------------------------------------------------
// Percent escapes
// ---------------------------------------------------------------------------
/// The value of a hexadecimal digit given as a byte.
pub open spec fn hex_byte(b: u8) -> Option<u8> {
    if 48 <= b <= 57 {
        Some((b - 48) as u8)
    } else if 97 <= b <= 102 {
        Some((b - 87) as u8)
    } else if 65 <= b <= 70 {
        Some((b - 55) as u8)
    } else {
        None
    }
}

/// Every `%` with two hexadecimal digits behind it replaced by the byte that
/// they name; any other byte stays.
pub open spec fn percent_decoded(b: Seq<u8>) -> Seq<u8>
    decreases b.len(),
{
    if b.len() == 0 {
        Seq::empty()
    } else if b[0] == 0x25 && b.len() >= 3 && hex_byte(b[1]) is Some && hex_byte(b[2]) is Some {
        seq![(hex_byte(b[1])->0 * 16 + hex_byte(b[2])->0) as u8] + percent_decoded(b.skip(3))
    } else {
        seq![b[0]] + percent_decoded(b.skip(1))
    }
}

/// `percent_encoding::percent_decode_str`, collected: the bytes of the text with
/// its percent escapes decoded once.
#[verifier::external_body]
pub(crate) fn percent_decode(s: &str) -> (r: Vec<u8>)
    ensures
        r@ == percent_decoded(encode_utf8(s@)),
{
    percent_decode_str(s).collect()
}

/// Bytes without a percent sign are not changed by decoding.
pub proof fn law_percent_decoded_plain(b: Seq<u8>)
    requires
        !b.contains(0x25),
    ensures
        percent_decoded(b) == b,
    decreases b.len(),
{
    if b.len() > 0 {
        assert(b[0] != 0x25);
        assert(!b.skip(1).contains(0x25)) by {
            if b.skip(1).contains(0x25) {
                let i = choose|i: int| 0 <= i < b.skip(1).len() && b.skip(1)[i] == 0x25;
                assert(b[i + 1] == 0x25);
            }
        }
        law_percent_decoded_plain(b.skip(1));
        assert(seq![b[0]] + b.skip(1) =~= b);
    }
}

/// The bytes of a text without a given ASCII character do not hold it either.
pub proof fn lemma_encoding_keeps_out(s: Seq<char>, c: char)
    requires
        !s.contains(c),
        (c as u32) < 128,
    ensures
        !encode_utf8(s).contains(c as u8),
    decreases s.len(),
{
    reveal_with_fuel(encode_utf8, 2);
    if s.len() > 0 {
        let first = s[0];
        let rest = s.drop_first();
        assert(!rest.contains(c)) by {
            if rest.contains(c) {
                let i = choose|i: int| 0 <= i < rest.len() && rest[i] == c;
                assert(s[i + 1] == c);
            }
        }
        lemma_encoding_keeps_out(rest, c);
        lemma_scalar_keeps_out(first, c);
        let a = encode_scalar(first as u32);
        let b = encode_utf8(rest);
        assert(encode_utf8(s) == a + b);
        assert(!(a + b).contains(c as u8)) by {
            if (a + b).contains(c as u8) {
                let i = choose|i: int| 0 <= i < (a + b).len() && (a + b)[i] == c as u8;
                if i < a.len() {
                    assert(a[i] == c as u8);
                } else {
                    assert(b[i - a.len()] == c as u8);
                }
            }
        }
    }
}

proof fn lemma_scalar_keeps_out(d: char, c: char)
    requires
        c != d,
        (c as u32) < 128,
    ensures
        !encode_scalar(d as u32).contains(c as u8),
{
    let v = d as u32;
    let x = c as u8;
    char_is_scalar(d);
    assert(v < 0x80 ==> (v & 0x7f) as u8 == v as u8) by (bit_vector);
    assert(((0xC0u8 | ((v >> 6) & 0x1F) as u8)) >= 0x80) by (bit_vector);
    assert(((0xE0u8 | ((v >> 12) & 0x0F) as u8)) >= 0x80) by (bit_vector);
    assert(((0xF0u8 | ((v >> 18) & 0x07) as u8)) >= 0x80) by (bit_vector);
    assert(((0x80u8 | (v & 0x3F) as u8)) >= 0x80) by (bit_vector);
    assert(((0x80u8 | ((v >> 6) & 0x3F) as u8)) >= 0x80) by (bit_vector);
    assert(((0x80u8 | ((v >> 12) & 0x3F) as u8)) >= 0x80) by (bit_vector);
    let e = encode_scalar(v);
    assert forall|i: int| 0 <= i < e.len() implies e[i] != x by {
    }
}

/// What stands before an escape and holds none passes as it is, and what follows is
/// decoded as if it stood alone.
pub proof fn law_plain_front_passes(a: Seq<u8>, b: Seq<u8>)
    requires
        !a.contains(0x25),
    ensures
        percent_decoded(a + b) == a + percent_decoded(b),
    decreases a.len(),
{
    if a.len() == 0 {
        assert(a + b =~= b);
        assert(a + percent_decoded(b) =~= percent_decoded(b));
    } else {
        assert(a[0] != 0x25);
        assert(!a.skip(1).contains(0x25)) by {
            if a.skip(1).contains(0x25) {
                let i = a.skip(1).index_of(0x25);
                assert(a[i + 1] == 0x25);
            }
        }
        law_plain_front_passes(a.skip(1), b);
        assert((a + b).skip(1) =~= a.skip(1) + b);
        assert(seq![a[0]] + (a.skip(1) + percent_decoded(b)) =~= a + percent_decoded(b));
    }
}

/// `b` is the digit of `value` in base sixteen, small or capital.
pub open spec fn is_digit_of(b: u8, value: int) -> bool {
    ||| 0 <= value <= 9 && b == 48 + value
    ||| 10 <= value <= 15 && b == 97 + (value - 10)
    ||| 10 <= value <= 15 && b == 65 + (value - 10)
}

/// An escape stands for the byte that its digits spell, whatever follows it.
pub proof fn law_escape_gives_its_byte(high: u8, low: u8, x: int, y: int, rest: Seq<u8>)
    requires
        is_digit_of(high, x),
        is_digit_of(low, y),
    ensures
        percent_decoded(seq![0x25, high, low] + rest) == seq![(16 * x + y) as u8]
            + percent_decoded(rest),
{
    let all = seq![0x25, high, low] + rest;
    assert(all[0] == 0x25 && all[1] == high && all[2] == low);
    assert(all.skip(3) =~= rest);
}

/// A percent sign that two digits do not follow stays, and so does what follows it.
pub proof fn law_stray_percent_stays(rest: Seq<u8>)
    requires
        rest.len() < 2 || (forall|x: int| !is_digit_of(rest[0], x)) || (forall|y: int|
            !is_digit_of(rest[1], y)),
    ensures
        percent_decoded(seq![0x25u8] + rest) == seq![0x25u8] + percent_decoded(rest),
{
    let all = seq![0x25u8] + rest;
    assert(all.skip(1) =~= rest);
    if rest.len() >= 2 {
        assert(all[1] == rest[0] && all[2] == rest[1]);
        if hex_byte(rest[0]) is Some {
            assert(is_digit_of(rest[0], hex_byte(rest[0])->0 as int));
        }
        if hex_byte(rest[1]) is Some {
            assert(is_digit_of(rest[1], hex_byte(rest[1])->0 as int));
        }
    }
}

} // verus!
