//! Percent-encoding of names that travel inside backup file names.
use vstd::prelude::*;
use vstd::string::StringSliceAdditionalSpecFns;
use vstd::utf8::{decode_utf8, encode_utf8, is_ascii_chars, valid_utf8};

verus! {

/// Bytes left as they are: ASCII alphanumerics and `-`, `.`, `_`, `~`.
pub open spec fn url_safe(b: u8) -> bool {
    (0x30 <= b <= 0x39) || (0x41 <= b <= 0x5a) || (0x61 <= b <= 0x7a) || b == 0x2d || b == 0x2e || b
        == 0x5f || b == 0x7e
}

/// Uppercase hexadecimal digit of a nibble.
pub open spec fn hex_digit(n: u8) -> char {
    if n < 10 {
        (0x30 + n) as char
    } else {
        (0x37 + n) as char
    }
}

/// Percent-encoding of a byte sequence: safe bytes as themselves, every other
/// byte as `%` and two uppercase hex digits.
pub open spec fn percent_encode(b: Seq<u8>) -> Seq<char>
    decreases b.len(),
{
    if b.len() == 0 {
        seq![]
    } else {
        let head = if url_safe(b[0]) {
            seq![b[0] as char]
        } else {
            seq!['%', hex_digit(b[0] >> 4), hex_digit(b[0] & 15)]
        };
        head + percent_encode(b.skip(1))
    }
}

/// Value of a hexadecimal digit, either case.
pub open spec fn hex_value(b: u8) -> Option<u8> {
    if 0x30 <= b <= 0x39 {
        Some((b - 0x30) as u8)
    } else if 0x41 <= b <= 0x46 {
        Some((b - 0x37) as u8)
    } else if 0x61 <= b <= 0x66 {
        Some((b - 0x57) as u8)
    } else {
        None
    }
}

/// Percent-decoding of a byte sequence: `%` and two hex digits become that
/// byte; everything else, a stray `%` included, stays as it is.
pub open spec fn percent_decode(b: Seq<u8>) -> Seq<u8>
    decreases b.len(),
{
    if b.len() == 0 {
        seq![]
    } else if b[0] == 0x25 && b.len() >= 3 && hex_value(b[1]) is Some && hex_value(b[2]) is Some {
        seq![((hex_value(b[1])->0 << 4) | hex_value(b[2])->0) as u8] + percent_decode(b.skip(3))
    } else {
        seq![b[0]] + percent_decode(b.skip(1))
    }
}

/// The text a percent-encoded string stands for, or nothing when the decoded
/// bytes are not UTF-8.
pub open spec fn url_decoded(s: Seq<char>) -> Option<Seq<char>> {
    let bytes = percent_decode(encode_utf8(s));
    if valid_utf8(bytes) {
        Some(decode_utf8(bytes))
    } else {
        None
    }
}

/// `urlencoding::encode`: every UTF-8 byte of `s` except alphanumerics and
/// `-`, `_`, `.`, `~` becomes `%` followed by two uppercase hex digits.
#[verifier::external_body]
pub(crate) fn url_encode(s: &str) -> (r: String)
    ensures
        r@ == percent_encode(s.spec_bytes()),
{
    urlencoding::encode(s).into_owned()
}

/// `urlencoding::decode`: percent sequences with two hex digits become their
/// byte, all else is kept, and the bytes are read as UTF-8; `None` when they
/// are not valid UTF-8.
#[verifier::external_body]
pub(crate) fn url_decode(s: &str) -> (r: Option<String>)
    ensures
        match url_decoded(s@) {
            Some(t) => r matches Some(u) && u@ == t,
            None => r is None,
        },
{
    match urlencoding::decode(s) {
        Ok(t) => Some(t.into_owned()),
        Err(_) => None,
    }
}

/// The bytes of an ASCII character sequence.
pub open spec fn ascii_bytes(cs: Seq<char>) -> Seq<u8> {
    Seq::new(cs.len(), |i: int| cs[i] as u8)
}

proof fn lemma_hex_digit(n: u8)
    requires
        n < 16,
    ensures
        (hex_digit(n) as u32) < 0x80,
        hex_value(hex_digit(n) as u8) == Some(n),
        hex_digit(n) as u8 != 0x25,
{
}

proof fn lemma_percent_encode_ascii(b: Seq<u8>)
    ensures
        is_ascii_chars(percent_encode(b)),
    decreases b.len(),
{
    if b.len() > 0 {
        lemma_percent_encode_ascii(b.skip(1));
        let b0 = b[0];
        let hi = b0 >> 4;
        let lo = b0 & 15;
        assert(b0 >> 4 < 16 && b0 & 15 < 16) by (bit_vector);
        lemma_hex_digit(hi);
        lemma_hex_digit(lo);
        let head = if url_safe(b[0]) {
            seq![b[0] as char]
        } else {
            seq!['%', hex_digit(b[0] >> 4), hex_digit(b[0] & 15)]
        };
        assert(percent_encode(b) == head + percent_encode(b.skip(1)));
        assert forall|i: int| 0 <= i < percent_encode(b).len() implies '\0' <= #[trigger] percent_encode(b)[i]
            <= '\u{7f}' by {
            if i >= head.len() {
                assert(percent_encode(b)[i] == percent_encode(b.skip(1))[i - head.len()]);
            }
        }
    }
}

proof fn lemma_decode_of_encode(b: Seq<u8>)
    ensures
        percent_decode(ascii_bytes(percent_encode(b))) == b,
    decreases b.len(),
{
    if b.len() == 0 {
        assert(ascii_bytes(percent_encode(b)) =~= Seq::<u8>::empty());
    } else {
        let b0 = b[0];
        let rest = percent_encode(b.skip(1));
        lemma_decode_of_encode(b.skip(1));
        let hi = b0 >> 4;
        let lo = b0 & 15;
        assert(b0 >> 4 < 16 && b0 & 15 < 16) by (bit_vector);
        lemma_hex_digit(hi);
        lemma_hex_digit(lo);
        if url_safe(b0) {
            let all = seq![b0 as char] + rest;
            assert(percent_encode(b) == all);
            let bytes = ascii_bytes(all);
            assert(bytes[0] == b0);
            assert(bytes.skip(1) =~= ascii_bytes(rest));
            assert(percent_decode(bytes) == seq![b0] + percent_decode(bytes.skip(1)));
            assert(seq![b0] + b.skip(1) =~= b);
        } else {
            let all = seq!['%', hex_digit(hi), hex_digit(lo)] + rest;
            assert(percent_encode(b) == all);
            let bytes = ascii_bytes(all);
            assert(bytes[0] == 0x25);
            assert(bytes[1] == hex_digit(hi) as u8);
            assert(bytes[2] == hex_digit(lo) as u8);
            assert(bytes.skip(3) =~= ascii_bytes(rest));
            assert((((b0 >> 4) << 4) | (b0 & 15)) as u8 == b0) by (bit_vector);
            assert(percent_decode(bytes) == seq![b0] + percent_decode(bytes.skip(3)));
            assert(seq![b0] + b.skip(1) =~= b);
        }
    }
}

/// Percent-decoding undoes percent-encoding: the text a name is encoded to
/// decodes back to that same name.
pub proof fn lemma_url_roundtrip(s: Seq<char>)
    ensures
        url_decoded(percent_encode(encode_utf8(s))) == Some(s),
{
    let b = encode_utf8(s);
    let e = percent_encode(b);
    lemma_percent_encode_ascii(b);
    vstd::utf8::is_ascii_chars_encode_utf8(e);
    assert(encode_utf8(e) =~= ascii_bytes(e));
    lemma_decode_of_encode(b);
    vstd::utf8::encode_utf8_valid_utf8(s);
    vstd::utf8::encode_utf8_decode_utf8(s);
}

} // verus!
