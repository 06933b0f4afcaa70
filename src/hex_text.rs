//! Lowercase hexadecimal text at the text/binary boundary.
use vstd::prelude::*;

verus! {

#[verifier::external_type_specification]
#[verifier::external_body]
pub struct ExFromHexError(hex::FromHexError);

/// A character accepted as a hexadecimal digit, in either case.
pub open spec fn is_hex_digit(c: char) -> bool {
    ('0' <= c && c <= '9') || ('a' <= c && c <= 'f') || ('A' <= c && c <= 'F')
}

/// The value of a hexadecimal digit.
pub open spec fn digit_value(c: char) -> nat {
    if '0' <= c && c <= '9' {
        (c as nat - '0' as nat) as nat
    } else if 'a' <= c && c <= 'f' {
        (c as nat - 'a' as nat + 10) as nat
    } else {
        (c as nat - 'A' as nat + 10) as nat
    }
}

/// The lowercase digit for a value below sixteen.
pub open spec fn lower_digit(n: nat) -> char {
    seq!['0', '1', '2', '3', '4', '5', '6', '7', '8', '9', 'a', 'b', 'c', 'd', 'e', 'f'][n as int]
}

/// Text that decodes to bytes: an even number of hexadecimal digits.
pub open spec fn is_hex_text(s: Seq<char>) -> bool {
    &&& s.len() % 2 == 0
    &&& forall|i: int| 0 <= i < s.len() ==> #[trigger] is_hex_digit(s[i])
}

/// The bytes that hexadecimal text stands for, two digits per byte, high digit first.
pub open spec fn hex_bytes(s: Seq<char>) -> Seq<u8> {
    Seq::new(
        s.len() / 2,
        |i: int| (digit_value(s[2 * i]) * 16 + digit_value(s[2 * i + 1])) as u8,
    )
}

/// The lowercase hexadecimal text of bytes, two digits per byte, no prefix or separator.
pub open spec fn hex_text(b: Seq<u8>) -> Seq<char> {
    Seq::new(
        2 * b.len(),
        |i: int|
            if i % 2 == 0 {
                lower_digit((b[i / 2] / 16) as nat)
            } else {
                lower_digit((b[i / 2] % 16) as nat)
            },
    )
}

/// Relies on hex::encode: lowercase digits, two per byte, high digit first.
#[verifier::external_body]
fn hex_encode(b: &[u8]) -> (r: String)
    ensures
        r@ == hex_text(b@),
{
    hex::encode(b)
}

/// Relies on hex::decode: it accepts exactly an even number of hexadecimal
/// digits of either case (a character outside them, ASCII or not, gives a
/// byte that it refuses) and yields one byte per pair, high digit first.
#[verifier::external_body]
fn hex_decode(s: &str) -> (r: Result<Vec<u8>, hex::FromHexError>)
    ensures
        r is Ok <==> is_hex_text(s@),
        r is Ok ==> r->Ok_0@ == hex_bytes(s@),
{
    hex::decode(s)
}

/// Encodes bytes as lowercase hexadecimal text.
pub fn encode_hex(b: &[u8]) -> (r: String)
    ensures
        r@ == hex_text(b@),
{
    hex_encode(b)
}

/// Decodes hexadecimal text; `None` where the text has an odd number of
/// characters or a character that is not a hexadecimal digit.
pub fn decode_hex(s: &str) -> (r: Option<Vec<u8>>)
    ensures
        r is Some <==> is_hex_text(s@),
        r is Some ==> r->Some_0@ == hex_bytes(s@),
{
    match hex_decode(s) {
        Ok(v) => Some(v),
        Err(_) => None,
    }
}

proof fn lemma_lower_digit(n: nat)
    requires
        n < 16,
    ensures
        is_hex_digit(lower_digit(n)),
        digit_value(lower_digit(n)) == n,
{
    assert(n == 0 || n == 1 || n == 2 || n == 3 || n == 4 || n == 5 || n == 6 || n == 7 || n == 8
        || n == 9 || n == 10 || n == 11 || n == 12 || n == 13 || n == 14 || n == 15);
}

/// Encoding then decoding gives the bytes back: the text of any bytes is
/// well-formed hexadecimal, and it decodes to those bytes.
pub proof fn lemma_hex_round_trip(b: Seq<u8>)
    ensures
        is_hex_text(hex_text(b)),
        hex_bytes(hex_text(b)) == b,
{
    let t = hex_text(b);
    assert forall|i: int| 0 <= i < t.len() implies #[trigger] is_hex_digit(t[i]) by {
        lemma_lower_digit((b[i / 2] / 16) as nat);
        lemma_lower_digit((b[i / 2] % 16) as nat);
    }
    assert forall|j: int| 0 <= j < b.len() implies #[trigger] hex_bytes(t)[j] == b[j] by {
        assert((2 * j) / 2 == j);
        assert((2 * j + 1) / 2 == j);
        lemma_lower_digit((b[j] / 16) as nat);
        lemma_lower_digit((b[j] % 16) as nat);
    }
    assert(hex_bytes(t) =~= b);
}

/// A hexadecimal digit in lowercase; other characters are kept.
pub open spec fn lower_char(c: char) -> char {
    if 'A' <= c && c <= 'F' {
        lower_digit(digit_value(c))
    } else {
        c
    }
}

/// Decoding well-formed hexadecimal text and encoding the bytes again gives
/// the text back, with its digits in lowercase.
pub proof fn lemma_text_round_trip(s: Seq<char>)
    requires
        is_hex_text(s),
    ensures
        hex_text(hex_bytes(s)) == s.map_values(|c: char| lower_char(c)),
{
    let b = hex_bytes(s);
    let t = hex_text(b);
    let l = s.map_values(|c: char| lower_char(c));
    assert forall|i: int| 0 <= i < t.len() implies #[trigger] t[i] == l[i] by {
        let j = i / 2;
        assert(is_hex_digit(s[2 * j]) && is_hex_digit(s[2 * j + 1]));
        let hi = digit_value(s[2 * j]);
        let lo = digit_value(s[2 * j + 1]);
        assert(hi < 16 && lo < 16);
        assert(b[j] == (hi * 16 + lo) as u8);
        assert(b[j] / 16 == hi);
        assert(b[j] % 16 == lo);
        lemma_lower_of_digit(s[i]);
    }
    assert(t =~= l);
}

proof fn lemma_lower_of_digit(c: char)
    requires
        is_hex_digit(c),
    ensures
        lower_char(c) == lower_digit(digit_value(c)),
        digit_value(c) < 16,
{
    assert('0' == 48 as char && 'a' == 97 as char && 'A' == 65 as char);
    let n = digit_value(c);
    assert(n < 16);
    if '0' <= c && c <= '9' {
        assert(c as nat == 48 + n);
    } else if 'a' <= c && c <= 'f' {
        assert(c as nat == 87 + n);
    }
    assert(n == 0 || n == 1 || n == 2 || n == 3 || n == 4 || n == 5 || n == 6 || n == 7 || n == 8
        || n == 9 || n == 10 || n == 11 || n == 12 || n == 13 || n == 14 || n == 15);
}

} // verus!
