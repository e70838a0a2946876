use vstd::prelude::*;
use vstd::utf8::*;

verus! {

/// `std::string::FromUtf8Error`, the error of `String::from_utf8`. Nothing
/// is said of what it holds.
#[verifier::external_type_specification]
#[verifier::external_body]
pub struct ExFromUtf8Error(std::string::FromUtf8Error);

/// The characters that stand for a run of ASCII bytes, one for one.
pub open spec fn ascii_text(bytes: Seq<u8>) -> Seq<char> {
    Seq::new(bytes.len(), |i: int| bytes[i] as char)
}

/// The bytes that stand for a run of ASCII characters, one for one.
pub open spec fn ascii_bytes(text: Seq<char>) -> Seq<u8> {
    Seq::new(text.len(), |i: int| text[i] as u8)
}

/// Calls `String::from_utf8`. Trusted: it succeeds exactly on valid UTF-8,
/// and the string it then returns holds the characters that the bytes encode.
#[verifier::external_body]
pub(crate) fn string_from_utf8(bytes: Vec<u8>) -> (r: Result<String, std::string::FromUtf8Error>)
    ensures
        r is Ok <==> valid_utf8(bytes@),
        r is Ok ==> r->Ok_0@ == decode_utf8(bytes@),
{
    String::from_utf8(bytes)
}

/// What lossy decoding makes of a byte sequence: its text where it is valid
/// UTF-8, else its valid parts with U+FFFD in place of each invalid one.
/// It is left uninterpreted but for valid input.
pub uninterp spec fn utf8_lossy(bytes: Seq<u8>) -> Seq<char>;

/// Calls `String::from_utf8_lossy`. Trusted: the result depends on the bytes
/// alone, and on valid UTF-8 it is the text that the bytes encode.
#[verifier::external_body]
pub(crate) fn string_from_utf8_lossy(bytes: &[u8]) -> (r: String)
    ensures
        r@ == utf8_lossy(bytes@),
        valid_utf8(bytes@) ==> r@ == decode_utf8(bytes@),
{
    String::from_utf8_lossy(bytes).into_owned()
}

/// The decimal digits of `n` as ASCII bytes, without leading zeros.
pub open spec fn decimal_digits(n: nat) -> Seq<u8>
    decreases n,
{
    if n < 10 {
        seq![(48 + n) as u8]
    } else {
        decimal_digits(n / 10).push((48 + n % 10) as u8)
    }
}

/// `n` written in decimal.
pub open spec fn decimal_text(n: nat) -> Seq<char> {
    ascii_text(decimal_digits(n))
}

/// Decimal digits are ASCII.
pub proof fn lemma_decimal_digits_ascii(n: nat)
    ensures
        decimal_digits(n).len() > 0,
        forall|i: int| 0 <= i < decimal_digits(n).len() ==> 48 <= #[trigger] decimal_digits(n)[i] <= 57,
    decreases n,
{
    if n >= 10 {
        lemma_decimal_digits_ascii(n / 10);
    }
}

/// Appends the decimal digits of `n` to `out`.
fn push_decimal(out: &mut Vec<u8>, n: u32)
    ensures
        final(out)@ == old(out)@ + decimal_digits(n as nat),
    decreases n,
{
    if n >= 10 {
        push_decimal(out, n / 10);
    }
    let digit: u8 = 48 + (n % 10) as u8;
    out.push(digit);
    assert(out@ =~= old(out)@ + decimal_digits(n as nat));
}

/// `n` written in decimal.
pub fn decimal_string(n: u32) -> (r: String)
    ensures
        r@ == decimal_text(n as nat),
{
    let mut digits: Vec<u8> = Vec::new();
    push_decimal(&mut digits, n);
    proof {
        assert(digits@ =~= decimal_digits(n as nat));
        lemma_decimal_digits_ascii(n as nat);
        lemma_ascii_is_utf8(digits@);
    }
    match string_from_utf8(digits) {
        Ok(s) => s,
        Err(_) => {
            assert(false);
            String::new()
        },
    }
}

/// Bytes below 128 are valid UTF-8 and decode to themselves.
pub proof fn lemma_ascii_is_utf8(bytes: Seq<u8>)
    requires
        forall|i: int| 0 <= i < bytes.len() ==> #[trigger] bytes[i] < 128,
    ensures
        valid_utf8(bytes),
        decode_utf8(bytes) == ascii_text(bytes),
{
    let chars = ascii_text(bytes);
    assert(is_ascii_chars(chars)) by {
        assert forall|i: int| 0 <= i < chars.len() implies '\0' <= #[trigger] chars[i]
            <= '\u{7f}' by {
            assert(bytes[i] < 128);
        }
    }
    is_ascii_chars_encode_utf8(chars);
    assert(encode_utf8(chars) =~= bytes) by {
        assert forall|i: int| 0 <= i < bytes.len() implies encode_utf8(chars)[i] == bytes[i] by {
            assert(chars[i] as u8 == encode_utf8(chars)[i]);
            assert(bytes[i] < 128);
        }
    }
    encode_utf8_valid_utf8(chars);
    encode_utf8_decode_utf8(chars);
}

} // verus!
