use vstd::prelude::*;
use vstd::string::*;
use vstd::utf8::*;
use crate::error::PngError;
use crate::text::{ascii_bytes, ascii_text, lemma_ascii_is_utf8, string_from_utf8};

verus! {

/// ASCII `A`..=`Z`.
pub open spec fn is_upper(b: u8) -> bool {
    65 <= b <= 90
}

/// ASCII `a`..=`z`.
pub open spec fn is_lower(b: u8) -> bool {
    97 <= b <= 122
}

/// An ASCII letter of either case.
pub open spec fn is_letter(b: u8) -> bool {
    is_upper(b) || is_lower(b)
}

/// The bytes that may name a chunk type: exactly four ASCII letters.
pub open spec fn valid_type_bytes(s: Seq<u8>) -> bool {
    s.len() == 4 && is_letter(s[0]) && is_letter(s[1]) && is_letter(s[2]) && is_letter(s[3])
}

/// An ASCII letter of either case, as a character.
pub open spec fn is_letter_char(c: char) -> bool {
    ('A' <= c <= 'Z') || ('a' <= c <= 'z')
}

/// The texts that may name a chunk type: exactly four ASCII letters.
pub open spec fn valid_type_text(s: Seq<char>) -> bool {
    s.len() == 4 && is_letter_char(s[0]) && is_letter_char(s[1]) && is_letter_char(s[2])
        && is_letter_char(s[3])
}

/// Whether a byte is an upper-case ASCII letter.
fn upper(b: u8) -> (r: bool)
    ensures
        r == is_upper(b),
{
    65 <= b && b <= 90
}

/// Whether a byte is a lower-case ASCII letter.
fn lower(b: u8) -> (r: bool)
    ensures
        r == is_lower(b),
{
    97 <= b && b <= 122
}

/// Whether a byte is an ASCII letter.
fn letter(b: u8) -> (r: bool)
    ensures
        r == is_letter(b),
{
    upper(b) || lower(b)
}

/// Whether all four bytes are ASCII letters.
fn all_letters(value: &[u8; 4]) -> (r: bool)
    ensures
        r == valid_type_bytes(value@),
{
    letter(value[0]) && letter(value[1]) && letter(value[2]) && letter(value[3])
}

/// A validated four-letter chunk type. Its view is its four bytes.
#[derive(Debug)]
pub struct ChunkType {
    inner: [u8; 4],
}

impl View for ChunkType {
    type V = Seq<u8>;

    closed spec fn view(&self) -> Seq<u8> {
        self.inner@
    }
}

impl PartialEq for ChunkType {
    /// Two chunk types are equal when their four bytes are.
    fn eq(&self, other: &Self) -> (r: bool) {
        let r = self.inner[0] == other.inner[0] && self.inner[1] == other.inner[1]
            && self.inner[2] == other.inner[2] && self.inner[3] == other.inner[3];
        assert(r ==> self.inner@ =~= other.inner@);
        r
    }
}

impl Eq for ChunkType {

}

impl vstd::std_specs::cmp::PartialEqSpecImpl for ChunkType {
    open spec fn obeys_eq_spec() -> bool {
        true
    }

    open spec fn eq_spec(&self, other: &Self) -> bool {
        self@ == other@
    }
}

impl ChunkType {
    /// The four bytes are ASCII letters.
    #[verifier::type_invariant]
    spec fn inv(self) -> bool {
        valid_type_bytes(self.inner@)
    }

    /// Accepts `value` exactly when all four bytes are ASCII letters.
    pub fn try_from(value: [u8; 4]) -> (r: Result<ChunkType, PngError>)
        ensures
            valid_type_bytes(value@) ==> r is Ok && r->Ok_0@ == value@,
            !valid_type_bytes(value@) ==> r == Err::<ChunkType, PngError>(PngError::ChunkTypeError),
    {
        if all_letters(&value) {
            Ok(ChunkType { inner: value })
        } else {
            Err(PngError::ChunkTypeError)
        }
    }

    /// The four bytes of the type.
    pub fn bytes(&self) -> (r: [u8; 4])
        ensures
            r@ == self@,
            valid_type_bytes(self@),
    {
        proof {
            use_type_invariant(self);
        }
        self.inner
    }

    /// Reads a chunk type from text: accepted exactly when the text is four
    /// ASCII letters, which then become the four bytes.
    pub fn from_str(s: &str) -> (r: Result<ChunkType, PngError>)
        ensures
            valid_type_text(s@) ==> r is Ok && r->Ok_0@ == ascii_bytes(s@),
            !valid_type_text(s@) ==> r == Err::<ChunkType, PngError>(PngError::ChunkTypeError),
    {
        if s.len() != 4 {
            proof {
                if valid_type_text(s@) {
                    is_ascii_chars_encode_utf8(s@);
                }
            }
            return Err(PngError::ChunkTypeError);
        }
        let b = s.as_bytes();
        let arr: [u8; 4] = [b[0], b[1], b[2], b[3]];
        proof {
            assert(arr@ =~= b@);
            if valid_type_text(s@) {
                is_ascii_chars_encode_utf8(s@);
                assert(arr@ =~= ascii_bytes(s@));
                assert(valid_type_bytes(arr@));
            }
            if valid_type_bytes(arr@) {
                lemma_ascii_is_utf8(b@);
                encode_utf8_decode_utf8(s@);
                assert(s@ == ascii_text(b@));
                assert(valid_type_text(s@));
            }
        }
        ChunkType::try_from(arr)
    }

    /// Whether the chunk is critical: the first letter is upper case.
    pub fn is_critical(&self) -> (r: bool)
        ensures
            r == is_upper(self@[0]),
    {
        let first = self.inner[0];
        upper(first)
    }

    /// Whether the chunk is public: the second letter is upper case.
    pub fn is_public(&self) -> (r: bool)
        ensures
            r == is_upper(self@[1]),
    {
        let second = self.inner[1];
        upper(second)
    }

    /// Whether the reserved bit is valid: the third letter is upper case.
    pub fn is_reserved_bit_valid(&self) -> (r: bool)
        ensures
            r == is_upper(self@[2]),
    {
        let third = self.inner[2];
        upper(third)
    }

    /// Whether the chunk is safe to copy: the fourth letter is lower case.
    pub fn is_safe_to_copy(&self) -> (r: bool)
        ensures
            r == is_lower(self@[3]),
    {
        let last = self.inner[3];
        lower(last)
    }

    /// Validity in the narrow sense used here: the reserved bit alone. The
    /// other three property bits play no part.
    pub fn is_valid(&self) -> (r: bool)
        ensures
            r == is_upper(self@[2]),
    {
        self.is_reserved_bit_valid()
    }

    /// The type as a four-character string.
    pub fn to_string(&self) -> (r: String)
        ensures
            r@ == ascii_text(self@),
            valid_type_text(r@),
    {
        proof {
            use_type_invariant(self);
            lemma_ascii_is_utf8(self.inner@);
        }
        let mut v: Vec<u8> = Vec::new();
        v.push(self.inner[0]);
        v.push(self.inner[1]);
        v.push(self.inner[2]);
        v.push(self.inner[3]);
        assert(v@ =~= self.inner@);
        match string_from_utf8(v) {
            Ok(s) => s,
            Err(_) => {
                assert(false);
                String::new()
            },
        }
    }
}

impl TryFrom<[u8; 4]> for ChunkType {
    type Error = PngError;

    fn try_from(value: [u8; 4]) -> (r: Result<Self, PngError>)
        ensures
            valid_type_bytes(value@) ==> r is Ok && r->Ok_0@ == value@,
            !valid_type_bytes(value@) ==> r == Err::<ChunkType, PngError>(PngError::ChunkTypeError),
    {
        if all_letters(&value) {
            Ok(ChunkType { inner: value })
        } else {
            Err(PngError::ChunkTypeError)
        }
    }
}

impl vstd::std_specs::convert::TryFromSpecImpl<[u8; 4]> for ChunkType {
    open spec fn obeys_try_from_spec() -> bool {
        true
    }

    closed spec fn try_from_spec(v: [u8; 4]) -> Result<Self, PngError> {
        if valid_type_bytes(v@) {
            Ok(ChunkType { inner: v })
        } else {
            Err(PngError::ChunkTypeError)
        }
    }
}

impl std::str::FromStr for ChunkType {
    type Err = PngError;

    fn from_str(s: &str) -> (r: Result<Self, PngError>)
        ensures
            valid_type_text(s@) ==> r is Ok && r->Ok_0@ == ascii_bytes(s@),
            !valid_type_text(s@) ==> r == Err::<ChunkType, PngError>(PngError::ChunkTypeError),
    {
        ChunkType::from_str(s)
    }
}

} // verus!
