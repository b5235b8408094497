//! The four-letter type code of a PNG chunk.
//!
//! A type code is four ASCII letters. The case of each letter carries one
//! property of the chunk: bit `0x20` of the byte is clear for an upper-case
//! letter and set for a lower-case one.

use crate::text::{
    ascii_string, ascii_text, decimal, decimal_string, is_ascii_bytes, lemma_ascii_text,
    lemma_text_of_bytes,
};
use vstd::prelude::*;
use vstd::slice::slice_to_vec;
use vstd::std_specs::cmp::PartialEqSpecImpl;
use vstd::std_specs::convert::TryFromSpecImpl;
use vstd::string::StringExecFns;
use vstd::utf8::*;

verus! {

/// The bit of a type-code byte that carries a property of the chunk.
pub const PROPERTY_BIT: u8 = 0x20;

/// Why a value is not a chunk type.
#[derive(Debug, Clone, Copy, PartialEq, Eq, Structural)]
pub enum ChunkTypeError {
    /// The text does not take four bytes; the number it takes is given.
    ByteLengthError(usize),
    /// One of the four bytes is not an ASCII letter.
    InvalidCharacter,
}

impl ChunkTypeError {
    /// What the error says, in words.
    pub open spec fn message(self) -> Seq<char> {
        match self {
            ChunkTypeError::ByteLengthError(found) => {
                "Expected 4 bytes but received "@ + decimal(found as nat)
                    + " when creating chunk type"@
            },
            ChunkTypeError::InvalidCharacter => "Input contains one or more invalid characters"@,
        }
    }

    /// What the error says, in words.
    pub fn to_string(&self) -> (text: String)
        ensures
            text@ == self.message(),
    {
        match self {
            ChunkTypeError::ByteLengthError(found) => {
                let mut text = String::from_str("Expected 4 bytes but received ");
                text.append(decimal_string(*found as u64).as_str());
                text.append(" when creating chunk type");
                text
            },
            ChunkTypeError::InvalidCharacter => String::from_str(
                "Input contains one or more invalid characters",
            ),
        }
    }
}

/// A validated chunk type code.
///
/// Its view is the sequence of its four bytes, each of them an ASCII letter.
#[derive(Debug, Clone, Copy, Eq)]
pub struct ChunkType {
    bytes: [u8; 4],
}

/// Whether `b` is an ASCII letter, `A`-`Z` or `a`-`z`.
pub open spec fn is_letter(b: u8) -> bool {
    (65 <= b <= 90) || (97 <= b <= 122)
}

/// Whether `bytes` is a type code: four bytes, each an ASCII letter.
pub open spec fn is_type_code(bytes: Seq<u8>) -> bool {
    &&& bytes.len() == 4
    &&& forall|i: int| 0 <= i < 4 ==> is_letter(#[trigger] bytes[i])
}

/// Whether `c` is an ASCII letter, `A`-`Z` or `a`-`z`.
pub open spec fn is_letter_char(c: char) -> bool {
    ('A' <= c <= 'Z') || ('a' <= c <= 'z')
}

/// Whether `b` is an upper-case ASCII letter.
pub open spec fn is_upper(b: u8) -> bool {
    65 <= b <= 90
}

/// Whether the property bit of `b` is clear.
pub open spec fn bit_clear(b: u8) -> bool {
    b & PROPERTY_BIT == 0
}

impl View for ChunkType {
    type V = Seq<u8>;

    closed spec fn view(&self) -> Seq<u8> {
        self.bytes@
    }
}

impl ChunkType {
    /// Whether the value is a type code. Every value that executable code
    /// holds is one.
    #[verifier::type_invariant]
    pub open spec fn wf(self) -> bool {
        is_type_code(self@)
    }

    /// Tells whether all four bytes are ASCII letters.
    pub fn is_valid_source(bytes: &[u8; 4]) -> (valid: bool)
        ensures
            valid == is_type_code(bytes@),
    {
        let mut i: usize = 0;
        while i < 4
            invariant
                i <= 4,
                forall|j: int| 0 <= j < i ==> is_letter(#[trigger] bytes@[j]),
            decreases 4 - i,
        {
            let b = bytes[i];
            if !((65 <= b && b <= 90) || (97 <= b && b <= 122)) {
                return false;
            }
            i += 1;
        }
        true
    }

    /// The chunk type with the given bytes, or `InvalidCharacter` if one of
    /// them is not an ASCII letter.
    pub fn try_from(bytes: [u8; 4]) -> (r: Result<ChunkType, ChunkTypeError>)
        ensures
            is_type_code(bytes@) ==> r is Ok && r->Ok_0@ == bytes@ && r->Ok_0.wf(),
            !is_type_code(bytes@) ==> r == Err::<ChunkType, ChunkTypeError>(
                ChunkTypeError::InvalidCharacter,
            ),
    {
        if ChunkType::is_valid_source(&bytes) {
            Ok(ChunkType { bytes })
        } else {
            Err(ChunkTypeError::InvalidCharacter)
        }
    }

    /// Reads a chunk type from text.
    ///
    /// The text has to take four bytes, or the answer is `ByteLengthError`
    /// with the number of bytes that it takes; and each byte has to be an
    /// ASCII letter, or the answer is `InvalidCharacter`. The chunk type is
    /// made of those bytes, and spells the text.
    pub fn from_str(s: &str) -> (r: Result<ChunkType, ChunkTypeError>)
        ensures
            parse_code(s@) matches Err(e) ==> r == Err::<ChunkType, ChunkTypeError>(e),
            parse_code(s@) matches Ok(code) ==> r is Ok && r->Ok_0@ == code && r->Ok_0.wf()
                && ascii_text(code) == s@,
    {
        let bytes = s.as_bytes();
        if bytes.len() != 4 {
            return Err(ChunkTypeError::ByteLengthError(bytes.len()));
        }
        let code: [u8; 4] = [bytes[0], bytes[1], bytes[2], bytes[3]];
        assert(code@ =~= bytes@);
        proof {
            if is_type_code(code@) {
                lemma_code_text(code@);
                lemma_ascii_text(code@);
                lemma_text_of_bytes(s@, code@);
            }
        }
        ChunkType::try_from(code)
    }

    /// The four bytes of the type code.
    pub fn bytes(&self) -> (bytes: [u8; 4])
        ensures
            bytes@ == self@,
            is_type_code(bytes@),
    {
        proof {
            use_type_invariant(self);
        }
        self.bytes
    }

    /// Whether the chunk is critical: the property bit of the first byte is
    /// clear, which is to say that the first letter is upper case.
    pub fn is_critical(&self) -> (critical: bool)
        ensures
            critical == bit_clear(self@[0]),
            critical == is_upper(self@[0]),
    {
        proof {
            use_type_invariant(self);
            lemma_bit_of_letter(self.bytes[0]);
        }
        self.bytes[0] & PROPERTY_BIT == 0
    }

    /// Whether the chunk is public: the property bit of the second byte is
    /// clear, which is to say that the second letter is upper case.
    pub fn is_public(&self) -> (public: bool)
        ensures
            public == bit_clear(self@[1]),
            public == is_upper(self@[1]),
    {
        proof {
            use_type_invariant(self);
            lemma_bit_of_letter(self.bytes[1]);
        }
        self.bytes[1] & PROPERTY_BIT == 0
    }

    /// Whether the reserved bit is valid: the property bit of the third byte
    /// is clear, which is to say that the third letter is upper case.
    pub fn is_reserved_bit_valid(&self) -> (valid: bool)
        ensures
            valid == bit_clear(self@[2]),
            valid == is_upper(self@[2]),
    {
        proof {
            use_type_invariant(self);
            lemma_bit_of_letter(self.bytes[2]);
        }
        self.bytes[2] & PROPERTY_BIT == 0
    }

    /// Whether the chunk is safe to copy: the property bit of the fourth
    /// byte is set, which is to say that the fourth letter is lower case.
    pub fn is_safe_to_copy(&self) -> (safe: bool)
        ensures
            safe == !bit_clear(self@[3]),
            safe == !is_upper(self@[3]),
    {
        proof {
            use_type_invariant(self);
            lemma_bit_of_letter(self.bytes[3]);
        }
        self.bytes[3] & PROPERTY_BIT != 0
    }

    /// Whether the type code is valid, which asks no more than that its
    /// reserved bit is valid.
    pub fn is_valid(&self) -> (valid: bool)
        ensures
            valid == bit_clear(self@[2]),
            valid == is_upper(self@[2]),
    {
        self.is_reserved_bit_valid()
    }

    /// The text that spells the type code: four letters, which read as a
    /// chunk type give this one back.
    pub fn to_string(&self) -> (text: String)
        ensures
            text@ == ascii_text(self@),
            parse_code(text@) == Ok::<Seq<u8>, ChunkTypeError>(self@),
    {
        proof {
            use_type_invariant(self);
            lemma_code_text(self@);
        }
        ascii_string(slice_to_vec(self.bytes.as_slice()))
    }
}

impl PartialEq for ChunkType {
    /// Two chunk types are equal where their bytes are.
    fn eq(&self, other: &ChunkType) -> (equal: bool) {
        let equal = self.bytes[0] == other.bytes[0] && self.bytes[1] == other.bytes[1]
            && self.bytes[2] == other.bytes[2] && self.bytes[3] == other.bytes[3];
        assert(equal == (self.bytes@ =~= other.bytes@));
        equal
    }
}

impl PartialEqSpecImpl for ChunkType {
    open spec fn obeys_eq_spec() -> bool {
        true
    }

    open spec fn eq_spec(&self, other: &ChunkType) -> bool {
        self@ == other@
    }
}

impl TryFrom<[u8; 4]> for ChunkType {
    type Error = ChunkTypeError;

    /// Does what [`ChunkType::try_from`] does.
    fn try_from(bytes: [u8; 4]) -> (r: Result<ChunkType, ChunkTypeError>) {
        let r = ChunkType::try_from(bytes);
        proof {
            if r is Ok {
                assert(r->Ok_0.bytes =~= bytes);
            }
        }
        r
    }
}

impl TryFromSpecImpl<[u8; 4]> for ChunkType {
    open spec fn obeys_try_from_spec() -> bool {
        true
    }

    open spec fn try_from_spec(bytes: [u8; 4]) -> Result<ChunkType, ChunkTypeError> {
        converted(bytes)
    }
}

impl std::str::FromStr for ChunkType {
    type Err = ChunkTypeError;

    /// Reads a chunk type from text, as [`ChunkType::from_str`] does: the
    /// answer is what `parse_code` says of the text.
    fn from_str(s: &str) -> (r: Result<ChunkType, ChunkTypeError>)
        ensures
            parse_code(s@) matches Err(e) ==> r == Err::<ChunkType, ChunkTypeError>(e),
            parse_code(s@) matches Ok(code) ==> r is Ok && r->Ok_0@ == code && r->Ok_0.wf()
                && ascii_text(code) == s@,
    {
        ChunkType::from_str(s)
    }
}

/// What four bytes convert to: the chunk type made of them where each is an
/// ASCII letter, and else `InvalidCharacter`.
pub closed spec fn converted(bytes: [u8; 4]) -> Result<ChunkType, ChunkTypeError> {
    if is_type_code(bytes@) {
        Ok(ChunkType { bytes })
    } else {
        Err(ChunkTypeError::InvalidCharacter)
    }
}

/// The chunk type that four letters convert to is made of those letters, and
/// other bytes convert to none.
pub proof fn lemma_converted(bytes: [u8; 4])
    ensures
        is_type_code(bytes@) ==> converted(bytes) is Ok && converted(bytes)->Ok_0@ == bytes@,
        !is_type_code(bytes@) ==> converted(bytes) == Err::<ChunkType, ChunkTypeError>(
            ChunkTypeError::InvalidCharacter,
        ),
{
}

/// Two chunk types with the same bytes are the same.
pub proof fn lemma_same_bytes(a: ChunkType, b: ChunkType)
    requires
        a@ == b@,
    ensures
        a == b,
{
    assert(a.bytes =~= b.bytes);
}

/// What text reads as: the bytes of a type code where the text takes four
/// bytes in UTF-8 and each is an ASCII letter, and else what is wrong.
pub open spec fn parse_code(text: Seq<char>) -> Result<Seq<u8>, ChunkTypeError> {
    let bytes = encode_utf8(text);
    if bytes.len() != 4 {
        Err(ChunkTypeError::ByteLengthError(bytes.len() as usize))
    } else if !is_type_code(bytes) {
        Err(ChunkTypeError::InvalidCharacter)
    } else {
        Ok(bytes)
    }
}

/// In a letter the property bit is clear exactly if the letter is upper case.
pub proof fn lemma_bit_of_letter(b: u8)
    requires
        is_letter(b),
    ensures
        bit_clear(b) == is_upper(b),
{
    assert(((65 <= b <= 90) || (97 <= b <= 122)) ==> ((b & 0x20 == 0) == (65 <= b <= 90)))
        by (bit_vector);
}

/// The text that spells a type code is encoded by the bytes of the code,
/// and it reads as that code.
pub proof fn lemma_code_text(code: Seq<u8>)
    requires
        is_type_code(code),
    ensures
        is_ascii_bytes(code),
        encode_utf8(ascii_text(code)) == code,
        parse_code(ascii_text(code)) == Ok::<Seq<u8>, ChunkTypeError>(code),
{
    assert forall|i: int| 0 <= i < code.len() implies #[trigger] code[i] <= 0x7f by {
        assert(is_letter(code[i]));
    }
    lemma_ascii_text(code);
}

/// Four ASCII letters read as the type code of their four bytes.
pub proof fn lemma_parse_letters(text: Seq<char>)
    requires
        text.len() == 4,
        forall|i: int| 0 <= i < 4 ==> is_letter_char(#[trigger] text[i]),
    ensures
        parse_code(text) == Ok::<Seq<u8>, ChunkTypeError>(Seq::new(4, |i: int| text[i] as u8)),
{
    let code = Seq::new(4, |i: int| text[i] as u8);
    assert forall|i: int| 0 <= i < 4 implies is_letter(#[trigger] code[i]) by {
        assert(is_letter_char(text[i]));
    }
    assert(ascii_text(code) =~= text) by {
        assert forall|i: int| 0 <= i < 4 implies ascii_text(code)[i] == text[i] by {
            assert(is_letter_char(text[i]));
        }
    }
    lemma_code_text(code);
}

} // verus!
