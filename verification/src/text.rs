//! Bytes as text: what the library takes from `std` to read UTF-8, the text
//! of ASCII bytes, and numbers in decimal digits.

use vstd::prelude::*;
use vstd::utf8::*;

verus! {

/// Why bytes are not text.
#[derive(Debug, Clone, Copy, PartialEq, Eq, Structural)]
pub enum TextError {
    /// The bytes are not valid UTF-8.
    InvalidUtf8,
}

/// The error of `String::from_utf8`. Nothing is known of what it holds.
#[verifier::external_type_specification]
#[verifier::external_body]
pub struct ExFromUtf8Error(std::string::FromUtf8Error);

/// `String::from_utf8` succeeds exactly on valid UTF-8, and the string that
/// it returns is made of the bytes that it was given.
pub assume_specification[ String::from_utf8 ](bytes: Vec<u8>) -> (r: Result<
    String,
    std::string::FromUtf8Error,
>)
    ensures
        r is Ok <==> valid_utf8(bytes@),
        r matches Ok(text) ==> encode_utf8(text@) == bytes@,
;

/// What is left of `text` when the white space at its start and at its end
/// is taken away, as `str::trim` does it.
pub uninterp spec fn trimmed(text: Seq<char>) -> Seq<char>;

/// `str::trim` returns the text without the white space at its start and at
/// its end. What counts as white space is left to `std`: the contract only
/// gives the result its name.
pub assume_specification[ str::trim ](text: &str) -> (r: &str)
    ensures
        r@ == trimmed(text@),
;

/// The text that ASCII bytes spell: one character for each byte.
pub open spec fn ascii_text(bytes: Seq<u8>) -> Seq<char> {
    Seq::new(bytes.len(), |i: int| bytes[i] as char)
}

/// Whether every byte of `bytes` is an ASCII character.
pub open spec fn is_ascii_bytes(bytes: Seq<u8>) -> bool {
    forall|i: int| 0 <= i < bytes.len() ==> #[trigger] bytes[i] <= 0x7f
}

/// The decimal digits of `n` in ASCII, without leading zeros.
pub open spec fn decimal_bytes(n: nat) -> Seq<u8>
    decreases n,
{
    if n < 10 {
        seq![(48 + n) as u8]
    } else {
        decimal_bytes(n / 10).push((48 + n % 10) as u8)
    }
}

/// The text of `n` in decimal digits, without leading zeros.
pub open spec fn decimal(n: nat) -> Seq<char> {
    ascii_text(decimal_bytes(n))
}

/// A text is what its UTF-8 encoding decodes to.
pub proof fn lemma_text_of_bytes(text: Seq<char>, bytes: Seq<u8>)
    requires
        encode_utf8(text) == bytes,
    ensures
        valid_utf8(bytes),
        decode_utf8(bytes) == text,
{
    encode_utf8_valid_utf8(text);
    encode_utf8_decode_utf8(text);
}

/// ASCII bytes are the UTF-8 encoding of the text that they spell, and of
/// no other text.
pub proof fn lemma_ascii_text(bytes: Seq<u8>)
    requires
        is_ascii_bytes(bytes),
    ensures
        encode_utf8(ascii_text(bytes)) == bytes,
        valid_utf8(bytes),
        decode_utf8(bytes) == ascii_text(bytes),
{
    let text = ascii_text(bytes);
    assert forall|i: int| 0 <= i < text.len() implies '\0' <= #[trigger] text[i] <= '\u{7f}' by {
        assert(bytes[i] <= 0x7f);
    }
    is_ascii_chars_encode_utf8(text);
    assert(encode_utf8(text) =~= bytes) by {
        assert forall|i: int| 0 <= i < bytes.len() implies encode_utf8(text)[i] == bytes[i] by {
            assert(bytes[i] <= 0x7f);
            assert(text[i] as u8 == bytes[i]);
        }
    }
    lemma_text_of_bytes(text, bytes);
}

/// Decimal digits are ASCII bytes.
pub proof fn lemma_decimal_is_ascii(n: nat)
    ensures
        is_ascii_bytes(decimal_bytes(n)),
        decimal_bytes(n).len() > 0,
    decreases n,
{
    if n >= 10 {
        lemma_decimal_is_ascii(n / 10);
    }
}

/// The text that `bytes` encode in UTF-8, or `InvalidUtf8` where they encode
/// none.
pub fn text_of(bytes: Vec<u8>) -> (r: Result<String, TextError>)
    ensures
        valid_utf8(bytes@) ==> r is Ok && r->Ok_0@ == decode_utf8(bytes@),
        !valid_utf8(bytes@) ==> r == Err::<String, TextError>(TextError::InvalidUtf8),
{
    match String::from_utf8(bytes) {
        Ok(text) => {
            proof {
                lemma_text_of_bytes(text@, bytes@);
            }
            Ok(text)
        },
        Err(_) => Err(TextError::InvalidUtf8),
    }
}

/// The string that ASCII bytes spell.
pub fn ascii_string(bytes: Vec<u8>) -> (text: String)
    requires
        is_ascii_bytes(bytes@),
    ensures
        text@ == ascii_text(bytes@),
{
    proof {
        lemma_ascii_text(bytes@);
    }
    text_of(bytes).unwrap()
}

/// The text of `x` in decimal digits.
pub fn decimal_string(x: u64) -> (text: String)
    ensures
        text@ == decimal(x as nat),
{
    let mut digits: Vec<u8> = Vec::new();
    digits.push(48 + (x % 10) as u8);
    let mut rest: u64 = x / 10;
    assert(digits@ =~= seq![(48 + x as nat % 10) as u8]);
    while rest > 0
        invariant
            decimal_bytes(x as nat) == if rest == 0 {
                digits@
            } else {
                decimal_bytes(rest as nat) + digits@
            },
        decreases rest,
    {
        let ghost before = digits@;
        let ghost high = rest as nat;
        digits.insert(0, 48 + (rest % 10) as u8);
        rest = rest / 10;
        assert(digits@ =~= seq![(48 + high % 10) as u8] + before);
        assert(decimal_bytes(high) + before =~= if rest == 0 {
            digits@
        } else {
            decimal_bytes(rest as nat) + digits@
        });
    }
    proof {
        lemma_decimal_is_ascii(x as nat);
    }
    ascii_string(digits)
}

} // verus!
