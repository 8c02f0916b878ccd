//! Four-letter chunk type codes and the properties carried by their case.

use vstd::prelude::*;
use crate::utils::string_from_utf8;
use vstd::string::{is_ascii, StringSliceAdditionalSpecFns};
use vstd::utf8::{
    encode_utf8, encode_utf8_decode_utf8, encode_utf8_valid_utf8, is_ascii_chars,
    is_ascii_chars_encode_utf8,
};

verus! {

/// Whether `b` is an ASCII letter, `A-Z` or `a-z`.
pub open spec fn is_letter(b: u8) -> bool {
    (65 <= b <= 90) || (97 <= b <= 122)
}

/// Whether `b` is an ASCII upper-case letter.
pub open spec fn is_upper(b: u8) -> bool {
    65 <= b <= 90
}

/// Whether `b` is an ASCII lower-case letter.
pub open spec fn is_lower(b: u8) -> bool {
    97 <= b <= 122
}

/// Whether every byte of `b` is an ASCII letter.
pub open spec fn all_letters(b: Seq<u8>) -> bool {
    forall|i: int| 0 <= i < b.len() ==> is_letter(#[trigger] b[i])
}

/// The first byte of `b` that is not an ASCII letter (0 when there is none).
pub open spec fn first_non_letter(b: Seq<u8>) -> u8
    decreases b.len(),
{
    if b.len() == 0 {
        0
    } else if !is_letter(b[0]) {
        b[0]
    } else {
        first_non_letter(b.drop_first())
    }
}

/// Why a type code was refused.
#[derive(Debug, Clone, Copy, PartialEq, Eq)]
pub enum ChunkTypeError {
    /// The text is not exactly four ASCII bytes.
    Format,
    /// A byte lies outside `A-Z` and `a-z`.
    InvalidByte { byte: u8 },
}

/// The error that building a type code from the bytes `b` reports, if any.
pub open spec fn type_code_error(b: Seq<u8>) -> Option<ChunkTypeError> {
    if all_letters(b) {
        None
    } else {
        Some(ChunkTypeError::InvalidByte { byte: first_non_letter(b) })
    }
}

/// The type code that the text with bytes `b` names, or the error that
/// parsing it reports; `ascii` tells whether the text is pure ASCII.
pub open spec fn type_code_of_text(b: Seq<u8>, ascii: bool) -> Result<Seq<u8>, ChunkTypeError> {
    if b.len() == 4 && ascii {
        match type_code_error(b) {
            None => Ok(b),
            Some(e) => Err(e),
        }
    } else {
        Err(ChunkTypeError::Format)
    }
}

/// The type code that the text `s` names, or the error that parsing it reports.
pub open spec fn parse_type_code(s: &str) -> Result<Seq<u8>, ChunkTypeError> {
    type_code_of_text(s.spec_bytes(), is_ascii(s))
}

/// A chunk type: four bytes whose letter case encodes the chunk's properties.
///
/// The constructors accept letters only; `is_valid` checks that again,
/// together with the reserved bit.
#[derive(Debug, Clone, Copy, PartialEq, Eq)]
pub struct ChunkType {
    pub bytes: [u8; 4],
}

impl ChunkType {
    /// Every byte is an ASCII letter, as the constructors ensure.
    pub open spec fn wf(self) -> bool {
        all_letters(self.bytes@)
    }

    /// Builds a type code from four bytes, refusing the first byte that is
    /// not an ASCII letter.
    pub fn try_from(bytes: [u8; 4]) -> (r: Result<ChunkType, ChunkTypeError>)
        ensures
            match type_code_error(bytes@) {
                None => r == Ok::<ChunkType, ChunkTypeError>(ChunkType { bytes }),
                Some(e) => r == Err::<ChunkType, ChunkTypeError>(e),
            },
    {
        let mut i: usize = 0;
        assert(bytes@.subrange(0, 4) =~= bytes@);
        while i < 4
            invariant
                i <= 4,
                all_letters(bytes@.subrange(0, i as int)),
                first_non_letter(bytes@) == first_non_letter(bytes@.subrange(i as int, 4)),
            decreases 4 - i,
        {
            let byte = bytes[i];
            if !ChunkType::is_valid_byte(byte) {
                proof {
                    assert(!all_letters(bytes@)) by {
                        assert(!is_letter(bytes@[i as int]));
                    }
                }
                return Err(ChunkTypeError::InvalidByte { byte });
            }
            proof {
                let rest = bytes@.subrange(i as int, 4);
                assert(rest.drop_first() =~= bytes@.subrange(i + 1, 4));
                assert forall|j: int| 0 <= j < i + 1 implies is_letter(
                    #[trigger] bytes@.subrange(0, i + 1)[j],
                ) by {
                    if j < i {
                        assert(bytes@.subrange(0, i + 1)[j] == bytes@.subrange(0, i as int)[j]);
                    }
                }
            }
            i = i + 1;
        }
        assert(bytes@.subrange(0, 4) =~= bytes@);
        Ok(ChunkType { bytes })
    }

    /// Parses a type code from text, which must be exactly four ASCII bytes.
    pub fn from_str(s: &str) -> (r: Result<ChunkType, ChunkTypeError>)
        ensures
            match parse_type_code(s) {
                Ok(b) => r matches Ok(t) && t.bytes@ == b,
                Err(e) => r == Err::<ChunkType, ChunkTypeError>(e),
            },
    {
        let bytes = s.as_bytes();
        if bytes.len() == 4 && s.is_ascii() {
            let code: [u8; 4] = [bytes[0], bytes[1], bytes[2], bytes[3]];
            assert(code@ =~= bytes@);
            ChunkType::try_from(code)
        } else {
            Err(ChunkTypeError::Format)
        }
    }

    /// The four bytes of the code.
    pub fn bytes(&self) -> (r: [u8; 4])
        ensures
            r == self.bytes,
    {
        self.bytes
    }

    /// Critical chunks have an upper-case first letter.
    pub fn is_critical(&self) -> (r: bool)
        ensures
            r == is_upper(self.bytes@[0]),
    {
        is_ascii_upper(self.bytes[0])
    }

    /// Public chunks have an upper-case second letter.
    pub fn is_public(&self) -> (r: bool)
        ensures
            r == is_upper(self.bytes@[1]),
    {
        is_ascii_upper(self.bytes[1])
    }

    /// The reserved third letter must be upper case in a conforming stream.
    pub fn is_reserved_bit_valid(&self) -> (r: bool)
        ensures
            r == is_upper(self.bytes@[2]),
    {
        is_ascii_upper(self.bytes[2])
    }

    /// Chunks that are safe to copy have a lower-case fourth letter.
    pub fn is_safe_to_copy(&self) -> (r: bool)
        ensures
            r == is_lower(self.bytes@[3]),
    {
        is_ascii_lower(self.bytes[3])
    }

    /// Whether all four bytes are letters and the reserved bit is valid.
    pub fn is_valid(&self) -> (r: bool)
        ensures
            r == (is_upper(self.bytes@[2]) && all_letters(self.bytes@)),
    {
        let r = self.is_reserved_bit_valid() && ChunkType::is_valid_byte(self.bytes[0])
            && ChunkType::is_valid_byte(self.bytes[1]) && ChunkType::is_valid_byte(self.bytes[2])
            && ChunkType::is_valid_byte(self.bytes[3]);
        proof {
            if !r {
                if is_upper(self.bytes@[2]) {
                    let k: int = if !is_letter(self.bytes@[0]) {
                        0
                    } else if !is_letter(self.bytes@[1]) {
                        1
                    } else if !is_letter(self.bytes@[2]) {
                        2
                    } else {
                        3
                    };
                    assert(!is_letter(self.bytes@[k]));
                }
            }
        }
        r
    }

    /// The code as text, one character per byte.
    pub fn to_string(&self) -> (r: String)
        requires
            self.wf(),
        ensures
            r@ == self.bytes@.map_values(|b: u8| b as char),
    {
        let bytes = vstd::slice::slice_to_vec(self.bytes.as_slice());
        let ghost chars = self.bytes@.map_values(|b: u8| b as char);
        proof {
            assert(is_ascii_chars(chars)) by {
                assert forall|i: int| 0 <= i < chars.len() implies '\0' <= #[trigger] chars[i]
                    <= '\u{7f}' by {
                    assert(is_letter(self.bytes@[i]));
                }
            }
            is_ascii_chars_encode_utf8(chars);
            assert(encode_utf8(chars) =~= bytes@);
            encode_utf8_valid_utf8(chars);
            encode_utf8_decode_utf8(chars);
        }
        match string_from_utf8(bytes) {
            Some(s) => s,
            None => {
                proof {
                    assert(false);
                }
                String::new()
            },
        }
    }

    /// Whether `byte` is an ASCII letter, `A-Z` or `a-z`.
    pub fn is_valid_byte(byte: u8) -> (r: bool)
        ensures
            r == is_letter(byte),
    {
        (byte >= 65 && byte <= 90) || (byte >= 97 && byte <= 122)
    }
}

fn is_ascii_upper(b: u8) -> (r: bool)
    ensures
        r == is_upper(b),
{
    b >= 65 && b <= 90
}

fn is_ascii_lower(b: u8) -> (r: bool)
    ensures
        r == is_lower(b),
{
    b >= 97 && b <= 122
}

} // verus!
