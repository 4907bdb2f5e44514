//! The four-byte type of a chunk and the properties held in its case bits.

use crate::error::Error;
use crate::text::{
    decimal, decode, lemma_ascii_encoding, lemma_text_of_iff_encoding, push_decimal, text_of,
};
use vstd::prelude::*;
use vstd::std_specs::cmp::PartialEqSpecImpl;
use vstd::std_specs::convert::TryFromSpecImpl;
use vstd::string::StringSliceAdditionalSpecFns;
use vstd::utf8::{char_u32_cast, encode_utf8, is_ascii_chars, is_ascii_chars_encode_utf8};

verus! {

/// Why a text was refused as a chunk type.
#[derive(Debug, Clone, Copy, PartialEq, Eq, Structural)]
pub enum ChunkTypeErr {
    /// The text has four bytes, but one of them is no ASCII letter.
    InvalidChars,
    /// The text does not have four bytes; the field holds its length in bytes.
    ByteLenErr(usize),
}

impl ChunkTypeErr {
    /// The text of the message.
    pub open spec fn message_text(self) -> Seq<char> {
        match self {
            ChunkTypeErr::InvalidChars => "Found some invalid chars"@,
            ChunkTypeErr::ByteLenErr(len) => "Expected string of size 4, got "@ + decimal(len as nat),
        }
    }

    /// A message that says what is wrong.
    pub fn message(&self) -> (s: String)
        ensures
            s@ == self.message_text(),
    {
        match self {
            ChunkTypeErr::InvalidChars => "Found some invalid chars".to_owned(),
            ChunkTypeErr::ByteLenErr(len) => {
                let mut s = "Expected string of size 4, got ".to_owned();
                push_decimal(&mut s, *len as u64);
                s
            },
        }
    }
}

/// A four-byte chunk type. Any four bytes make one; whether they make a valid
/// one is a derived property, see [`ChunkType::is_valid`].
#[derive(Debug, Clone, Copy, Eq)]
pub struct ChunkType {
    bytes: [u8; 4],
}

/// An ASCII letter, upper or lower case.
pub open spec fn is_ascii_letter(b: u8) -> bool {
    (0x41 <= b && b <= 0x5A) || (0x61 <= b && b <= 0x7A)
}

/// Every byte of `bytes` is an ASCII letter.
pub open spec fn all_ascii_letters(bytes: Seq<u8>) -> bool {
    forall|i: int| 0 <= i < bytes.len() ==> is_ascii_letter(#[trigger] bytes[i])
}

/// Bit 5 of a byte, which tells a lower-case letter from an upper-case one.
pub open spec fn case_bit(b: u8) -> bool {
    b & 0x20 != 0
}

/// The chunk type that a text with the UTF-8 bytes `bytes` names: the bytes
/// themselves, if they are four ASCII letters.
pub open spec fn chunk_type_of_text(bytes: Seq<u8>) -> Result<Seq<u8>, Error> {
    if bytes.len() != 4 {
        Err(Error::ChunkType(ChunkTypeErr::ByteLenErr(bytes.len() as usize)))
    } else if !all_ascii_letters(bytes) {
        Err(Error::ChunkType(ChunkTypeErr::InvalidChars))
    } else {
        Ok(bytes)
    }
}

/// A valid chunk type: four ASCII letters, the third of them upper case.
pub open spec fn valid_chunk_type(bytes: Seq<u8>) -> bool {
    bytes.len() == 4 && all_ascii_letters(bytes) && !case_bit(bytes[2])
}

impl View for ChunkType {
    type V = Seq<u8>;

    closed spec fn view(&self) -> Seq<u8> {
        self.bytes@
    }
}

impl PartialEq for ChunkType {
    fn eq(&self, other: &ChunkType) -> (r: bool) {
        let r = self.bytes[0] == other.bytes[0] && self.bytes[1] == other.bytes[1]
            && self.bytes[2] == other.bytes[2] && self.bytes[3] == other.bytes[3];
        assert(r == (self.bytes@ =~= other.bytes@));
        r
    }
}

impl PartialEqSpecImpl for ChunkType {
    open spec fn obeys_eq_spec() -> bool {
        true
    }

    open spec fn eq_spec(&self, other: &ChunkType) -> bool {
        self@ == other@
    }
}

impl TryFrom<[u8; 4]> for ChunkType {
    type Error = Error;

    /// The chunk type made of `bytes`; this never fails.
    fn try_from(bytes: [u8; 4]) -> (r: Result<ChunkType, Error>)
        ensures
            r == Ok::<ChunkType, Error>(ChunkType::made_of(bytes)),
            r matches Ok(t) && t@ == bytes@,
    {
        Ok(ChunkType::from_bytes(bytes))
    }
}

impl TryFromSpecImpl<[u8; 4]> for ChunkType {
    open spec fn obeys_try_from_spec() -> bool {
        true
    }

    open spec fn try_from_spec(bytes: [u8; 4]) -> Result<ChunkType, Error> {
        Ok(ChunkType::made_of(bytes))
    }
}

impl core::str::FromStr for ChunkType {
    type Err = Error;

    /// The chunk type that `s` names, as [`ChunkType::from_text`] gives it.
    fn from_str(s: &str) -> (r: Result<ChunkType, Error>)
        ensures
            match r {
                Ok(t) => chunk_type_of_text(s.spec_bytes()) == Ok::<Seq<u8>, Error>(t@),
                Err(e) => chunk_type_of_text(s.spec_bytes()) == Err::<Seq<u8>, Error>(e),
            },
    {
        ChunkType::from_text(s)
    }
}

fn is_letter(b: u8) -> (r: bool)
    ensures
        r == is_ascii_letter(b),
{
    (65 <= b && b <= 90) || (97 <= b && b <= 122)
}

impl ChunkType {
    /// A chunk type has four bytes.
    pub proof fn lemma_len(self)
        ensures
            self@.len() == 4,
    {
    }

    /// The chunk type made of `bytes`, in specifications.
    pub closed spec fn made_of(bytes: [u8; 4]) -> ChunkType {
        ChunkType { bytes }
    }

    /// The four bytes of the chunk type as an array, in specifications.
    pub closed spec fn array(&self) -> [u8; 4] {
        self.bytes
    }

    /// The chunk type made of `bytes`, stored as they are.
    #[verifier::when_used_as_spec(made_of)]
    pub fn from_bytes(bytes: [u8; 4]) -> (t: ChunkType)
        ensures
            t == ChunkType::made_of(bytes),
            t@ == bytes@,
    {
        ChunkType { bytes }
    }

    /// The chunk type that `s` names. The text must be four ASCII letters.
    pub fn from_text(s: &str) -> (r: Result<ChunkType, Error>)
        ensures
            match r {
                Ok(t) => chunk_type_of_text(s.spec_bytes()) == Ok::<Seq<u8>, Error>(t@),
                Err(e) => chunk_type_of_text(s.spec_bytes()) == Err::<Seq<u8>, Error>(e),
            },
    {
        let b = s.as_bytes();
        if b.len() != 4 {
            return Err(Error::ChunkType(ChunkTypeErr::ByteLenErr(b.len())));
        }
        if !(is_letter(b[0]) && is_letter(b[1]) && is_letter(b[2]) && is_letter(b[3])) {
            return Err(Error::ChunkType(ChunkTypeErr::InvalidChars));
        }
        let t = ChunkType { bytes: [b[0], b[1], b[2], b[3]] };
        assert(t@ =~= b@);
        Ok(t)
    }

    /// The four bytes of the chunk type.
    #[verifier::when_used_as_spec(array)]
    pub fn bytes(&self) -> (b: [u8; 4])
        ensures
            b == self.array(),
            b@ == self@,
    {
        self.bytes
    }

    /// The chunk type as text, if its bytes are UTF-8.
    pub fn to_text(&self) -> (r: Result<String, Error>)
        ensures
            match r {
                Ok(s) => text_of(self@) == Some(s@),
                Err(e) => text_of(self@) is None && e is Utf8,
            },
    {
        decode(self.bytes.as_slice())
    }

    /// Whether the chunk type is four ASCII letters with a valid reserved bit.
    pub fn is_valid(&self) -> (r: bool)
        ensures
            r == valid_chunk_type(self@),
    {
        self.is_reserved_bit_valid() && is_letter(self.bytes[0]) && is_letter(self.bytes[1])
            && is_letter(self.bytes[2]) && is_letter(self.bytes[3])
    }

    /// Whether the chunk is critical: the case bit of the first byte is clear.
    pub fn is_critical(&self) -> (r: bool)
        ensures
            r == !case_bit(self@[0]),
    {
        (self.bytes[0] & 0x20) == 0
    }

    /// Whether the chunk is public: the case bit of the second byte is clear.
    pub fn is_public(&self) -> (r: bool)
        ensures
            r == !case_bit(self@[1]),
    {
        (self.bytes[1] & 0x20) == 0
    }

    /// Whether the reserved bit is valid: the case bit of the third byte is clear.
    pub fn is_reserved_bit_valid(&self) -> (r: bool)
        ensures
            r == !case_bit(self@[2]),
    {
        (self.bytes[2] & 0x20) == 0
    }

    /// Whether the chunk is safe to copy: the case bit of the fourth byte is set.
    pub fn is_safe_to_copy(&self) -> (r: bool)
        ensures
            r == case_bit(self@[3]),
    {
        (self.bytes[3] & 0x20) != 0
    }
}

/// The bytes read from a chunk type are the bytes it was made of.
pub proof fn theorem_bytes_of_from_bytes(bytes: [u8; 4])
    ensures
        ChunkType::from_bytes(bytes).bytes() == bytes,
        ChunkType::from_bytes(bytes)@ == bytes@,
{
}

/// An ASCII letter, as a character.
pub open spec fn is_letter_char(c: char) -> bool {
    ('A' <= c && c <= 'Z') || ('a' <= c && c <= 'z')
}

/// A text names a chunk type exactly when it is four ASCII letters, and the
/// chunk type it names reads as that text again.
pub proof fn theorem_text_round_trip(text: Seq<char>)
    ensures
        chunk_type_of_text(encode_utf8(text)) is Ok <==> text.len() == 4 && forall|i: int|
            0 <= i < 4 ==> is_letter_char(#[trigger] text[i]),
        chunk_type_of_text(encode_utf8(text)) matches Ok(ty) ==> text_of(ty) == Some(text),
{
    let bytes = encode_utf8(text);
    lemma_text_of_iff_encoding(bytes, text);
    if text.len() == 4 && forall|i: int| 0 <= i < 4 ==> is_letter_char(#[trigger] text[i]) {
        assert(is_ascii_chars(text));
        is_ascii_chars_encode_utf8(text);
        assert forall|i: int| 0 <= i < bytes.len() implies is_ascii_letter(#[trigger] bytes[i]) by {
            assert(is_letter_char(text[i]));
            assert(bytes[i] == text[i] as u8);
        }
    }
    if chunk_type_of_text(bytes) is Ok {
        assert forall|i: int| 0 <= i < bytes.len() implies bytes[i] < 0x80 by {
            assert(is_ascii_letter(bytes[i]));
        }
        lemma_ascii_encoding(text);
        is_ascii_chars_encode_utf8(text);
        assert forall|i: int| 0 <= i < 4 implies is_letter_char(#[trigger] text[i]) by {
            assert(is_ascii_letter(bytes[i]));
            assert(bytes[i] == text[i] as u8);
            char_u32_cast(text[i], text[i] as u32);
        }
    }
}

/// In an ASCII letter the case bit is set exactly when the letter is lower
/// case.
pub proof fn theorem_case_bit_of_letter(b: u8)
    requires
        is_ascii_letter(b),
    ensures
        case_bit(b) <==> 0x61 <= b,
{
    assert(((0x41 <= b && b <= 0x5A) || (0x61 <= b && b <= 0x7A)) ==> (b & 0x20 != 0 <==> 0x61
        <= b)) by (bit_vector);
}

} // verus!
