use crate::text::{ascii_text, lemma_ascii_decodes, string_from_utf8};
use vstd::prelude::*;
use vstd::string::StringSliceAdditionalSpecFns;
use vstd::utf8::{decode_utf8, encode_utf8, encode_utf8_decode_utf8, is_ascii_chars, is_ascii_chars_encode_utf8};

verus! {

/// The bit of a type byte that carries its property flag (the ASCII case bit).
pub const PROPERTY_BIT: u8 = 0x20;

/// An ASCII letter, `A`–`Z` or `a`–`z`.
pub open spec fn is_ascii_letter(b: u8) -> bool {
    (65 <= b && b <= 90) || (97 <= b && b <= 122)
}

/// Every byte is an ASCII letter.
pub open spec fn all_letters(bytes: Seq<u8>) -> bool {
    forall|i: int| 0 <= i < bytes.len() ==> is_ascii_letter(#[trigger] bytes[i])
}

/// A legal chunk type code: four ASCII letters.
pub open spec fn is_type_code(bytes: Seq<u8>) -> bool {
    bytes.len() == 4 && all_letters(bytes)
}

/// The outcome of reading the bytes of a text as a type code.
pub open spec fn parse_type_code(b: Seq<u8>) -> Result<Seq<u8>, ChunkTypeError> {
    if b.len() != 4 {
        Err(ChunkTypeError::InvalidNameLength { expected: 4, actual: b.len() as usize })
    } else if !all_letters(b) {
        Err(ChunkTypeError::NotAsciiLetters)
    } else {
        Ok(b)
    }
}

/// The property bit of `b` is clear.
pub open spec fn property_bit_clear(b: u8) -> bool {
    b & PROPERTY_BIT == 0
}

/// A text names a type code exactly when its UTF-8 bytes are the code's
/// bytes: matching by bytes is matching by text.
pub proof fn lemma_text_names_code(code: Seq<u8>, text: Seq<char>)
    requires
        is_type_code(code),
    ensures
        (encode_utf8(text) == code) <==> (text == ascii_text(code)),
{
    lemma_ascii_decodes(code);
    encode_utf8_decode_utf8(text);
    let chars = ascii_text(code);
    assert(is_ascii_chars(chars));
    is_ascii_chars_encode_utf8(chars);
    assert(encode_utf8(chars) =~= code);
    if encode_utf8(text) == code {
        assert(text == decode_utf8(code));
    }
}

/// Why a chunk type code was rejected.
#[derive(Debug, PartialEq, Eq, Structural)]
pub enum ChunkTypeError {
    /// Some byte of the code is not an ASCII letter.
    NotAsciiLetters,
    /// The text of the code is not four bytes long.
    InvalidNameLength { expected: u8, actual: usize },
}

/// The four-letter code that names a chunk's role; the case of each letter
/// carries one property flag.
#[derive(Debug)]
pub struct ChunkType {
    bytes: [u8; 4],
}

impl View for ChunkType {
    type V = Seq<u8>;

    closed spec fn view(&self) -> Seq<u8> {
        self.bytes@
    }
}

impl PartialEq for ChunkType {
    fn eq(&self, other: &ChunkType) -> (r: bool)
        ensures
            r == (self@ == other@),
    {
        let r = self.bytes[0] == other.bytes[0] && self.bytes[1] == other.bytes[1]
            && self.bytes[2] == other.bytes[2] && self.bytes[3] == other.bytes[3];
        assert(r ==> self.bytes@ =~= other.bytes@);
        r
    }
}

impl vstd::std_specs::cmp::PartialEqSpecImpl for ChunkType {
    open spec fn obeys_eq_spec() -> bool {
        true
    }

    open spec fn eq_spec(&self, other: &ChunkType) -> bool {
        self@ == other@
    }
}

impl Eq for ChunkType {}

impl ChunkType {
    #[verifier::type_invariant]
    spec fn letters_only(&self) -> bool {
        all_letters(self.bytes@)
    }

    fn is_letter(b: u8) -> (r: bool)
        ensures
            r == is_ascii_letter(b),
    {
        (65 <= b && b <= 90) || (97 <= b && b <= 122)
    }

    fn bit_is_zero(byte: u8) -> (r: bool)
        ensures
            r == property_bit_clear(byte),
    {
        byte & PROPERTY_BIT == 0
    }

    /// The type code built from four raw bytes; fails unless all are ASCII letters.
    pub fn from_bytes(bytes: [u8; 4]) -> (r: Result<ChunkType, ChunkTypeError>)
        ensures
            r is Ok <==> all_letters(bytes@),
            r matches Ok(t) ==> t@ == bytes@,
            r matches Err(e) ==> e == ChunkTypeError::NotAsciiLetters,
    {
        let mut i: usize = 0;
        while i < 4
            invariant
                0 <= i <= 4,
                forall|j: int| 0 <= j < i ==> is_ascii_letter(#[trigger] bytes@[j]),
            decreases 4 - i,
        {
            if !Self::is_letter(bytes[i]) {
                return Err(ChunkTypeError::NotAsciiLetters);
            }
            i = i + 1;
        }
        Ok(ChunkType { bytes })
    }

    /// The type code written as text; fails unless the text is four bytes
    /// long, all of them ASCII letters.
    pub fn from_text(s: &str) -> (r: Result<ChunkType, ChunkTypeError>)
        ensures
            r is Ok <==> parse_type_code(s.spec_bytes()) is Ok,
            r matches Ok(t) ==> parse_type_code(s.spec_bytes()) == Ok::<Seq<u8>, ChunkTypeError>(t@),
            r matches Err(e) ==> parse_type_code(s.spec_bytes()) == Err::<Seq<u8>, ChunkTypeError>(e),
    {
        let b = s.as_bytes();
        if b.len() != 4 {
            return Err(ChunkTypeError::InvalidNameLength { expected: 4, actual: b.len() });
        }
        let arr: [u8; 4] = [b[0], b[1], b[2], b[3]];
        assert(arr@ =~= b@);
        Self::from_bytes(arr)
    }

    /// The four raw bytes of the code.
    pub fn bytes(&self) -> (r: [u8; 4])
        ensures
            r@ == self@,
            is_type_code(self@),
    {
        proof {
            use_type_invariant(self);
        }
        self.bytes
    }

    /// The code conforms to the current PNG rules: its reserved bit is clear.
    pub fn is_valid(&self) -> (r: bool)
        ensures
            r == property_bit_clear(self@[2]),
    {
        self.is_reserved_bit_valid()
    }

    /// The chunk must be understood by a reader (first letter upper case).
    pub fn is_critical(&self) -> (r: bool)
        ensures
            r == property_bit_clear(self@[0]),
    {
        Self::bit_is_zero(self.bytes[0])
    }

    /// The type is a public one (second letter upper case).
    pub fn is_public(&self) -> (r: bool)
        ensures
            r == property_bit_clear(self@[1]),
    {
        Self::bit_is_zero(self.bytes[1])
    }

    /// The reserved bit is clear (third letter upper case).
    pub fn is_reserved_bit_valid(&self) -> (r: bool)
        ensures
            r == property_bit_clear(self@[2]),
    {
        Self::bit_is_zero(self.bytes[2])
    }

    /// Editors that do not know the chunk may copy it (fourth letter lower case).
    pub fn is_safe_to_copy(&self) -> (r: bool)
        ensures
            r == !property_bit_clear(self@[3]),
    {
        !Self::bit_is_zero(self.bytes[3])
    }

    /// The code as text: its four letters, case kept.
    pub fn to_string(&self) -> (r: String)
        ensures
            r@ == ascii_text(self@),
    {
        proof {
            use_type_invariant(self);
            lemma_ascii_decodes(self.bytes@);
        }
        let v: Vec<u8> = vec![self.bytes[0], self.bytes[1], self.bytes[2], self.bytes[3]];
        assert(v@ =~= self.bytes@);
        match string_from_utf8(v) {
            Ok(s) => s,
            Err(_) => String::new(),
        }
    }
}

} // verus!
