use vstd::prelude::*;

use crate::error::PngError;
use crate::text::push_char;
use vstd::string::StringSliceAdditionalSpecFns;
use vstd::utf8::{
    decode_utf8, encode_utf8, encode_utf8_decode_utf8, is_ascii_chars, is_ascii_chars_encode_utf8,
    pop_first_scalar, valid_utf8,
};

verus! {

/// `b` is an ASCII letter (`A`-`Z` or `a`-`z`).
pub open spec fn is_ascii_letter(b: u8) -> bool {
    (65 <= b && b <= 90) || (97 <= b && b <= 122)
}

/// Bit 5 (value 32) of `b` is set; for an ASCII letter this marks lower case.
pub open spec fn bit5_set(b: u8) -> bool {
    (b / 32) % 2 == 1
}

/// A four-byte PNG chunk type code.
#[derive(Debug, Clone, Copy, Eq)]
pub struct ChunkType {
    chunk_type: [u8; 4],
}

impl View for ChunkType {
    type V = Seq<u8>;

    closed spec fn view(&self) -> Seq<u8> {
        self.chunk_type@
    }
}

/// A chunk type always has exactly four bytes.
pub broadcast proof fn lemma_chunk_type_len(ct: ChunkType)
    ensures
        #[trigger] ct@.len() == 4,
{
}

/// The chunk type made of `bytes` holds only ASCII letters.
pub open spec fn all_letters(bytes: Seq<u8>) -> bool {
    forall|i: int| 0 <= i < bytes.len() ==> #[trigger] is_ascii_letter(bytes[i])
}

/// What `ChunkType::from_str` gives for text whose UTF-8 encoding is `bytes`.
pub open spec fn spec_chunk_type_from_bytes(bytes: Seq<u8>) -> Result<Seq<u8>, PngError> {
    if bytes.len() != 4 {
        Err(PngError::InvalidChunkTypeLength)
    } else if !all_letters(bytes) {
        Err(PngError::InvalidChunkTypeCharacter)
    } else {
        Ok(bytes)
    }
}

/// The text that shows a chunk type: each byte as the character of that code.
pub open spec fn spec_chunk_type_text(bytes: Seq<u8>) -> Seq<char> {
    bytes.map_values(|b: u8| b as char)
}

/// For an ASCII letter, bit 5 is set exactly when the letter is lower case; so
/// a chunk type is critical, public, reserved-bit-valid or unsafe to copy when
/// the matching letter is upper case.
pub proof fn lemma_letter_case(b: u8)
    requires
        is_ascii_letter(b),
    ensures
        bit5_set(b) <==> (97 <= b && b <= 122),
{
}

/// Reading back the text of a chunk type made of ASCII letters gives that
/// chunk type.
pub proof fn lemma_text_reads_back(bytes: Seq<u8>)
    requires
        bytes.len() == 4,
        all_letters(bytes),
    ensures
        spec_chunk_type_from_bytes(encode_utf8(spec_chunk_type_text(bytes))) == Ok::<
            Seq<u8>,
            PngError,
        >(bytes),
{
    let chars = spec_chunk_type_text(bytes);
    assert forall|i: int| 0 <= i < chars.len() implies '\0' <= #[trigger] chars[i] <= '\u{7f}' by {
        assert(is_ascii_letter(bytes[i]));
    }
    assert(is_ascii_chars(chars));
    is_ascii_chars_encode_utf8(chars);
    let enc = encode_utf8(chars);
    assert forall|i: int| 0 <= i < 4 implies enc[i] == bytes[i] by {
        assert(chars[i] as u8 == enc[i]);
        assert(is_ascii_letter(bytes[i]));
    }
    assert(enc =~= bytes);
}

/// Bytes below 128 are valid UTF-8, each encoding the character of its code.
proof fn lemma_ascii_bytes_decode(bytes: Seq<u8>)
    requires
        forall|i: int| 0 <= i < bytes.len() ==> #[trigger] bytes[i] < 128,
    ensures
        valid_utf8(bytes),
        decode_utf8(bytes) == spec_chunk_type_text(bytes),
    decreases bytes.len(),
{
    if bytes.len() > 0 {
        let b = bytes[0];
        assert(b < 128);
        assert(b < 128 ==> (b & 0x7f) == b) by (bit_vector);
        let rest = bytes.drop_first();
        assert(pop_first_scalar(bytes) =~= rest);
        lemma_ascii_bytes_decode(rest);
        assert(decode_utf8(bytes) =~= spec_chunk_type_text(bytes));
    }
}

/// The text of a chunk type read from text is that text.
pub proof fn lemma_from_str_text(text: Seq<char>)
    requires
        spec_chunk_type_from_bytes(encode_utf8(text)) is Ok,
    ensures
        spec_chunk_type_text(spec_chunk_type_from_bytes(encode_utf8(text))->Ok_0) == text,
{
    let bytes = encode_utf8(text);
    assert forall|i: int| 0 <= i < bytes.len() implies #[trigger] bytes[i] < 128 by {
        assert(is_ascii_letter(bytes[i]));
    }
    lemma_ascii_bytes_decode(bytes);
    encode_utf8_decode_utf8(text);
}

/// Tests bit 5 of `b`.
fn has_bit5(b: u8) -> (r: bool)
    ensures
        r == bit5_set(b),
{
    let r = (b & (1u8 << 5u8)) != 0;
    assert(((b & (1u8 << 5u8)) != 0) == ((b / 32) % 2 == 1)) by (bit_vector);
    r
}

/// Tests whether `b` is an ASCII letter.
fn is_letter(b: u8) -> (r: bool)
    ensures
        r == is_ascii_letter(b),
{
    (b >= 65 && b <= 90) || (b >= 97 && b <= 122)
}

impl ChunkType {
    /// The four bytes of the type code.
    pub fn bytes(&self) -> (r: [u8; 4])
        ensures
            r@ == self@,
    {
        self.chunk_type
    }

    /// The type holds only ASCII letters and its reserved bit (bit 5 of the third byte) is clear.
    pub fn is_valid(&self) -> (r: bool)
        ensures
            r == (all_letters(self@) && !bit5_set(self@[2])),
    {
        let mut i: usize = 0;
        while i < 4
            invariant
                i <= 4,
                forall|j: int| 0 <= j < i ==> #[trigger] is_ascii_letter(self@[j]),
            decreases 4 - i,
        {
            if !is_letter(self.chunk_type[i]) {
                return false;
            }
            i = i + 1;
        }
        self.is_reserved_bit_valid()
    }

    /// Bit 5 of the first byte is clear (upper case: the chunk is critical).
    pub fn is_critical(&self) -> (r: bool)
        ensures
            r == !bit5_set(self@[0]),
    {
        !has_bit5(self.chunk_type[0])
    }

    /// Bit 5 of the second byte is clear (upper case: the chunk is public).
    pub fn is_public(&self) -> (r: bool)
        ensures
            r == !bit5_set(self@[1]),
    {
        !has_bit5(self.chunk_type[1])
    }

    /// Bit 5 of the third byte is clear, as the PNG specification requires.
    pub fn is_reserved_bit_valid(&self) -> (r: bool)
        ensures
            r == !bit5_set(self@[2]),
    {
        !has_bit5(self.chunk_type[2])
    }

    /// Bit 5 of the fourth byte is set (lower case: the chunk is safe to copy).
    pub fn is_safe_to_copy(&self) -> (r: bool)
        ensures
            r == bit5_set(self@[3]),
    {
        has_bit5(self.chunk_type[3])
    }

    /// Makes a chunk type of any four bytes; this never fails.
    pub fn try_from(value: [u8; 4]) -> (r: Result<ChunkType, PngError>)
        ensures
            r matches Ok(ct) && ct@ == value@,
    {
        Ok(ChunkType { chunk_type: value })
    }

    /// Reads a chunk type from text of exactly four ASCII letters.
    pub fn from_str(s: &str) -> (r: Result<ChunkType, PngError>)
        ensures
            r matches Ok(ct) ==> spec_chunk_type_from_bytes(s.spec_bytes()) == Ok::<Seq<u8>, PngError>(ct@),
            r matches Err(e) ==> spec_chunk_type_from_bytes(s.spec_bytes()) == Err::<Seq<u8>, PngError>(e),
    {
        let b = s.as_bytes();
        if b.len() != 4 {
            return Err(PngError::InvalidChunkTypeLength);
        }
        let mut i: usize = 0;
        while i < 4
            invariant
                i <= 4,
                b@ == s.spec_bytes(),
                b@.len() == 4,
                forall|j: int| 0 <= j < i ==> #[trigger] is_ascii_letter(b@[j]),
            decreases 4 - i,
        {
            if !is_letter(b[i]) {
                return Err(PngError::InvalidChunkTypeCharacter);
            }
            i = i + 1;
        }
        let code = [b[0], b[1], b[2], b[3]];
        assert(code@ =~= b@);
        Ok(ChunkType { chunk_type: code })
    }

    /// The type code as text: each byte as the character of that code.
    pub fn to_string(&self) -> (r: String)
        ensures
            r@ == spec_chunk_type_text(self@),
    {
        let mut r = String::new();
        let mut i: usize = 0;
        while i < 4
            invariant
                i <= 4,
                self@.len() == 4,
                r@ =~= spec_chunk_type_text(self@.subrange(0, i as int)),
            decreases 4 - i,
        {
            push_char(&mut r, self.chunk_type[i] as char);
            i = i + 1;
            assert(spec_chunk_type_text(self@.subrange(0, i as int)) =~= spec_chunk_type_text(
                self@.subrange(0, i - 1),
            ).push(self@[i - 1] as char));
        }
        assert(self@.subrange(0, 4) =~= self@);
        r
    }
}

impl core::str::FromStr for ChunkType {
    type Err = PngError;

    fn from_str(s: &str) -> (r: Result<ChunkType, PngError>)
        ensures
            r matches Ok(ct) ==> spec_chunk_type_from_bytes(s.spec_bytes()) == Ok::<Seq<u8>, PngError>(ct@),
            r matches Err(e) ==> spec_chunk_type_from_bytes(s.spec_bytes()) == Err::<Seq<u8>, PngError>(e),
    {
        ChunkType::from_str(s)
    }
}

impl TryFrom<[u8; 4]> for ChunkType {
    type Error = PngError;

    fn try_from(value: [u8; 4]) -> Result<ChunkType, PngError> {
        Ok(ChunkType { chunk_type: value })
    }
}

impl vstd::std_specs::convert::TryFromSpecImpl<[u8; 4]> for ChunkType {
    open spec fn obeys_try_from_spec() -> bool {
        true
    }

    closed spec fn try_from_spec(value: [u8; 4]) -> Result<ChunkType, PngError> {
        Ok(ChunkType { chunk_type: value })
    }
}

impl PartialEq for ChunkType {
    fn eq(&self, other: &Self) -> (r: bool) {
        let r = self.chunk_type[0] == other.chunk_type[0] && self.chunk_type[1]
            == other.chunk_type[1] && self.chunk_type[2] == other.chunk_type[2]
            && self.chunk_type[3] == other.chunk_type[3];
        proof {
            if r {
                assert(self@ =~= other@);
            }
        }
        r
    }
}

impl vstd::std_specs::cmp::PartialEqSpecImpl for ChunkType {
    open spec fn obeys_eq_spec() -> bool {
        true
    }

    open spec fn eq_spec(&self, other: &Self) -> bool {
        self@ == other@
    }
}

} // verus!
