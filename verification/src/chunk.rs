use vstd::prelude::*;

use crate::bytes::{
    be_bytes, be_value, bytes_to_vec, extend_bytes, lemma_be_value_of_bytes, u32_from_be_bytes,
    u32_to_be_bytes,
};
use crate::checksum::{crc32, crc32_iso_hdlc};
use crate::chunk_type::{lemma_chunk_type_len, spec_chunk_type_text, ChunkType};
use crate::error::PngError;
use crate::text::{decimal_text, push_decimal, push_str, string_from_utf8};
use vstd::utf8::{decode_utf8, valid_utf8};

verus! {

broadcast use lemma_chunk_type_len;

/// What a chunk holds, as mathematical values.
pub struct ChunkModel {
    /// The length field as stored.
    pub length: u32,
    /// The four bytes of the type code.
    pub chunk_type: Seq<u8>,
    /// The data bytes.
    pub data: Seq<u8>,
    /// The CRC field as stored.
    pub crc: u32,
}

/// A PNG chunk: length, type, data and CRC.
#[derive(Debug)]
pub struct Chunk {
    length: u32,
    chunk_type: ChunkType,
    data: Vec<u8>,
    crc: u32,
}

impl View for Chunk {
    type V = ChunkModel;

    closed spec fn view(&self) -> ChunkModel {
        ChunkModel {
            length: self.length,
            chunk_type: self.chunk_type@,
            data: self.data@,
            crc: self.crc,
        }
    }
}

/// The CRC that a chunk of this type and data carries: the CRC of the type
/// bytes followed by the data bytes.
pub open spec fn spec_chunk_crc(chunk_type: Seq<u8>, data: Seq<u8>) -> u32 {
    crc32_iso_hdlc(chunk_type + data)
}

/// The bytes of a chunk in the file: length and CRC in big-endian order
/// around the type and the data.
pub open spec fn spec_chunk_bytes(c: ChunkModel) -> Seq<u8> {
    be_bytes(c.length) + c.chunk_type + c.data + be_bytes(c.crc)
}

/// The chunk that `Chunk::new` makes of a type and data.
pub open spec fn spec_new_chunk(chunk_type: Seq<u8>, data: Seq<u8>) -> ChunkModel {
    ChunkModel {
        length: data.len() as u32,
        chunk_type: chunk_type,
        data: data,
        crc: spec_chunk_crc(chunk_type, data),
    }
}

/// The length field counts the data and the CRC field is the CRC of type and data.
pub open spec fn is_consistent(c: ChunkModel) -> bool {
    &&& c.chunk_type.len() == 4
    &&& c.length as int == c.data.len()
    &&& c.crc == spec_chunk_crc(c.chunk_type, c.data)
}

/// The fields read from the start of `s`: the length, the type, as many data
/// bytes as the length says and the CRC; bytes after them are not read.
pub open spec fn spec_read_fields(s: Seq<u8>) -> Result<ChunkModel, PngError> {
    if s.len() < 8 {
        Err(PngError::UnexpectedEof)
    } else {
        let length = be_value(s);
        if s.len() < 12 + length {
            Err(PngError::UnexpectedEof)
        } else {
            Ok(
                ChunkModel {
                    length: length,
                    chunk_type: s.subrange(4, 8),
                    data: s.subrange(8, 8 + length),
                    crc: be_value(s.subrange(8 + length, 12 + length)),
                },
            )
        }
    }
}

/// Accepts the fields `m` when `computed` equals the CRC they carry.
pub open spec fn spec_check_crc(m: ChunkModel, computed: u32) -> Result<ChunkModel, PngError> {
    if computed == m.crc {
        Ok(m)
    } else {
        Err(PngError::CrcMismatch)
    }
}

/// What `Chunk::try_from` gives for the bytes `s`.
#[verifier::opaque]
pub open spec fn spec_parse_chunk(s: Seq<u8>) -> Result<ChunkModel, PngError> {
    match spec_read_fields(s) {
        Ok(m) => spec_check_crc(m, spec_chunk_crc(m.chunk_type, m.data)),
        Err(e) => Err(e),
    }
}

/// A chunk made by `Chunk::new` is consistent when its data's length fits the
/// length field.
pub proof fn lemma_new_chunk_consistent(chunk_type: Seq<u8>, data: Seq<u8>)
    requires
        chunk_type.len() == 4,
        data.len() <= u32::MAX,
    ensures
        is_consistent(spec_new_chunk(chunk_type, data)),
{
}

/// Reading the bytes of a consistent chunk, whatever follows them, gives the
/// chunk back.
pub proof fn lemma_parse_chunk_bytes(c: ChunkModel, rest: Seq<u8>)
    requires
        is_consistent(c),
    ensures
        spec_parse_chunk(spec_chunk_bytes(c) + rest) == Ok::<ChunkModel, PngError>(c),
{
    reveal(spec_parse_chunk);
    let s = spec_chunk_bytes(c) + rest;
    let n = c.length as int;
    lemma_be_value_of_bytes(c.length);
    lemma_be_value_of_bytes(c.crc);
    assert(s.len() == 12 + n + rest.len());
    assert(s.subrange(0, 4) =~= be_bytes(c.length));
    assert(be_value(s) == be_value(be_bytes(c.length)));
    assert(s.subrange(4, 8) =~= c.chunk_type);
    assert(s.subrange(8, 8 + n) =~= c.data);
    assert(s.subrange(8 + n, 12 + n) =~= be_bytes(c.crc));
}

/// A chunk made by `Chunk::new`, written out and read again, comes back the
/// same, when its data's length fits the length field.
pub proof fn lemma_new_chunk_reads_back(chunk_type: Seq<u8>, data: Seq<u8>)
    requires
        chunk_type.len() == 4,
        data.len() <= u32::MAX,
    ensures
        spec_parse_chunk(spec_chunk_bytes(spec_new_chunk(chunk_type, data))) == Ok::<
            ChunkModel,
            PngError,
        >(spec_new_chunk(chunk_type, data)),
{
    let c = spec_new_chunk(chunk_type, data);
    lemma_new_chunk_consistent(chunk_type, data);
    lemma_parse_chunk_bytes(c, Seq::empty());
    assert(spec_chunk_bytes(c) + Seq::<u8>::empty() =~= spec_chunk_bytes(c));
}

/// A chunk that was read is consistent, and the bytes it was read from start
/// with its bytes.
pub proof fn lemma_chunk_bytes_of_parse(s: Seq<u8>)
    requires
        spec_parse_chunk(s) is Ok,
    ensures
        ({
            let c = spec_parse_chunk(s)->Ok_0;
            &&& is_consistent(c)
            &&& 12 + c.length <= s.len()
            &&& s.subrange(0, 12 + c.length) == spec_chunk_bytes(c)
        }),
{
    reveal(spec_parse_chunk);
    let c = spec_parse_chunk(s)->Ok_0;
    let n = c.length as int;
    crate::bytes::lemma_be_bytes_of_value(s.subrange(0, 4));
    crate::bytes::lemma_be_bytes_of_value(s.subrange(8 + n, 12 + n));
    assert(be_value(s.subrange(0, 4)) == be_value(s));
    assert(s.subrange(0, 12 + n) =~= spec_chunk_bytes(c));
}

/// The data of a chunk read as UTF-8 text.
pub open spec fn spec_data_text(c: ChunkModel) -> Result<Seq<char>, PngError> {
    if valid_utf8(c.data) {
        Ok(decode_utf8(c.data))
    } else {
        Err(PngError::InvalidUtf8)
    }
}

/// The text that describes a chunk: its type, its length, its data as text
/// (or, when the data is not UTF-8, how many bytes it has) and its CRC, one
/// per line.
pub open spec fn spec_chunk_text(c: ChunkModel) -> Seq<char> {
    "Chunk Type: "@ + spec_chunk_type_text(c.chunk_type) + "\n"@ + "Length: "@ + decimal_text(
        c.length as nat,
    ) + "\n"@ + match spec_data_text(c) {
        Ok(text) => "Data: "@ + text + "\n"@,
        Err(_) => "[Binary data - "@ + decimal_text(c.data.len()) + " bytes]\n"@,
    } + "CRC : "@ + decimal_text(c.crc as nat) + "\n"@
}

/// A chunk made of a type and data holds exactly that type and that data,
/// whatever the data is; its length field is the data's length (modulo 2^32)
/// and its CRC is the CRC of the type bytes followed by the data bytes.
pub proof fn lemma_new_chunk_fields(chunk_type: Seq<u8>, data: Seq<u8>)
    ensures
        spec_new_chunk(chunk_type, data).chunk_type == chunk_type,
        spec_new_chunk(chunk_type, data).data == data,
        spec_new_chunk(chunk_type, data).length == data.len() as u32,
        spec_new_chunk(chunk_type, data).crc == crc32_iso_hdlc(chunk_type + data),
{
}

/// A chunk's data reads as text exactly when it is valid UTF-8, and then as
/// the characters it encodes; otherwise reading it is refused as not UTF-8.
pub proof fn lemma_data_text(c: ChunkModel)
    ensures
        spec_data_text(c) is Ok <==> valid_utf8(c.data),
        valid_utf8(c.data) ==> spec_data_text(c) == Ok::<Seq<char>, PngError>(decode_utf8(c.data)),
        !valid_utf8(c.data) ==> spec_data_text(c) == Err::<Seq<char>, PngError>(
            PngError::InvalidUtf8,
        ),
{
}

/// The description of a chunk shows its data as text on a `Data:` line
/// whenever the data is valid UTF-8 (ASCII or not), and gives only the number
/// of data bytes exactly when it is not.
pub proof fn lemma_chunk_text_lines(c: ChunkModel)
    ensures
        valid_utf8(c.data) ==> spec_chunk_text(c) == "Chunk Type: "@ + spec_chunk_type_text(
            c.chunk_type,
        ) + "\n"@ + "Length: "@ + decimal_text(c.length as nat) + "\n"@ + ("Data: "@ + decode_utf8(
            c.data,
        ) + "\n"@) + "CRC : "@ + decimal_text(c.crc as nat) + "\n"@,
        !valid_utf8(c.data) ==> spec_chunk_text(c) == "Chunk Type: "@ + spec_chunk_type_text(
            c.chunk_type,
        ) + "\n"@ + "Length: "@ + decimal_text(c.length as nat) + "\n"@ + ("[Binary data - "@
            + decimal_text(c.data.len()) + " bytes]\n"@) + "CRC : "@ + decimal_text(c.crc as nat)
            + "\n"@,
{
}

impl Chunk {
    /// Computes the CRC of the type bytes followed by the data bytes.
    fn compute_crc(chunk_type: &ChunkType, data: &[u8]) -> (r: u32)
        ensures
            r == spec_chunk_crc(chunk_type@, data@),
    {
        let t = chunk_type.bytes();
        let mut input: Vec<u8> = Vec::new();
        input.push(t[0]);
        input.push(t[1]);
        input.push(t[2]);
        input.push(t[3]);
        assert(input@ =~= chunk_type@);
        extend_bytes(&mut input, data);
        crc32(input.as_slice())
    }

    /// A chunk of the given type and data, with its length and CRC computed.
    /// The length is the data's length taken modulo 2^32.
    pub fn new(chunk_type: ChunkType, data: Vec<u8>) -> (c: Chunk)
        ensures
            c@ == spec_new_chunk(chunk_type@, data@),
    {
        let crc = Self::compute_crc(&chunk_type, data.as_slice());
        let length = data.len() as u32;
        Chunk { length, chunk_type, data, crc }
    }

    /// The length field.
    pub fn length(&self) -> (r: u32)
        ensures
            r == self@.length,
    {
        self.length
    }

    /// The chunk type.
    pub fn chunk_type(&self) -> (r: &ChunkType)
        ensures
            r@ == self@.chunk_type,
    {
        &self.chunk_type
    }

    /// The data bytes.
    pub fn data(&self) -> (r: &[u8])
        ensures
            r@ == self@.data,
    {
        self.data.as_slice()
    }

    /// The CRC field.
    pub fn crc(&self) -> (r: u32)
        ensures
            r == self@.crc,
    {
        self.crc
    }

    /// The data read as UTF-8 text; refused when it is not valid UTF-8.
    pub fn data_as_string(&self) -> (r: Result<String, PngError>)
        ensures
            r matches Ok(text) ==> spec_data_text(self@) == Ok::<Seq<char>, PngError>(text@),
            r matches Err(e) ==> spec_data_text(self@) == Err::<Seq<char>, PngError>(e),
    {
        match string_from_utf8(bytes_to_vec(self.data.as_slice())) {
            Some(text) => Ok(text),
            None => Err(PngError::InvalidUtf8),
        }
    }

    /// The text that describes the chunk, one field per line.
    pub fn to_string(&self) -> (r: String)
        ensures
            r@ == spec_chunk_text(self@),
    {
        let mut r = String::new();
        push_str(&mut r, "Chunk Type: ");
        let type_text = self.chunk_type.to_string();
        push_str(&mut r, type_text.as_str());
        push_str(&mut r, "\n");
        push_str(&mut r, "Length: ");
        push_decimal(&mut r, self.length as u64);
        push_str(&mut r, "\n");
        match self.data_as_string() {
            Ok(text) => {
                push_str(&mut r, "Data: ");
                push_str(&mut r, text.as_str());
                push_str(&mut r, "\n");
            },
            Err(_) => {
                push_str(&mut r, "[Binary data - ");
                push_decimal(&mut r, self.data.len() as u64);
                push_str(&mut r, " bytes]\n");
            },
        }
        push_str(&mut r, "CRC : ");
        push_decimal(&mut r, self.crc as u64);
        push_str(&mut r, "\n");
        r
    }

    /// The bytes of the chunk as they stand in a file.
    pub fn as_bytes(&self) -> (r: Vec<u8>)
        ensures
            r@ == spec_chunk_bytes(self@),
    {
        let length_bytes = u32_to_be_bytes(self.length);
        let type_bytes = self.chunk_type.bytes();
        let crc_bytes = u32_to_be_bytes(self.crc);
        let mut r: Vec<u8> = Vec::new();
        let mut i: usize = 0;
        while i < 4
            invariant
                i <= 4,
                r@ =~= length_bytes@.subrange(0, i as int),
            decreases 4 - i,
        {
            r.push(length_bytes[i]);
            i = i + 1;
        }
        let mut i: usize = 0;
        while i < 4
            invariant
                i <= 4,
                type_bytes@.len() == 4,
                r@ =~= length_bytes@ + type_bytes@.subrange(0, i as int),
            decreases 4 - i,
        {
            r.push(type_bytes[i]);
            i = i + 1;
        }
        extend_bytes(&mut r, self.data.as_slice());
        let mut i: usize = 0;
        while i < 4
            invariant
                i <= 4,
                type_bytes@.len() == 4,
                r@ =~= length_bytes@ + type_bytes@ + self.data@ + crc_bytes@.subrange(0, i as int),
            decreases 4 - i,
        {
            r.push(crc_bytes[i]);
            i = i + 1;
        }
        r
    }

    /// Reads the fields of a chunk from the start of `value` without checking
    /// its CRC: length, type, data and stored CRC.
    pub fn read_fields(value: &[u8]) -> (r: Result<(u32, ChunkType, Vec<u8>, u32), PngError>)
        ensures
            r matches Ok((length, chunk_type, data, crc)) ==> spec_read_fields(value@) == Ok::<
                ChunkModel,
                PngError,
            >(ChunkModel { length, chunk_type: chunk_type@, data: data@, crc }),
            r matches Err(e) ==> spec_read_fields(value@) == Err::<ChunkModel, PngError>(e),
    {
        if value.len() < 8 {
            return Err(PngError::UnexpectedEof);
        }
        let length = u32_from_be_bytes(value, 0);
        assert(be_value(value@.subrange(0, 4)) == be_value(value@));
        if value.len() - 8 < 4 || value.len() - 12 < length as usize {
            return Err(PngError::UnexpectedEof);
        }
        let end = 8 + length as usize;
        let type_code = [value[4], value[5], value[6], value[7]];
        let chunk_type = match ChunkType::try_from(type_code) {
            Ok(ct) => ct,
            Err(e) => return Err(e),
        };
        assert(chunk_type@ =~= value@.subrange(4, 8));
        let data = bytes_to_vec(&value[8..end]);
        let crc = u32_from_be_bytes(value, end);
        Ok((length, chunk_type, data, crc))
    }

    /// Makes a chunk of fields read from a file, given the CRC computed over
    /// its type and data; refuses the fields when that CRC differs from the
    /// stored one.
    pub fn from_fields(
        length: u32,
        chunk_type: ChunkType,
        data: Vec<u8>,
        crc: u32,
        computed_crc: u32,
    ) -> (r: Result<Chunk, PngError>)
        ensures
            r matches Ok(c) ==> spec_check_crc(
                ChunkModel { length, chunk_type: chunk_type@, data: data@, crc },
                computed_crc,
            ) == Ok::<ChunkModel, PngError>(c@),
            r matches Err(e) ==> spec_check_crc(
                ChunkModel { length, chunk_type: chunk_type@, data: data@, crc },
                computed_crc,
            ) == Err::<ChunkModel, PngError>(e),
    {
        if computed_crc != crc {
            return Err(PngError::CrcMismatch);
        }
        Ok(Chunk { length, chunk_type, data, crc })
    }

    /// Reads a chunk from the start of `value` and checks its CRC.
    pub fn try_from(value: &[u8]) -> (r: Result<Chunk, PngError>)
        ensures
            r matches Ok(c) ==> spec_parse_chunk(value@) == Ok::<ChunkModel, PngError>(c@),
            r matches Err(e) ==> spec_parse_chunk(value@) == Err::<ChunkModel, PngError>(e),
    {
        let (length, chunk_type, data, crc) = match Self::read_fields(value) {
            Ok(fields) => fields,
            Err(e) => {
                proof {
                    reveal(spec_parse_chunk);
                }
                return Err(e);
            },
        };
        let computed = Self::compute_crc(&chunk_type, data.as_slice());
        proof {
            reveal(spec_parse_chunk);
        }
        Self::from_fields(length, chunk_type, data, crc, computed)
    }
}

/// The contract of this conversion is that of the inherent `Chunk::try_from`,
/// which it calls; the trait carries none of its own.
impl<'a> vstd::std_specs::convert::TryFromSpecImpl<&'a [u8]> for Chunk {
    open spec fn obeys_try_from_spec() -> bool {
        false
    }

    closed spec fn try_from_spec(value: &'a [u8]) -> Result<Chunk, PngError> {
        arbitrary()
    }
}

impl<'a> TryFrom<&'a [u8]> for Chunk {
    type Error = PngError;

    fn try_from(value: &'a [u8]) -> (r: Result<Chunk, PngError>)
        ensures
            r matches Ok(x) ==> spec_parse_chunk(value@) == Ok::<ChunkModel, PngError>(x@),
            r matches Err(e) ==> spec_parse_chunk(value@) == Err::<ChunkModel, PngError>(e),
    {
        Chunk::try_from(value)
    }
}

} // verus!
