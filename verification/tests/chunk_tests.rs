use pngme::chunk::Chunk;
use pngme::chunk_type::ChunkType;
use pngme::error::PngError;
use std::convert::TryFrom;
use std::str::FromStr;

fn testing_chunk() -> Chunk {
    let data_length: u32 = 42;
    let chunk_type = "RuSt".as_bytes();
    let message_bytes = "This is where your secret message will be!".as_bytes();
    let crc: u32 = 2882656334;

    let chunk_data: Vec<u8> = data_length
        .to_be_bytes()
        .iter()
        .chain(chunk_type.iter())
        .chain(message_bytes.iter())
        .chain(crc.to_be_bytes().iter())
        .copied()
        .collect();

    Chunk::try_from(chunk_data.as_ref()).unwrap()
}

#[test]
fn test_new_chunk() {
    let chunk_type = ChunkType::from_str("RuSt").unwrap();
    let data = "This is where your secret message will be!"
        .as_bytes()
        .to_vec();
    let chunk = Chunk::new(chunk_type, data);
    assert_eq!(chunk.length(), 42);
    assert_eq!(chunk.crc(), 2882656334);
}

#[test]
fn test_chunk_length() {
    let chunk = testing_chunk();
    assert_eq!(chunk.length(), 42);
}

#[test]
fn test_chunk_type() {
    let chunk = testing_chunk();
    assert_eq!(chunk.chunk_type().to_string(), String::from("RuSt"));
}

#[test]
fn test_chunk_string() {
    let chunk = testing_chunk();
    let chunk_string = chunk.data_as_string().unwrap();
    let expected_chunk_string = String::from("This is where your secret message will be!");
    assert_eq!(chunk_string, expected_chunk_string);
}

#[test]
fn test_chunk_crc() {
    let chunk = testing_chunk();
    assert_eq!(chunk.crc(), 2882656334);
}

#[test]
fn test_valid_chunk_from_bytes() {
    let data_length: u32 = 42;
    let chunk_type = "RuSt".as_bytes();
    let message_bytes = "This is where your secret message will be!".as_bytes();
    let crc: u32 = 2882656334;

    let chunk_data: Vec<u8> = data_length
        .to_be_bytes()
        .iter()
        .chain(chunk_type.iter())
        .chain(message_bytes.iter())
        .chain(crc.to_be_bytes().iter())
        .copied()
        .collect();

    let chunk = Chunk::try_from(chunk_data.as_ref()).unwrap();

    let chunk_string = chunk.data_as_string().unwrap();
    let expected_chunk_string = String::from("This is where your secret message will be!");

    assert_eq!(chunk.length(), 42);
    assert_eq!(chunk.chunk_type().to_string(), String::from("RuSt"));
    assert_eq!(chunk_string, expected_chunk_string);
    assert_eq!(chunk.crc(), 2882656334);
}

#[test]
fn test_invalid_chunk_from_bytes() {
    let data_length: u32 = 42;
    let chunk_type = "RuSt".as_bytes();
    let message_bytes = "This is where your secret message will be!".as_bytes();
    let crc: u32 = 2882656333;

    let chunk_data: Vec<u8> = data_length
        .to_be_bytes()
        .iter()
        .chain(chunk_type.iter())
        .chain(message_bytes.iter())
        .chain(crc.to_be_bytes().iter())
        .copied()
        .collect();

    let chunk = Chunk::try_from(chunk_data.as_ref());

    assert!(chunk.is_err());
}

#[test]
pub fn test_chunk_trait_impls() {
    let data_length: u32 = 42;
    let chunk_type = "RuSt".as_bytes();
    let message_bytes = "This is where your secret message will be!".as_bytes();
    let crc: u32 = 2882656334;

    let chunk_data: Vec<u8> = data_length
        .to_be_bytes()
        .iter()
        .chain(chunk_type.iter())
        .chain(message_bytes.iter())
        .chain(crc.to_be_bytes().iter())
        .copied()
        .collect();

    let chunk: Chunk = TryFrom::try_from(chunk_data.as_ref()).unwrap();

    let _chunk_string = chunk.to_string();
}

fn bytes_of(length: u32, chunk_type: &[u8], data: &[u8], crc: u32) -> Vec<u8> {
    let mut v = length.to_be_bytes().to_vec();
    v.extend_from_slice(chunk_type);
    v.extend_from_slice(data);
    v.extend_from_slice(&crc.to_be_bytes());
    v
}

#[test]
fn chunk_crc_mismatch_is_reported() {
    let v = bytes_of(42, b"RuSt", b"This is where your secret message will be!", 2882656333);
    assert_eq!(Chunk::try_from(v.as_slice()).unwrap_err(), PngError::CrcMismatch);
}

#[test]
fn chunk_crc_is_the_standard_crc32() {
    // CRC-32/ISO-HDLC of the PNG IEND chunk (type only, no data)
    let c = Chunk::new(ChunkType::from_str("IEND").unwrap(), vec![]);
    assert_eq!(c.crc(), 0xAE42_6082);
    assert_eq!(c.length(), 0);
    assert_eq!(c.as_bytes(), vec![0, 0, 0, 0, 73, 69, 78, 68, 0xAE, 0x42, 0x60, 0x82]);
    // the standard check value: CRC of "123456789"
    let c = Chunk::new(ChunkType::try_from(*b"1234").unwrap(), b"56789".to_vec());
    assert_eq!(c.crc(), 0xCBF4_3926);
}

#[test]
fn short_chunk_input_is_refused() {
    let full = bytes_of(3, b"RuSt", b"abc", 0);
    for n in 0..full.len() {
        assert_eq!(Chunk::try_from(&full[..n]).unwrap_err(), PngError::UnexpectedEof);
    }
}

#[test]
fn chunk_reads_back_and_trailing_bytes_are_ignored() {
    let c = Chunk::new(ChunkType::from_str("RuSt").unwrap(), b"hello".to_vec());
    let mut bytes = c.as_bytes();
    assert_eq!(bytes.len(), 12 + 5);
    assert_eq!(&bytes[..4], &[0, 0, 0, 5]);
    assert_eq!(&bytes[4..8], b"RuSt");
    assert_eq!(&bytes[8..13], b"hello");
    assert_eq!(&bytes[13..], &c.crc().to_be_bytes());
    let back = Chunk::try_from(bytes.as_slice()).unwrap();
    assert_eq!(back.length(), 5);
    assert_eq!(back.data(), b"hello");
    assert_eq!(back.crc(), c.crc());
    assert_eq!(back.chunk_type(), c.chunk_type());
    bytes.extend_from_slice(&[1, 2, 3]);
    let back = Chunk::try_from(bytes.as_slice()).unwrap();
    assert_eq!(back.data(), b"hello");
    assert_eq!(back.as_bytes(), c.as_bytes());
}

#[test]
fn chunk_read_fields_does_not_check_the_crc() {
    let v = bytes_of(2, b"abCD", b"xy", 7);
    let (length, t, data, crc) = Chunk::read_fields(&v).unwrap();
    assert_eq!(length, 2);
    assert_eq!(t.bytes(), *b"abCD");
    assert_eq!(data, b"xy".to_vec());
    assert_eq!(crc, 7);
    let good = Chunk::from_fields(length, t, data.clone(), crc, 7).unwrap();
    assert_eq!(good.crc(), 7);
    assert_eq!(Chunk::from_fields(length, t, data, crc, 8).unwrap_err(), PngError::CrcMismatch);
}

#[test]
fn chunk_data_that_is_not_utf8_is_refused_as_text() {
    let c = Chunk::new(ChunkType::from_str("RuSt").unwrap(), vec![0xff, 0xfe]);
    assert_eq!(c.data_as_string().unwrap_err(), PngError::InvalidUtf8);
    let c = Chunk::new(ChunkType::from_str("RuSt").unwrap(), "h\u{e9}llo \u{1F600}".as_bytes().to_vec());
    assert_eq!(c.data_as_string().unwrap(), "h\u{e9}llo \u{1F600}");
}

#[test]
fn chunk_text_lists_its_fields() {
    let c = Chunk::new(ChunkType::from_str("RuSt").unwrap(), b"hi".to_vec());
    let expected = format!("Chunk Type: RuSt\nLength: 2\nData: hi\nCRC : {}\n", c.crc());
    assert_eq!(c.to_string(), expected);
    let c = Chunk::new(ChunkType::from_str("RuSt").unwrap(), vec![0xff; 10]);
    let expected = format!("Chunk Type: RuSt\nLength: 10\n[Binary data - 10 bytes]\nCRC : {}\n", c.crc());
    assert_eq!(c.to_string(), expected);
}
