use pngme::chunk_type::ChunkType;
use pngme::error::PngError;
use std::convert::TryFrom;
use std::str::FromStr;

#[test]
pub fn test_chunk_type_from_bytes() {
    let expected = [82, 117, 83, 116];
    let actual = ChunkType::try_from([82, 117, 83, 116]).unwrap();

    assert_eq!(expected, actual.bytes());
}

#[test]
pub fn test_chunk_type_from_str() {
    let expected = ChunkType::try_from([82, 117, 83, 116]).unwrap();
    let actual = ChunkType::from_str("RuSt").unwrap();
    assert_eq!(expected, actual);
}

#[test]
pub fn test_chunk_type_is_critical() {
    let chunk = ChunkType::from_str("RuSt").unwrap();
    assert!(chunk.is_critical());
}

#[test]
pub fn test_chunk_type_is_not_critical() {
    let chunk = ChunkType::from_str("ruSt").unwrap();
    assert!(!chunk.is_critical());
}

#[test]
pub fn test_chunk_type_is_public() {
    let chunk = ChunkType::from_str("RUSt").unwrap();
    assert!(chunk.is_public());
}

#[test]
pub fn test_chunk_type_is_not_public() {
    let chunk = ChunkType::from_str("RuSt").unwrap();
    assert!(!chunk.is_public());
}

#[test]
pub fn test_chunk_type_is_reserved_bit_valid() {
    let chunk = ChunkType::from_str("RuSt").unwrap();
    assert!(chunk.is_reserved_bit_valid());
}

#[test]
pub fn test_chunk_type_is_reserved_bit_invalid() {
    let chunk = ChunkType::from_str("Rust").unwrap();
    assert!(!chunk.is_reserved_bit_valid());
}

#[test]
pub fn test_chunk_type_is_safe_to_copy() {
    let chunk = ChunkType::from_str("RuSt").unwrap();
    assert!(chunk.is_safe_to_copy());
}

#[test]
pub fn test_chunk_type_is_unsafe_to_copy() {
    let chunk = ChunkType::from_str("RuST").unwrap();
    assert!(!chunk.is_safe_to_copy());
}

#[test]
pub fn test_valid_chunk_is_valid() {
    let chunk = ChunkType::from_str("RuSt").unwrap();
    assert!(chunk.is_valid());
}

#[test]
pub fn test_invalid_chunk_is_valid() {
    let chunk = ChunkType::from_str("Rust").unwrap();
    assert!(!chunk.is_valid());

    let chunk = ChunkType::from_str("Ru1t");
    assert!(chunk.is_err());
}

#[test]
pub fn test_chunk_type_string() {
    let chunk = ChunkType::from_str("RuSt").unwrap();
    assert_eq!(&chunk.to_string(), "RuSt");
}

#[test]
pub fn test_chunk_type_trait_impls() {
    let chunk_type_1: ChunkType = TryFrom::try_from([82, 117, 83, 116]).unwrap();
    let chunk_type_2: ChunkType = FromStr::from_str("RuSt").unwrap();
    let _chunk_string = chunk_type_1.to_string();
    let _are_chunks_equal = chunk_type_1 == chunk_type_2;
}

#[test]
fn chunk_type_text_of_wrong_length_is_refused() {
    assert_eq!(ChunkType::from_str("Rus"), Err(PngError::InvalidChunkTypeLength));
    assert_eq!(ChunkType::from_str("RuStx"), Err(PngError::InvalidChunkTypeLength));
    assert_eq!(ChunkType::from_str(""), Err(PngError::InvalidChunkTypeLength));
}

#[test]
fn chunk_type_text_with_non_letter_is_refused() {
    assert_eq!(ChunkType::from_str("Ru1t"), Err(PngError::InvalidChunkTypeCharacter));
    assert_eq!(ChunkType::from_str("Ru t"), Err(PngError::InvalidChunkTypeCharacter));
    // four bytes, but three characters, one of them not ASCII
    assert_eq!(ChunkType::from_str("\u{e9}ab"), Err(PngError::InvalidChunkTypeCharacter));
    // three characters of which one takes two bytes: still four bytes long
    assert_eq!("\u{e9}ab".len(), 4);
}

#[test]
fn chunk_type_of_any_bytes_is_accepted() {
    let t = ChunkType::try_from([0, 255, 49, 32]).unwrap();
    assert_eq!(t.bytes(), [0, 255, 49, 32]);
    assert!(!t.is_valid());
}

#[test]
fn chunk_type_case_decides_the_properties() {
    let upper = ChunkType::from_str("ABCD").unwrap();
    assert!(upper.is_critical());
    assert!(upper.is_public());
    assert!(upper.is_reserved_bit_valid());
    assert!(!upper.is_safe_to_copy());
    assert!(upper.is_valid());
    let lower = ChunkType::from_str("abcd").unwrap();
    assert!(!lower.is_critical());
    assert!(!lower.is_public());
    assert!(!lower.is_reserved_bit_valid());
    assert!(lower.is_safe_to_copy());
    assert!(!lower.is_valid());
}

#[test]
fn chunk_type_text_reads_back() {
    for s in ["RuSt", "IHDR", "IEND", "zzZZ", "aBcD"] {
        let t = ChunkType::from_str(s).unwrap();
        assert_eq!(t.to_string(), s);
        assert_eq!(ChunkType::from_str(&t.to_string()).unwrap(), t);
    }
}

#[test]
fn chunk_types_compare_by_bytes() {
    let a = ChunkType::from_str("RuSt").unwrap();
    let b = ChunkType::from_str("RuSt").unwrap();
    let c = ChunkType::from_str("RuSu").unwrap();
    assert!(a == b);
    assert!(a != c);
}
