use pngme::chunk::Chunk;
use pngme::chunk_type::ChunkType;
use pngme::commands::{
    decode_png_message, encode_png_message, print_png_report, remove_png_message,
};
use pngme::error::PngError;
use pngme::path::has_png_extension;
use pngme::png::Png;
use std::str::FromStr;

fn chunk(t: &str, data: &[u8]) -> Chunk {
    Chunk::new(ChunkType::from_str(t).unwrap(), data.to_vec())
}

fn sample_png() -> Png {
    Png::from_chunks(vec![
        chunk("IHDR", &[0, 0, 0, 1, 0, 0, 0, 1, 8, 2, 0, 0, 0]),
        chunk("teXt", b"Comment\0made by hand"),
        chunk("IEND", &[]),
    ])
}

#[test]
fn png_starts_with_the_standard_header() {
    assert_eq!(Png::STANDARD_HEADER, [137, 80, 78, 71, 13, 10, 26, 10]);
    let p = sample_png();
    assert_eq!(p.header(), &Png::STANDARD_HEADER);
    assert_eq!(&p.as_bytes()[..8], &Png::STANDARD_HEADER);
}

#[test]
fn png_bytes_read_back() {
    let p = sample_png();
    let bytes = p.as_bytes();
    let back = Png::try_from(bytes.as_slice()).unwrap();
    assert_eq!(back.chunks().len(), 3);
    assert_eq!(back.as_bytes(), bytes);
    assert_eq!(back.chunks()[1].data(), b"Comment\0made by hand");
    assert_eq!(back.chunks()[2].chunk_type().to_string(), "IEND");
}

#[test]
fn png_with_only_a_header_has_no_chunks() {
    let p = Png::try_from(&Png::STANDARD_HEADER[..]).unwrap();
    assert_eq!(p.chunks().len(), 0);
}

#[test]
fn png_skips_up_to_three_trailing_bytes() {
    let mut bytes = sample_png().as_bytes();
    let clean = bytes.clone();
    bytes.extend_from_slice(&[9, 9, 9]);
    let p = Png::try_from(bytes.as_slice()).unwrap();
    assert_eq!(p.as_bytes(), clean);
}

#[test]
fn png_with_four_trailing_bytes_is_refused() {
    let mut bytes = sample_png().as_bytes();
    bytes.extend_from_slice(&[0, 0, 0, 0]);
    assert_eq!(Png::try_from(bytes.as_slice()).unwrap_err(), PngError::UnexpectedEof);
}

#[test]
fn png_with_wrong_header_is_refused() {
    let mut bytes = sample_png().as_bytes();
    bytes[1] = b'Q';
    assert_eq!(Png::try_from(bytes.as_slice()).unwrap_err(), PngError::InvalidHeader);
    assert_eq!(Png::try_from(&bytes[..5]).unwrap_err(), PngError::UnexpectedEof);
}

#[test]
fn png_with_corrupt_chunk_is_refused() {
    let mut bytes = sample_png().as_bytes();
    let last = bytes.len() - 1;
    bytes[last] ^= 1;
    assert_eq!(Png::try_from(bytes.as_slice()).unwrap_err(), PngError::CrcMismatch);
}

#[test]
fn png_append_and_remove_first_chunk() {
    let mut p = sample_png();
    p.append_chunk(chunk("RuSt", b"one"));
    p.append_chunk(chunk("RuSt", b"two"));
    assert_eq!(p.chunks().len(), 5);
    let removed = p.remove_first_chunk("RuSt").unwrap();
    assert_eq!(removed.data(), b"one");
    assert_eq!(p.chunks().len(), 4);
    assert_eq!(p.chunks()[3].data(), b"two");
    assert_eq!(p.remove_first_chunk("RuSt").unwrap().data(), b"two");
    assert_eq!(p.remove_first_chunk("RuSt").unwrap_err(), PngError::ChunkNotFound);
    assert_eq!(p.remove_first_chunk("RuStX").unwrap_err(), PngError::ChunkNotFound);
    assert_eq!(p.as_bytes(), sample_png().as_bytes());
}

#[test]
fn encode_then_decode_gives_the_message() {
    let file = sample_png().as_bytes();
    let out = encode_png_message(&file, "RuSt", "This is a hidden message!").unwrap();
    assert_eq!(decode_png_message(&out, "RuSt").unwrap(), "This is a hidden message!");
    let p = Png::try_from(out.as_slice()).unwrap();
    assert_eq!(p.chunks().len(), 4);
    assert_eq!(p.chunks()[2].chunk_type().to_string(), "RuSt");
    assert_eq!(p.chunks()[3].chunk_type().to_string(), "IEND");
}

#[test]
fn encode_keeps_the_end_chunk_last() {
    let file = sample_png().as_bytes();
    let once = encode_png_message(&file, "RuSt", "one").unwrap();
    let twice = encode_png_message(&once, "MySg", "two").unwrap();
    let p = Png::try_from(twice.as_slice()).unwrap();
    let types: Vec<String> = p.chunks().iter().map(|c| c.chunk_type().to_string()).collect();
    assert_eq!(types, vec!["IHDR", "teXt", "RuSt", "MySg", "IEND"]);
    assert_eq!(decode_png_message(&twice, "RuSt").unwrap(), "one");
    assert_eq!(decode_png_message(&twice, "MySg").unwrap(), "two");
}

#[test]
fn encode_appends_when_the_last_chunk_is_not_the_end_chunk() {
    let file = Png::from_chunks(vec![chunk("IHDR", &[1, 2, 3])]).as_bytes();
    let out = encode_png_message(&file, "RuSt", "m").unwrap();
    let p = Png::try_from(out.as_slice()).unwrap();
    assert_eq!(p.chunks().len(), 2);
    assert_eq!(p.chunks()[1].chunk_type().to_string(), "RuSt");
    let empty = Png::from_chunks(vec![]).as_bytes();
    let out = encode_png_message(&empty, "RuSt", "m").unwrap();
    let p = Png::try_from(out.as_slice()).unwrap();
    assert_eq!(p.chunks().len(), 1);
    assert_eq!(p.chunks()[0].data(), b"m");
}

#[test]
fn insert_before_end_places_the_chunk_before_iend() {
    let mut p = sample_png();
    p.insert_before_end(chunk("RuSt", b"x"));
    assert_eq!(p.chunks().len(), 4);
    assert_eq!(p.chunks()[2].data(), b"x");
    assert_eq!(p.chunks()[3].chunk_type().to_string(), "IEND");
    let mut q = Png::from_chunks(vec![chunk("IHDR", &[])]);
    q.insert_before_end(chunk("RuSt", b"y"));
    assert_eq!(q.chunks()[1].data(), b"y");
}

#[test]
fn encode_then_remove_gives_the_file_back() {
    let file = sample_png().as_bytes();
    let out = encode_png_message(&file, "MySg", "Meeting at 22:00").unwrap();
    assert_eq!(remove_png_message(&out, "MySg").unwrap(), file);
    assert_eq!(decode_png_message(&file, "MySg").unwrap_err(), PngError::ChunkNotFound);
}

#[test]
fn encode_refuses_bad_input() {
    let file = sample_png().as_bytes();
    assert_eq!(encode_png_message(&file, "RuST", "m").unwrap_err(), PngError::NotSafeToCopy);
    assert_eq!(encode_png_message(&file, "Ru1t", "m").unwrap_err(), PngError::InvalidChunkTypeCharacter);
    assert_eq!(encode_png_message(&file, "Rust!", "m").unwrap_err(), PngError::InvalidChunkTypeLength);
    assert_eq!(encode_png_message(&file[..7], "RuSt", "m").unwrap_err(), PngError::UnexpectedEof);
    let mut bad = file.clone();
    bad[0] = 0;
    assert_eq!(encode_png_message(&bad, "RuSt", "m").unwrap_err(), PngError::InvalidHeader);
}

#[test]
fn decode_reads_the_first_chunk_of_the_type() {
    let mut p = sample_png();
    p.append_chunk(chunk("RuSt", b"first"));
    p.append_chunk(chunk("RuSt", b"second"));
    let bytes = p.as_bytes();
    assert_eq!(decode_png_message(&bytes, "RuSt").unwrap(), "first");
    let after = remove_png_message(&bytes, "RuSt").unwrap();
    assert_eq!(decode_png_message(&after, "RuSt").unwrap(), "second");
    assert_eq!(remove_png_message(&bytes, "NoNe").unwrap_err(), PngError::ChunkNotFound);
}

#[test]
fn decode_refuses_binary_data() {
    let mut p = sample_png();
    p.append_chunk(chunk("RuSt", &[0xc3, 0x28]));
    let bytes = p.as_bytes();
    assert_eq!(decode_png_message(&bytes, "RuSt").unwrap_err(), PngError::InvalidUtf8);
}

#[test]
fn report_lists_the_chunks() {
    let p = Png::from_chunks(vec![chunk("RuSt", b"hi"), chunk("IEND", &[])]);
    let bytes = p.as_bytes();
    let report = print_png_report("a.png", &bytes).unwrap();
    let expected = format!(
        "PNG File: a.png\nNumber of Chunks: 2\nChunks:\n{}\n{}\n",
        p.chunks()[0].to_string(),
        p.chunks()[1].to_string()
    );
    assert_eq!(report, expected);
    assert!(report.contains("CRC : 2923585666\n"));
    assert_eq!(print_png_report("a.png", &bytes[..3]).unwrap_err(), PngError::UnexpectedEof);
}

#[test]
fn png_extension_is_recognised() {
    assert!(has_png_extension("image.png"));
    assert!(has_png_extension("./dir/photo_secret.png"));
    assert!(has_png_extension("archive.tar.png"));
    assert!(!has_png_extension("image.PNG"));
    assert!(!has_png_extension("image.pn"));
    assert!(!has_png_extension("image"));
    assert!(!has_png_extension(".png"));
    assert!(!has_png_extension("dir.png/file"));
}
