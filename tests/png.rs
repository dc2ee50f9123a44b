use pngme::chunk::{Chunk, ChunkError};
use pngme::chunk_type::ChunkType;
use pngme::png::{Png, PngError};

const SIGNATURE: [u8; 8] = [137, 80, 78, 71, 13, 10, 26, 10];

fn chunk(t: &str, data: &str) -> Chunk {
    Chunk::new(ChunkType::from_str(t).unwrap(), data.as_bytes().to_vec())
}

fn types(png: &Png) -> Vec<String> {
    png.chunks().iter().map(|c| c.chunk_type().to_string()).collect()
}

fn sample() -> Png {
    Png::from_chunks(vec![
        chunk("FrSt", "first"),
        chunk("miDl", "middle"),
        chunk("LASt", "last"),
    ])
}

#[test]
fn png_round_trip() {
    let png = sample();
    let bytes = png.as_bytes();
    assert_eq!(&bytes[..8], &SIGNATURE);
    let back = Png::try_from(bytes.as_slice()).unwrap();
    assert_eq!(types(&back), vec!["FrSt", "miDl", "LASt"]);
    assert_eq!(back.header(), SIGNATURE);
    assert_eq!(back.as_bytes(), bytes);
}

#[test]
fn serialize_twice_is_identical() {
    let png = sample();
    let a = png.as_bytes();
    let b = png.as_bytes();
    assert_eq!(a, b);
    assert_eq!(a.len(), 8 + 3 * 12 + 5 + 6 + 4);
}

#[test]
fn empty_png() {
    let png = Png::try_from(&SIGNATURE[..]).unwrap();
    assert!(png.chunks().is_empty());
    assert_eq!(png.as_bytes(), SIGNATURE.to_vec());
}

#[test]
fn signature_gate() {
    let mut bytes = sample().as_bytes();
    bytes[0] = 0;
    assert_eq!(Png::try_from(bytes.as_slice()).err(), Some(PngError::InvalidSignature));
    let mut bytes = sample().as_bytes();
    bytes[7] ^= 1;
    assert_eq!(Png::try_from(bytes.as_slice()).err(), Some(PngError::InvalidSignature));
    assert_eq!(Png::try_from(&SIGNATURE[..5]).err(), Some(PngError::InvalidSignature));
    assert_eq!(Png::try_from(&[][..]).err(), Some(PngError::InvalidSignature));
}

#[test]
fn corrupt_middle_chunk_fails_whole_parse() {
    let mut bytes = sample().as_bytes();
    // a payload byte of the second chunk
    let at = 8 + 12 + 5 + 8;
    bytes[at] ^= 0x01;
    assert_eq!(
        Png::try_from(bytes.as_slice()).err(),
        Some(PngError::Chunk(ChunkError::CrcMismatch))
    );
    let bytes = sample().as_bytes();
    assert_eq!(
        Png::try_from(&bytes[..bytes.len() - 1]).err(),
        Some(PngError::Chunk(ChunkError::TruncatedCrc))
    );
}

#[test]
fn remove_then_append_keeps_order() {
    let mut png = sample();
    png.remove_chunk("miDl").unwrap();
    assert_eq!(types(&png), vec!["FrSt", "LASt"]);
    png.append_chunk(chunk("NeXt", "d"));
    assert_eq!(types(&png), vec!["FrSt", "LASt", "NeXt"]);
}

#[test]
fn remove_takes_first_of_duplicates() {
    let mut png = Png::from_chunks(vec![
        chunk("AaAa", "1"),
        chunk("BbBb", "2"),
        chunk("BbBb", "3"),
    ]);
    png.remove_chunk("BbBb").unwrap();
    assert_eq!(types(&png), vec!["AaAa", "BbBb"]);
    assert_eq!(png.chunks()[1].data(), b"3");
}

#[test]
fn find_by_type() {
    let mut png = sample();
    png.append_chunk(chunk("miDl", "second"));
    let c = png.chunk_by_type("miDl").unwrap();
    assert_eq!(c.data(), b"middle");
    assert!(png.chunk_by_type("LASt").is_some());
}

#[test]
fn not_found() {
    let mut png = sample();
    assert!(png.chunk_by_type("NoNe").is_none());
    assert!(png.chunk_by_type("mid").is_none());
    let before = png.as_bytes();
    assert_eq!(png.remove_chunk("NoNe"), Err(PngError::ChunkNotFound));
    assert_eq!(png.as_bytes(), before);
    assert_eq!(types(&png), vec!["FrSt", "miDl", "LASt"]);
}
