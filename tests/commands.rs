use pngme::chunk::ChunkError;
use pngme::chunk_type::ChunkTypeError;
use pngme::commands::{decode, encode, remove, CommandError};
use pngme::png::{Png, PngError};

const SIGNATURE: [u8; 8] = [137, 80, 78, 71, 13, 10, 26, 10];

#[test]
fn encode_then_decode() {
    let out = encode(&SIGNATURE, "hello there", "RuSt").unwrap();
    assert_eq!(out.len(), 8 + 12 + 11);
    assert_eq!(decode(&out, "RuSt").unwrap(), "hello there");
    let png = Png::try_from(out.as_slice()).unwrap();
    assert_eq!(png.chunks().len(), 1);
}

#[test]
fn encode_appends_after_existing_chunks() {
    let one = encode(&SIGNATURE, "a", "AaAa").unwrap();
    let two = encode(&one, "b", "BbBb").unwrap();
    assert_eq!(&two[..one.len()], one.as_slice());
    assert_eq!(decode(&two, "AaAa").unwrap(), "a");
    assert_eq!(decode(&two, "BbBb").unwrap(), "b");
}

#[test]
fn encode_errors() {
    assert_eq!(
        encode(&[0u8; 8], "x", "RuSt"),
        Err(CommandError::Png(PngError::InvalidSignature))
    );
    assert_eq!(
        encode(&SIGNATURE, "x", "RuS"),
        Err(CommandError::ChunkType(ChunkTypeError::InvalidLength))
    );
    assert_eq!(
        encode(&SIGNATURE, "x", "R2St"),
        Err(CommandError::ChunkType(ChunkTypeError::InvalidCharacters))
    );
    assert_eq!(
        encode(&SIGNATURE, "x", "abcé"),
        Err(CommandError::ChunkType(ChunkTypeError::InvalidCharacters))
    );
    assert_eq!(
        encode(&SIGNATURE, "x", "éé"),
        Err(CommandError::ChunkType(ChunkTypeError::InvalidLength))
    );
}

#[test]
fn decode_errors() {
    let out = encode(&SIGNATURE, "x", "RuSt").unwrap();
    assert_eq!(decode(&out, "NoNe"), Err(CommandError::Png(PngError::ChunkNotFound)));
    let mut bad = SIGNATURE.to_vec();
    bad.extend_from_slice(&[0, 0, 0, 2]);
    bad.extend_from_slice(b"RuSt");
    bad.extend_from_slice(&[0xff, 0xff]);
    let crc = pngme_crc(&bad[12..]);
    bad.extend_from_slice(&crc.to_be_bytes());
    assert_eq!(decode(&bad, "RuSt"), Err(CommandError::Chunk(ChunkError::InvalidUtf8)));
}

fn pngme_crc(b: &[u8]) -> u32 {
    crc::crc32::checksum_ieee(b)
}

#[test]
fn remove_command() {
    let one = encode(&SIGNATURE, "a", "AaAa").unwrap();
    let two = encode(&one, "b", "BbBb").unwrap();
    let back = remove(&two, "BbBb").unwrap();
    assert_eq!(back, one);
    assert_eq!(remove(&back, "BbBb"), Err(CommandError::Png(PngError::ChunkNotFound)));
    let empty = remove(&back, "AaAa").unwrap();
    assert_eq!(empty, SIGNATURE.to_vec());
}
