use pngme::chunk_type::{ChunkType, ChunkTypeError};

#[test]
pub fn test_chunk_type_from_bytes() {
    let expected = [82, 117, 83, 116];
    let actual = ChunkType::try_from([82, 117, 83, 116]).unwrap();

    assert_eq!(expected, actual.bytes());
}

#[test]
pub fn test_chunk_type_from_str() {
    let expected = ChunkType::try_from([82, 117, 83, 116]).unwrap();
    let actual = ChunkType::from_str("RuSt").unwrap();
    assert_eq!(expected, actual);
}

#[test]
pub fn test_chunk_type_is_critical() {
    let chunk = ChunkType::from_str("RuSt").unwrap();
    assert!(chunk.is_critical());
}

#[test]
pub fn test_chunk_type_is_not_critcal() {
    let chunk = ChunkType::from_str("ruSt").unwrap();
    assert!(!chunk.is_critical());
}

#[test]
pub fn test_chunk_type_is_public() {
    let chunk = ChunkType::from_str("RUSt").unwrap();
    assert!(chunk.is_public());
}

#[test]
pub fn test_chunk_type_is_not_public() {
    let chunk = ChunkType::from_str("RuSt").unwrap();
    assert!(!chunk.is_public());
}

#[test]
pub fn test_chunk_type_is_reserved_bit_valid() {
    let chunk = ChunkType::from_str("RuSt").unwrap();
    assert!(chunk.is_reserved_bit_valid());
}

#[test]
pub fn test_chunk_type_is_reserved_bit_invalid() {
    let chunk = ChunkType::from_str("Rust").unwrap();
    assert!(!chunk.is_reserved_bit_valid());
}

#[test]
pub fn test_chunk_type_is_safe_to_copy() {
    let chunk = ChunkType::from_str("RuSt").unwrap();
    assert!(chunk.is_safe_to_copy());
}

#[test]
pub fn test_chunk_type_is_unsafe_to_copy() {
    let chunk = ChunkType::from_str("RuST").unwrap();
    assert!(!chunk.is_safe_to_copy());
}

#[test]
pub fn test_valid_chunk_is_valid() {
    let chunk = ChunkType::from_str("RuSt").unwrap();
    assert!(chunk.is_valid());
}

#[test]
pub fn test_invalid_chunk_is_valid() {
    let chunk = ChunkType::from_str("Rust").unwrap();
    assert!(!chunk.is_valid());

    let chunk = ChunkType::from_str("1111");
    assert!(chunk.is_err());
}

#[test]
pub fn test_chunk_type_string() {
    let chunk = ChunkType::from_str("RuSt").unwrap();
    assert_eq!(&chunk.to_string(), "RuSt");
}

#[test]
fn rust_type_bit_properties() {
    let t = ChunkType::from_str("RuSt").unwrap();
    assert!(t.is_critical());
    assert!(!t.is_public());
    assert!(t.is_reserved_bit_valid());
    assert!(t.is_valid());
    assert!(t.is_safe_to_copy());
}

#[test]
fn from_str_wrong_length() {
    assert_eq!(ChunkType::from_str("RuS"), Err(ChunkTypeError::InvalidLength));
    assert_eq!(ChunkType::from_str("RuStx"), Err(ChunkTypeError::InvalidLength));
    assert_eq!(ChunkType::from_str(""), Err(ChunkTypeError::InvalidLength));
    // two characters, four bytes
    assert_eq!(ChunkType::from_str("éé"), Err(ChunkTypeError::InvalidLength));
    // three characters, four bytes
    assert_eq!(ChunkType::from_str("Ruß"), Err(ChunkTypeError::InvalidLength));
}

#[test]
fn from_str_non_letters() {
    assert_eq!(ChunkType::from_str("1111"), Err(ChunkTypeError::InvalidCharacters));
    assert_eq!(ChunkType::from_str("Ru t"), Err(ChunkTypeError::InvalidCharacters));
    // four characters, five bytes
    assert_eq!(ChunkType::from_str("RuSß"), Err(ChunkTypeError::InvalidCharacters));
    assert_eq!(ChunkType::from_str("abcé"), Err(ChunkTypeError::InvalidCharacters));
}

#[test]
fn from_bytes_takes_any_bytes() {
    let t = ChunkType::try_from([0, 255, 49, 32]).unwrap();
    assert_eq!(t.bytes(), [0, 255, 49, 32]);
}

#[test]
fn from_str_keeps_case() {
    let t = ChunkType::from_str("rUsT").unwrap();
    assert_eq!(t.bytes(), [114, 85, 115, 84]);
}
