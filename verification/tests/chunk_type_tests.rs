use pngme::chunk_type::ChunkType;
use pngme::error::PngError;
use std::convert::TryFrom;
use std::str::FromStr;

#[test]
pub fn test_chunk_type_from_bytes() {
    let expected = [82, 117, 83, 116];
    let actual = ChunkType::try_from([82, 117, 83, 116]).unwrap();

    assert_eq!(expected, actual.bytes());
}

#[test]
pub fn test_chunk_type_from_str() {
    let expected = ChunkType::try_from([82, 117, 83, 116]).unwrap();
    let actual = ChunkType::from_str("RuSt").unwrap();
    assert_eq!(expected, actual);
}

#[test]
pub fn test_chunk_type_is_critical() {
    let chunk = ChunkType::from_str("RuSt").unwrap();
    assert!(chunk.is_critical());
}

#[test]
pub fn test_chunk_type_is_not_critical() {
    let chunk = ChunkType::from_str("ruSt").unwrap();
    assert!(!chunk.is_critical());
}

#[test]
pub fn test_chunk_type_is_public() {
    let chunk = ChunkType::from_str("RUSt").unwrap();
    assert!(chunk.is_public());
}

#[test]
pub fn test_chunk_type_is_not_public() {
    let chunk = ChunkType::from_str("RuSt").unwrap();
    assert!(!chunk.is_public());
}

#[test]
pub fn test_chunk_type_is_reserved_bit_valid() {
    let chunk = ChunkType::from_str("RuSt").unwrap();
    assert!(chunk.is_reserved_bit_valid());
}

#[test]
pub fn test_chunk_type_is_reserved_bit_invalid() {
    let chunk = ChunkType::from_str("Rust").unwrap();
    assert!(!chunk.is_reserved_bit_valid());
}

#[test]
pub fn test_chunk_type_is_safe_to_copy() {
    let chunk = ChunkType::from_str("RuSt").unwrap();
    assert!(chunk.is_safe_to_copy());
}

#[test]
pub fn test_chunk_type_is_unsafe_to_copy() {
    let chunk = ChunkType::from_str("RuST").unwrap();
    assert!(!chunk.is_safe_to_copy());
}

#[test]
pub fn test_valid_chunk_is_valid() {
    let chunk = ChunkType::from_str("RuSt").unwrap();
    assert!(chunk.is_valid());
}

#[test]
pub fn test_invalid_chunk_is_valid() {
    let chunk = ChunkType::from_str("Rust").unwrap();
    assert!(!chunk.is_valid());

    let chunk = ChunkType::from_str("Ru1t");
    assert!(chunk.is_err());
}

#[test]
pub fn test_chunk_type_string() {
    let chunk = ChunkType::from_str("RuSt").unwrap();
    assert_eq!(&chunk.to_string(), "RuSt");
}

#[test]
pub fn test_chunk_type_trait_impls() {
    let chunk_type_1: ChunkType = TryFrom::try_from([82, 117, 83, 116]).unwrap();
    let chunk_type_2: ChunkType = FromStr::from_str("RuSt").unwrap();
    let _chunk_string = chunk_type_1.to_string();
    let _are_chunks_equal = chunk_type_1 == chunk_type_2;
}

#[test]
pub fn test_chunk_type_flag_vector() {
    let t = ChunkType::from_str("RuSt").unwrap();
    assert!(t.is_critical());
    assert!(!t.is_public());
    assert!(t.is_reserved_bit_valid());
    assert!(t.is_safe_to_copy());
    assert!(t.is_valid());
}

#[test]
pub fn test_is_valid_looks_at_the_reserved_bit_only() {
    // All four property bits "off" but for the reserved one: still valid.
    let t = ChunkType::from_str("bLOB").unwrap();
    assert!(!t.is_critical());
    assert!(t.is_public());
    assert!(t.is_reserved_bit_valid());
    assert!(!t.is_safe_to_copy());
    assert!(t.is_valid());
    // Everything as a well-formed public critical chunk, reserved bit off.
    let t = ChunkType::from_str("IDaT").unwrap();
    assert!(!t.is_valid());
}

#[test]
pub fn test_chunk_type_rejects_non_letters() {
    assert_eq!(ChunkType::try_from([82, 117, 49, 116]), Err(PngError::ChunkTypeError));
    assert_eq!(ChunkType::try_from([64, 65, 65, 65]), Err(PngError::ChunkTypeError));
    assert_eq!(ChunkType::try_from([65, 91, 65, 65]), Err(PngError::ChunkTypeError));
    assert_eq!(ChunkType::try_from([65, 65, 96, 65]), Err(PngError::ChunkTypeError));
    assert_eq!(ChunkType::try_from([65, 65, 65, 123]), Err(PngError::ChunkTypeError));
    assert_eq!(ChunkType::try_from([65, 65, 65, 200]), Err(PngError::ChunkTypeError));
    assert!(ChunkType::try_from([65, 90, 97, 122]).is_ok());
}

#[test]
pub fn test_chunk_type_from_str_wrong_length() {
    assert_eq!(ChunkType::from_str(""), Err(PngError::ChunkTypeError));
    assert_eq!(ChunkType::from_str("RuS"), Err(PngError::ChunkTypeError));
    assert_eq!(ChunkType::from_str("RuStt"), Err(PngError::ChunkTypeError));
}

#[test]
pub fn test_chunk_type_from_str_non_ascii() {
    // Four bytes, two characters.
    assert_eq!(ChunkType::from_str("\u{e9}\u{e9}"), Err(PngError::ChunkTypeError));
    // Four characters, five bytes.
    assert_eq!(ChunkType::from_str("Ru\u{e9}t"), Err(PngError::ChunkTypeError));
}

#[test]
pub fn test_chunk_type_trait_and_method_agree() {
    let by_trait: Result<ChunkType, PngError> = TryFrom::try_from([82, 117, 49, 116]);
    assert_eq!(by_trait, Err(PngError::ChunkTypeError));
    let by_trait: Result<ChunkType, PngError> = FromStr::from_str("Ru1t");
    assert_eq!(by_trait, Err(PngError::ChunkTypeError));
    let by_trait: ChunkType = "tEXt".parse().unwrap();
    assert_eq!(by_trait.bytes(), [116, 69, 88, 116]);
}
