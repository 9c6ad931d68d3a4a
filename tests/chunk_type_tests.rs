use pngme::chunk_type::{ChunkType, ChunkTypeError};

#[test]
pub fn test_chunk_type_from_bytes() {
    let expected = [82, 117, 83, 116];
    let actual = ChunkType::from_bytes([82, 117, 83, 116]).unwrap();

    assert_eq!(expected, actual.bytes());
}

#[test]
pub fn test_chunk_type_from_str() {
    let expected = ChunkType::from_bytes([82, 117, 83, 116]).unwrap();
    let actual = ChunkType::from_text("RuSt").unwrap();
    assert_eq!(expected, actual);
}

#[test]
pub fn test_chunk_type_is_critical() {
    let chunk = ChunkType::from_text("RuSt").unwrap();
    assert!(chunk.is_critical());
}

#[test]
pub fn test_chunk_type_is_not_critical() {
    let chunk = ChunkType::from_text("ruSt").unwrap();
    assert!(!chunk.is_critical());
}

#[test]
pub fn test_chunk_type_is_public() {
    let chunk = ChunkType::from_text("RUSt").unwrap();
    assert!(chunk.is_public());
}

#[test]
pub fn test_chunk_type_is_not_public() {
    let chunk = ChunkType::from_text("RuSt").unwrap();
    assert!(!chunk.is_public());
}

#[test]
pub fn test_chunk_type_is_reserved_bit_valid() {
    let chunk = ChunkType::from_text("RuSt").unwrap();
    assert!(chunk.is_reserved_bit_valid());
}

#[test]
pub fn test_chunk_type_is_reserved_bit_invalid() {
    let chunk = ChunkType::from_text("Rust").unwrap();
    assert!(!chunk.is_reserved_bit_valid());
}

#[test]
pub fn test_chunk_type_is_safe_to_copy() {
    let chunk = ChunkType::from_text("RuSt").unwrap();
    assert!(chunk.is_safe_to_copy());
}

#[test]
pub fn test_chunk_type_is_unsafe_to_copy() {
    let chunk = ChunkType::from_text("RuST").unwrap();
    assert!(!chunk.is_safe_to_copy());
}

#[test]
pub fn test_valid_chunk_is_valid() {
    let chunk = ChunkType::from_text("RuSt").unwrap();
    assert!(chunk.is_valid());
}

#[test]
pub fn test_invalid_chunk_is_valid() {
    let chunk = ChunkType::from_text("Rust").unwrap();
    assert!(!chunk.is_valid());

    let chunk = ChunkType::from_text("Ru1t");
    assert!(chunk.is_err());
}

#[test]
pub fn test_chunk_type_string() {
    let chunk = ChunkType::from_text("RuSt").unwrap();
    assert_eq!(&chunk.to_string(), "RuSt");
}

#[test]
pub fn test_chunk_type_trait_impls() {
    let chunk_type_1: ChunkType = ChunkType::from_bytes([82, 117, 83, 116]).unwrap();
    let chunk_type_2: ChunkType = ChunkType::from_text("RuSt").unwrap();
    let _chunk_string = chunk_type_1.to_string();
    let _are_chunks_equal = chunk_type_1 == chunk_type_2;
}

#[test]
fn rust_flags_worked_example() {
    let t = ChunkType::from_text("RuSt").unwrap();
    assert_eq!(t.bytes(), [82, 117, 83, 116]);
    assert!(t.is_critical());
    assert!(!t.is_public());
    assert!(t.is_reserved_bit_valid());
    assert!(t.is_safe_to_copy());
}

#[test]
fn every_letter_is_accepted() {
    let letters: Vec<u8> = (b'A'..=b'Z').chain(b'a'..=b'z').collect();
    assert_eq!(letters.len(), 52);
    for &l in &letters {
        let t = ChunkType::from_bytes([l, l, l, l]).unwrap();
        assert_eq!(t.bytes(), [l, l, l, l]);
    }
    for w in letters.windows(4) {
        assert!(ChunkType::from_bytes([w[0], w[1], w[2], w[3]]).is_ok());
    }
}

#[test]
fn non_letters_are_refused() {
    for b in [0u8, b'0', b'9', b'@', b'[', b'`', b'{', b' ', 127, 128, 200, 255] {
        for pos in 0..4 {
            let mut code = [b'R', b'u', b'S', b't'];
            code[pos] = b;
            assert_eq!(ChunkType::from_bytes(code), Err(ChunkTypeError::NotAsciiLetters));
        }
    }
}

#[test]
fn text_of_wrong_length_is_refused() {
    assert_eq!(
        ChunkType::from_text("RuS"),
        Err(ChunkTypeError::InvalidNameLength { expected: 4, actual: 3 })
    );
    assert_eq!(
        ChunkType::from_text("RuStx"),
        Err(ChunkTypeError::InvalidNameLength { expected: 4, actual: 5 })
    );
    assert_eq!(
        ChunkType::from_text(""),
        Err(ChunkTypeError::InvalidNameLength { expected: 4, actual: 0 })
    );
    // Two characters, four bytes: the length counts bytes and the bytes are not letters.
    assert_eq!(ChunkType::from_text("éé"), Err(ChunkTypeError::NotAsciiLetters));
}

#[test]
fn text_keeps_case() {
    assert_eq!(ChunkType::from_text("ruSt").unwrap().to_string(), "ruSt");
    assert_eq!(ChunkType::from_bytes([73, 69, 78, 68]).unwrap().to_string(), "IEND");
}
