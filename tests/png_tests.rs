use pngme::chunk::{Chunk, ChunkParserError};
use pngme::chunk_type::{ChunkType, ChunkTypeError};
use pngme::commands::{encode_bytes, find_chunk, remove_bytes};
use pngme::error::PngMeError;
use pngme::png::{Png, PngError};

const SIGNATURE: [u8; 8] = [0x89, 0x50, 0x4E, 0x47, 0x0D, 0x0A, 0x1A, 0x0A];

fn chunk(code: &str, data: &str) -> Chunk {
    Chunk::new(ChunkType::from_text(code).unwrap(), data.as_bytes().to_vec())
}

fn sample() -> Png {
    Png::from_chunks(vec![
        chunk("FrSt", "I am the first chunk"),
        chunk("miDl", "I am another chunk"),
        chunk("LASt", "I am the last chunk"),
    ])
}

#[test]
fn header_is_signature() {
    assert_eq!(Png::standard_header(), SIGNATURE);
    assert_eq!(&Png::from_chunks(vec![]).as_bytes()[..], &SIGNATURE[..]);
}

#[test]
fn container_round_trips() {
    let p = sample();
    let bytes = p.as_bytes();
    let q = Png::parse(&bytes).unwrap();
    assert_eq!(q.chunks().len(), 3);
    for (a, b) in p.chunks().iter().zip(q.chunks()) {
        assert_eq!(a.as_bytes(), b.as_bytes());
    }
    assert_eq!(q.as_bytes(), bytes);
}

#[test]
fn serialization_concatenates_frames() {
    let p = sample();
    let mut expected = SIGNATURE.to_vec();
    for c in p.chunks() {
        expected.extend(c.as_bytes());
    }
    assert_eq!(p.as_bytes(), expected);
}

#[test]
fn bad_signature_is_refused() {
    let mut bytes = sample().as_bytes();
    bytes[0] = 0x88;
    assert_eq!(Png::parse(&bytes).unwrap_err(), PngError::BadSignature);
    assert_eq!(Png::parse(&SIGNATURE[..7]).unwrap_err(), PngError::BadSignature);
    assert_eq!(Png::parse(&[]).unwrap_err(), PngError::BadSignature);
}

#[test]
fn broken_chunk_is_located() {
    let mut bytes = sample().as_bytes();
    let last = bytes.len() - 1;
    bytes[last] ^= 1;
    assert_eq!(
        Png::parse(&bytes).unwrap_err(),
        PngError::ChunkParseFailed { index: 2, cause: ChunkParserError::InvalidChecksum }
    );
    let mut short = sample().as_bytes();
    short.truncate(short.len() - 2);
    assert_eq!(
        Png::parse(&short).unwrap_err(),
        PngError::ChunkParseFailed {
            index: 2,
            cause: ChunkParserError::InvalidLengthField { expected: 17, found: 19 }
        }
    );
    let mut tail = sample().as_bytes();
    tail.extend([1, 2, 3]);
    assert_eq!(
        Png::parse(&tail).unwrap_err(),
        PngError::ChunkParseFailed { index: 3, cause: ChunkParserError::Incomplete }
    );
}

#[test]
fn find_and_remove_take_the_first_match() {
    let mut p = Png::from_chunks(vec![
        chunk("ruSt", "one"),
        chunk("teSt", "two"),
        chunk("ruSt", "three"),
    ]);
    assert_eq!(p.chunk_by_type("ruSt").unwrap().data(), b"one");
    assert_eq!(p.chunk_by_type("teSt").unwrap().data(), b"two");
    let removed = p.remove_first_chunk("ruSt").unwrap();
    assert_eq!(removed.data(), b"one");
    let left: Vec<&[u8]> = p.chunks().iter().map(|c| c.data()).collect();
    assert_eq!(left, vec![&b"two"[..], &b"three"[..]]);
    assert_eq!(p.chunk_by_type("ruSt").unwrap().data(), b"three");
}

#[test]
fn append_goes_last() {
    let mut p = sample();
    p.append_chunk(chunk("TeSt", "Message"));
    assert_eq!(p.chunks().len(), 4);
    assert_eq!(p.chunks()[3].chunk_type().to_string(), "TeSt");
    assert_eq!(p.chunks()[3].data_as_string().unwrap(), "Message");
}

#[test]
fn end_to_end_hidden_message() {
    let mut p = Png::from_chunks(vec![]);
    p.append_chunk(chunk("ruSt", "hidden"));
    let bytes = p.as_bytes();
    let mut q = Png::parse(&bytes).unwrap();
    let found = q.chunk_by_type("ruSt").unwrap();
    assert_eq!(found.data_as_string().unwrap(), "hidden");
    let removed = q.remove_first_chunk("ruSt").unwrap();
    assert_eq!(removed.data_as_string().unwrap(), "hidden");
    assert!(q.chunks().is_empty());
}

#[test]
fn missing_type_is_not_found() {
    let mut p = sample();
    assert!(p.chunk_by_type("ruSt").is_none());
    assert_eq!(p.remove_first_chunk("ruSt").unwrap_err(), PngError::ChunkNotFound);
    assert_eq!(p.chunks().len(), 3);
}

#[test]
fn encode_find_remove_on_bytes() {
    let original = Png::from_chunks(vec![chunk("IEND", "")]).as_bytes();
    let encoded = encode_bytes(&original, "ruSt", "hidden").unwrap();
    let found = find_chunk(&encoded, "ruSt").unwrap().unwrap();
    assert_eq!(found.data_as_string().unwrap(), "hidden");
    assert_eq!(found.crc(), 1360261962);
    assert!(find_chunk(&encoded, "teSt").unwrap().is_none());
    let removed = remove_bytes(&encoded, "ruSt").unwrap();
    assert_eq!(removed, original);
    assert_eq!(
        remove_bytes(&removed, "ruSt").unwrap_err(),
        PngMeError::Png(PngError::ChunkNotFound)
    );
}

#[test]
fn encode_reports_errors() {
    let original = Png::from_chunks(vec![]).as_bytes();
    assert_eq!(
        encode_bytes(&original, "ru5t", "x").unwrap_err(),
        PngMeError::ChunkType(ChunkTypeError::NotAsciiLetters)
    );
    assert_eq!(
        encode_bytes(&original, "rust!", "x").unwrap_err(),
        PngMeError::ChunkType(ChunkTypeError::InvalidNameLength { expected: 4, actual: 5 })
    );
    assert_eq!(
        encode_bytes(b"not a png", "ruSt", "x").unwrap_err(),
        PngMeError::Png(PngError::BadSignature)
    );
}

#[test]
fn description_of_a_file() {
    let p = Png::from_chunks(vec![chunk("ruSt", "hidden"), chunk("IEND", "")]);
    assert_eq!(
        p.to_string(),
        "PNG signature 89 50 4E 47 0D 0A 1A 0A\n\
         { length:    6 type: ruSt, data: hidden, crc 1360261962 }\n\
         { length:    0 type: IEND, data: , crc 2923585666 }\n"
    );
    assert_eq!(Png::from_chunks(vec![]).to_string(), "PNG signature 89 50 4E 47 0D 0A 1A 0A\n");
}
