use pngme::chunk::ChunkError;
use pngme::commands::{decode, encode, remove, CommandError};
use pngme::utils::{four_bytes, u32_from_slice_range};
use pngme::{Chunk, ChunkType, ChunkTypeError, EncodingError, Error, Png, PngError, RemoveError};

fn chunk(kind: &str, data: &str) -> Chunk {
    Chunk::from_strings(kind, data).unwrap()
}

fn stream(chunks: &[Chunk]) -> Vec<u8> {
    let mut bytes = Png::EXPECTED_HEADER.to_vec();
    for c in chunks {
        bytes.extend(c.as_bytes());
    }
    bytes
}

fn types(png: &Png) -> Vec<String> {
    png.chunks().iter().map(|c| c.chunk_type().to_string()).collect()
}

fn texts(png: &Png) -> Vec<String> {
    png.chunks().iter().map(|c| c.data_as_string().unwrap()).collect()
}

#[test]
fn end_chunk_has_the_standard_checksum() {
    let end = Chunk::new(ChunkType::from_str("IEND").unwrap(), Vec::new());
    assert_eq!(end.crc(), 0xAE42_6082);
    assert_eq!(end.as_bytes(), vec![0, 0, 0, 0, 73, 69, 78, 68, 0xAE, 0x42, 0x60, 0x82]);
    assert!(end.is_crc_valid());
}

#[test]
fn checksum_covers_type_and_data() {
    let a = Chunk::calculate_crc(&ChunkType::from_str("RuSt").unwrap(), b"abc");
    let b = Chunk::calculate_crc(&ChunkType::from_str("RuSt").unwrap(), b"abd");
    let c = Chunk::calculate_crc(&ChunkType::from_str("RuSu").unwrap(), b"abc");
    assert_ne!(a, b);
    assert_ne!(a, c);
}

#[test]
fn chunk_round_trips_through_its_bytes() {
    let pristine = Chunk::new(ChunkType::from_str("teXt").unwrap(), vec![0, 1, 2, 255]);
    let bytes = pristine.as_bytes();
    assert_eq!(bytes.len(), 16);
    let parsed = Chunk::try_from(&bytes).unwrap();
    assert_eq!(parsed.length(), pristine.length());
    assert_eq!(parsed.chunk_type(), pristine.chunk_type());
    assert_eq!(parsed.data(), pristine.data());
    assert_eq!(parsed.crc(), pristine.crc());
    assert_eq!(parsed.as_bytes(), bytes);
}

#[test]
fn chunk_ignores_bytes_after_its_checksum() {
    let pristine = chunk("RuSt", "hi");
    let mut bytes = pristine.as_bytes();
    bytes.extend([9, 9, 9]);
    let parsed = Chunk::try_from(&bytes).unwrap();
    assert_eq!(parsed.as_bytes(), pristine.as_bytes());
}

#[test]
fn chunk_from_bytes_after_length() {
    let pristine = chunk("RuSt", "secret");
    let bytes = pristine.as_bytes();
    let parsed = Chunk::from_bytes(6, &bytes[4..]).unwrap();
    assert_eq!(parsed.data_as_string().unwrap(), "secret");
    assert_eq!(Chunk::from_bytes(7, &bytes[4..]).unwrap_err(), ChunkError::Truncated);
}

#[test]
fn flipping_a_data_bit_is_a_crc_mismatch() {
    let pristine = chunk("RuSt", "payload");
    let bytes = pristine.as_bytes();
    for i in 8..8 + 7 {
        for bit in 0..8 {
            let mut flipped = bytes.clone();
            flipped[i] ^= 1 << bit;
            match Chunk::try_from(&flipped) {
                Err(ChunkError::CrcMismatch { expected, actual }) => {
                    assert_eq!(expected, pristine.crc());
                    assert_ne!(actual, pristine.crc());
                }
                other => panic!("byte {} bit {}: {:?}", i, bit, other),
            }
        }
    }
}

#[test]
fn flipping_a_type_bit_is_refused() {
    let pristine = chunk("RuSt", "payload");
    let bytes = pristine.as_bytes();
    for i in 4..8 {
        for bit in 0..8 {
            let mut flipped = bytes.clone();
            flipped[i] ^= 1 << bit;
            let still_letter = ChunkType::is_valid_byte(flipped[i]);
            match Chunk::try_from(&flipped) {
                Err(ChunkError::CrcMismatch { expected, .. }) => {
                    assert!(still_letter);
                    assert_eq!(expected, pristine.crc());
                }
                Err(ChunkError::BadType(ChunkTypeError::InvalidByte { byte })) => {
                    assert!(!still_letter);
                    assert_eq!(byte, flipped[i]);
                }
                other => panic!("byte {} bit {}: {:?}", i, bit, other),
            }
        }
    }
}

#[test]
fn flipping_a_crc_bit_is_a_crc_mismatch() {
    let pristine = chunk("RuSt", "payload");
    let bytes = pristine.as_bytes();
    for i in bytes.len() - 4..bytes.len() {
        for bit in 0..8 {
            let mut flipped = bytes.clone();
            flipped[i] ^= 1 << bit;
            match Chunk::try_from(&flipped) {
                Err(ChunkError::CrcMismatch { expected, actual }) => {
                    assert_ne!(expected, pristine.crc());
                    assert_eq!(actual, pristine.crc());
                }
                other => panic!("byte {} bit {}: {:?}", i, bit, other),
            }
        }
    }
}

#[test]
fn chunk_errors() {
    assert_eq!(Chunk::try_from(&[0, 0, 0, 0, 73, 69, 78]).unwrap_err(), ChunkError::TooShort);
    assert_eq!(
        Chunk::try_from(&[0, 0, 0, 0, 73, 69, 78, 49, 0, 0, 0, 0]).unwrap_err(),
        ChunkError::BadType(ChunkTypeError::InvalidByte { byte: 49 })
    );
    assert_eq!(
        Chunk::try_from(&[0, 0, 0, 2, 73, 69, 78, 68, 1, 0, 0, 0]).unwrap_err(),
        ChunkError::Truncated
    );
    assert_eq!(
        Chunk::try_from(&[0, 0, 0, 0, 73, 69, 78, 68, 0, 0, 0, 0]).unwrap_err(),
        ChunkError::CrcMismatch { expected: 0, actual: 0xAE42_6082 }
    );
}

#[test]
fn data_that_is_not_utf8_is_an_encoding_error() {
    let c = Chunk::new(ChunkType::from_str("RuSt").unwrap(), vec![0xff, 0xfe]);
    assert_eq!(c.data_as_string(), Err(EncodingError));
    let c = Chunk::new(ChunkType::from_str("RuSt").unwrap(), "héllo".as_bytes().to_vec());
    assert_eq!(c.data_as_string().unwrap(), "héllo");
}

#[test]
fn type_code_validation() {
    let rust = ChunkType::from_str("RuSt").unwrap();
    assert!(rust.is_critical());
    assert!(!rust.is_public());
    assert!(rust.is_reserved_bit_valid());
    assert!(rust.is_safe_to_copy());
    assert!(rust.is_valid());
    assert_eq!(ChunkType::from_str("Ru1t"), Err(ChunkTypeError::InvalidByte { byte: b'1' }));
    let lower = ChunkType::from_str("Rust").unwrap();
    assert!(!lower.is_reserved_bit_valid());
    assert!(!lower.is_valid());
}

#[test]
fn type_code_text_errors() {
    assert_eq!(ChunkType::from_str("abc"), Err(ChunkTypeError::Format));
    assert_eq!(ChunkType::from_str("abcde"), Err(ChunkTypeError::Format));
    assert_eq!(ChunkType::from_str("\u{e9}ab"), Err(ChunkTypeError::Format));
    assert_eq!(ChunkType::from_str(""), Err(ChunkTypeError::Format));
    assert_eq!(ChunkType::try_from([65, 0, 66, 200]), Err(ChunkTypeError::InvalidByte { byte: 0 }));
    assert!(ChunkType::is_valid_byte(b'z'));
    assert!(!ChunkType::is_valid_byte(b'['));
}

#[test]
fn png_round_trips_through_its_bytes() {
    let bytes = stream(&[chunk("FrSt", "one"), chunk("miDl", "two"), chunk("IEND", "")]);
    let png = Png::try_from(&bytes).unwrap();
    assert_eq!(png.as_bytes(), bytes);
    let again = Png::try_from(&png.as_bytes()).unwrap();
    assert_eq!(types(&again), vec!["FrSt", "miDl", "IEND"]);
    assert_eq!(texts(&again), vec!["one", "two", ""]);
}

#[test]
fn png_skips_fewer_than_four_trailing_bytes() {
    let bytes = stream(&[chunk("FrSt", "one"), chunk("IEND", "")]);
    let mut longer = bytes.clone();
    longer.extend([1, 2, 3]);
    let png = Png::try_from(&longer).unwrap();
    assert_eq!(png.as_bytes(), bytes);
}

#[test]
fn png_header_gate() {
    let body = stream(&[chunk("IEND", "")]);
    for i in 0..8 {
        let mut bytes = body.clone();
        bytes[i] ^= 0x40;
        let mut found = Png::EXPECTED_HEADER;
        found[i] ^= 0x40;
        assert_eq!(Png::try_from(&bytes).unwrap_err(), PngError::BadHeader { found });
    }
    assert_eq!(Png::try_from(&body[..7]).unwrap_err(), PngError::MissingHeader);
    assert_eq!(Png::try_from(&[]).unwrap_err(), PngError::MissingHeader);
}

#[test]
fn png_refuses_a_broken_chunk() {
    let mut bytes = stream(&[chunk("FrSt", "one"), chunk("IEND", "")]);
    let last = bytes.len() - 1;
    bytes[last] ^= 1;
    assert!(matches!(
        Png::try_from(&bytes).unwrap_err(),
        PngError::Chunk(ChunkError::CrcMismatch { .. })
    ));
    let mut short = stream(&[chunk("FrSt", "one")]);
    short.extend([0, 0, 0, 9, 73]);
    assert_eq!(Png::try_from(&short).unwrap_err(), PngError::Chunk(ChunkError::Truncated));
}

#[test]
fn insert_keeps_the_last_chunk_last() {
    let mut png = Png::from_chunks(vec![chunk("AAAa", "a"), chunk("BBBb", "b"), chunk("IEND", "")]);
    png.insert_chunk(chunk("XXXx", "x"));
    assert_eq!(types(&png), vec!["AAAa", "BBBb", "XXXx", "IEND"]);
}

#[test]
fn insert_into_an_empty_stream() {
    let mut png = Png::from_chunks(Vec::new());
    png.insert_chunk(chunk("XXXx", "x"));
    assert_eq!(types(&png), vec!["XXXx"]);
    assert_eq!(png.as_bytes(), stream(&[chunk("XXXx", "x")]));
}

#[test]
fn remove_takes_only_the_first_of_a_type() {
    let mut png =
        Png::from_chunks(vec![chunk("AAAa", "first"), chunk("BBBb", "b"), chunk("AAAa", "second")]);
    let removed = png.remove_chunk("AAAa").unwrap();
    assert_eq!(removed.data_as_string().unwrap(), "first");
    assert_eq!(types(&png), vec!["BBBb", "AAAa"]);
    assert_eq!(texts(&png), vec!["b", "second"]);
}

#[test]
fn remove_errors() {
    let mut png = Png::from_chunks(vec![chunk("AAAa", "a")]);
    assert_eq!(png.remove_chunk("ZZZz").unwrap_err(), RemoveError::NotFound);
    assert_eq!(
        png.remove_chunk("AA1a").unwrap_err(),
        RemoveError::BadTypeQuery(ChunkTypeError::InvalidByte { byte: b'1' })
    );
    assert_eq!(png.remove_chunk("AA").unwrap_err(), RemoveError::BadTypeQuery(ChunkTypeError::Format));
    assert_eq!(types(&png), vec!["AAAa"]);
}

#[test]
fn find_by_type() {
    let png = Png::from_chunks(vec![chunk("AAAa", "first"), chunk("AAAa", "second")]);
    assert_eq!(png.chunk_by_type("AAAa").unwrap().data_as_string().unwrap(), "first");
    assert!(png.chunk_by_type("BBBb").is_none());
    assert!(png.chunk_by_type("A1Aa").is_none());
    assert!(png.chunk_by_type("toolong").is_none());
}

#[test]
fn end_to_end_message() {
    let pristine = stream(&[chunk("IEND", "")]);
    let encoded = encode(&pristine, "teXt", "hello").unwrap();
    let png = Png::try_from(&encoded).unwrap();
    assert_eq!(types(&png), vec!["teXt", "IEND"]);
    assert_eq!(texts(&png), vec!["hello", ""]);
    assert_eq!(decode(&encoded, "teXt").unwrap(), Some(String::from("hello")));

    let mut edited = Png::try_from(&encoded).unwrap();
    let removed = edited.remove_chunk("teXt").unwrap();
    assert_eq!(removed.data_as_string().unwrap(), "hello");
    assert_eq!(types(&edited), vec!["IEND"]);

    let cleaned = remove(&encoded, "teXt").unwrap();
    assert_eq!(cleaned, pristine);
}

#[test]
fn command_errors() {
    let pristine = stream(&[chunk("IEND", "")]);
    assert_eq!(encode(&[1, 2, 3], "teXt", "x").unwrap_err(), CommandError::Png(PngError::MissingHeader));
    assert_eq!(
        encode(&pristine, "te1t", "x").unwrap_err(),
        CommandError::ChunkType(ChunkTypeError::InvalidByte { byte: b'1' })
    );
    assert_eq!(decode(&pristine, "teXt").unwrap(), None);
    assert_eq!(remove(&pristine, "teXt").unwrap_err(), CommandError::Remove(RemoveError::NotFound));
    let binary = {
        let mut png = Png::try_from(&pristine).unwrap();
        png.insert_chunk(Chunk::new(ChunkType::from_str("biNy").unwrap(), vec![0xff]));
        png.as_bytes()
    };
    assert_eq!(decode(&binary, "biNy").unwrap_err(), CommandError::Encoding(EncodingError));
}

#[test]
fn four_byte_reads() {
    let bytes = [1, 2, 3, 4, 5, 6];
    assert_eq!(four_bytes(&bytes, 1..5).unwrap(), [2, 3, 4, 5]);
    assert_eq!(four_bytes(&bytes, 1..4).unwrap_err().message(), "Range must contain exactly 4 indices");
    assert_eq!(four_bytes(&bytes, 3..7).unwrap_err().message(), "slice is shorter than the range");
    assert_eq!(u32_from_slice_range(&bytes, 0..4).unwrap(), 0x0102_0304);
    assert!(u32_from_slice_range(&bytes, 4..8).is_err());
}

#[test]
fn error_keeps_its_message() {
    assert_eq!(Error::new("oh no").message(), "oh no");
}
