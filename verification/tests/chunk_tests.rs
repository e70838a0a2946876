use pngme::chunk::Chunk;
use pngme::chunk_type::ChunkType;
use pngme::error::PngError;
use pngme::utils::{read_be_u32, u32_be_bytes};
use std::convert::TryFrom;
use std::str::FromStr;

fn record(data_length: u32, chunk_type: &[u8], message_bytes: &[u8], crc: u32) -> Vec<u8> {
    data_length
        .to_be_bytes()
        .iter()
        .chain(chunk_type.iter())
        .chain(message_bytes.iter())
        .chain(crc.to_be_bytes().iter())
        .copied()
        .collect()
}

fn testing_chunk() -> Chunk {
    let data_length: u32 = 42;
    let chunk_type = "RuSt".as_bytes();
    let message_bytes = "This is where your secret message will be!".as_bytes();
    let crc: u32 = 2882656334;

    let chunk_data: Vec<u8> = data_length
        .to_be_bytes()
        .iter()
        .chain(chunk_type.iter())
        .chain(message_bytes.iter())
        .chain(crc.to_be_bytes().iter())
        .copied()
        .collect();
    Chunk::try_from(chunk_data.as_ref()).unwrap()
}

#[test]
fn test_new_chunk() {
    let chunk_type = ChunkType::from_str("RuSt").unwrap();
    let data = "This is where your secret message will be!"
        .as_bytes()
        .to_vec();
    let chunk = Chunk::new(chunk_type, data);
    assert_eq!(chunk.length(), 42);
    assert_eq!(chunk.crc(), 2882656334);
}

#[test]
fn test_chunk_length() {
    let chunk = testing_chunk();
    assert_eq!(chunk.length(), 42);
}

#[test]
fn test_chunk_type() {
    let chunk = testing_chunk();
    assert_eq!(chunk.chunk_type().to_string(), String::from("RuSt"));
}

#[test]
fn test_chunk_string() {
    let chunk = testing_chunk();
    let chunk_string = chunk.data_as_string().unwrap();
    let expected_chunk_string = String::from("This is where your secret message will be!");
    assert_eq!(chunk_string, expected_chunk_string);
}

#[test]
fn test_chunk_crc() {
    let chunk = testing_chunk();
    assert_eq!(chunk.crc(), 2882656334);
}

#[test]
fn test_valid_chunk_from_bytes() {
    let data_length: u32 = 42;
    let chunk_type = "RuSt".as_bytes();
    let message_bytes = "This is where your secret message will be!".as_bytes();
    let crc: u32 = 2882656334;

    let chunk_data: Vec<u8> = data_length
        .to_be_bytes()
        .iter()
        .chain(chunk_type.iter())
        .chain(message_bytes.iter())
        .chain(crc.to_be_bytes().iter())
        .copied()
        .collect();

    let chunk = Chunk::try_from(chunk_data.as_ref()).unwrap();

    let chunk_string = chunk.data_as_string().unwrap();
    let expected_chunk_string = String::from("This is where your secret message will be!");

    assert_eq!(chunk.length(), 42);
    assert_eq!(chunk.chunk_type().to_string(), String::from("RuSt"));
    assert_eq!(chunk_string, expected_chunk_string);
    assert_eq!(chunk.crc(), 2882656334);
}

#[test]
fn test_invalid_chunk_from_bytes() {
    let data_length: u32 = 42;
    let chunk_type = "RuSt".as_bytes();
    let message_bytes = "This is where your secret message will be!".as_bytes();
    let crc: u32 = 2882656333;

    let chunk_data: Vec<u8> = data_length
        .to_be_bytes()
        .iter()
        .chain(chunk_type.iter())
        .chain(message_bytes.iter())
        .chain(crc.to_be_bytes().iter())
        .copied()
        .collect();

    let chunk = Chunk::try_from(chunk_data.as_ref());

    assert!(chunk.is_err());
}

#[test]
pub fn test_chunk_trait_impls() {
    let data_length: u32 = 42;
    let chunk_type = "RuSt".as_bytes();
    let message_bytes = "This is where your secret message will be!".as_bytes();
    let crc: u32 = 2882656334;

    let chunk_data: Vec<u8> = data_length
        .to_be_bytes()
        .iter()
        .chain(chunk_type.iter())
        .chain(message_bytes.iter())
        .chain(crc.to_be_bytes().iter())
        .copied()
        .collect();

    let chunk: Chunk = TryFrom::try_from(chunk_data.as_ref()).unwrap();

    let _chunk_string = chunk.to_string();
}

#[test]
fn test_chunk_as_bytes_exact() {
    let chunk = Chunk::new(ChunkType::from_str("RuSt").unwrap(), b"This is where your secret message will be!".to_vec());
    let bytes = chunk.as_bytes();
    assert_eq!(bytes.len(), 54);
    assert_eq!(&bytes[0..4], &[0, 0, 0, 42]);
    assert_eq!(&bytes[4..8], b"RuSt");
    assert_eq!(&bytes[8..50], b"This is where your secret message will be!".as_slice());
    // 2882656334 == 0xABD1D84E
    assert_eq!(&bytes[50..54], &[0xAB, 0xD1, 0xD8, 0x4E]);
    assert_eq!(bytes, record(42, b"RuSt", b"This is where your secret message will be!", 2882656334));
}

#[test]
fn test_chunk_empty_payload() {
    let chunk = Chunk::new(ChunkType::from_str("IEND").unwrap(), Vec::new());
    assert_eq!(chunk.length(), 0);
    // The well-known checksum that closes every PNG file.
    assert_eq!(chunk.crc(), 0xAE426082);
    let bytes = chunk.as_bytes();
    assert_eq!(bytes, vec![0, 0, 0, 0, 73, 69, 78, 68, 0xAE, 0x42, 0x60, 0x82]);
    let back = Chunk::try_from(bytes.as_slice()).unwrap();
    assert_eq!(back.length(), 0);
    assert_eq!(back.data(), &[] as &[u8]);
    assert_eq!(back.data_as_string().unwrap(), "");
}

#[test]
fn test_chunk_round_trip() {
    let payloads: Vec<Vec<u8>> = vec![
        Vec::new(),
        vec![0],
        b"hello".to_vec(),
        vec![0xff, 0xfe, 0x00, 0x80],
        (0..=255u8).collect(),
    ];
    for name in ["RuSt", "IHDR", "tEXt", "abcd"] {
        for d in payloads.iter() {
            let t = ChunkType::from_str(name).unwrap();
            let chunk = Chunk::new(t, d.clone());
            let back = Chunk::try_from(chunk.as_bytes().as_slice()).unwrap();
            assert_eq!(back.length() as usize, d.len());
            assert_eq!(back.chunk_type(), &ChunkType::from_str(name).unwrap());
            assert_eq!(back.data(), d.as_slice());
            assert_eq!(back.crc(), chunk.crc());
            assert_eq!(back.as_bytes(), chunk.as_bytes());
        }
    }
}

#[test]
fn test_chunk_tamper_every_byte() {
    let chunk = Chunk::new(ChunkType::from_str("RuSt").unwrap(), b"secret".to_vec());
    let good = chunk.as_bytes();
    assert!(Chunk::try_from(good.as_slice()).is_ok());
    for i in 0..good.len() {
        for flip in [0x01u8, 0x20, 0x80, 0xff] {
            let mut bad = good.clone();
            bad[i] ^= flip;
            let r = Chunk::try_from(bad.as_slice());
            assert_eq!(r.err(), Some(PngError::ChunkError), "byte {} flipped by {}", i, flip);
        }
    }
}

#[test]
fn test_chunk_too_short() {
    for n in 0..12usize {
        let bytes = vec![0u8; n];
        assert_eq!(Chunk::try_from(bytes.as_slice()).err(), Some(PngError::ChunkError));
    }
}

#[test]
fn test_chunk_length_mismatch() {
    let mut bytes = record(42, b"RuSt", b"This is where your secret message will be!", 2882656334);
    bytes.push(0);
    assert_eq!(Chunk::try_from(bytes.as_slice()).err(), Some(PngError::ChunkError));
    let bytes = record(41, b"RuSt", b"This is where your secret message will be!", 2882656334);
    assert_eq!(Chunk::try_from(bytes.as_slice()).err(), Some(PngError::ChunkError));
    let bytes = record(43, b"RuSt", b"This is where your secret message will be!", 2882656334);
    assert_eq!(Chunk::try_from(bytes.as_slice()).err(), Some(PngError::ChunkError));
}

#[test]
fn test_chunk_bad_type_with_good_checksum() {
    let body = b"Ru1tpayload";
    let crc = crc::Crc::<u32>::new(&crc::CRC_32_ISO_HDLC).checksum(body);
    let bytes = record(7, b"Ru1t", b"payload", crc);
    assert_eq!(Chunk::try_from(bytes.as_slice()).err(), Some(PngError::ChunkTypeError));
    // The checksum is looked at before the type.
    let bytes = record(7, b"Ru1t", b"payload", crc ^ 1);
    assert_eq!(Chunk::try_from(bytes.as_slice()).err(), Some(PngError::ChunkError));
}

#[test]
fn test_decode_with_checksum() {
    let bytes = record(3, b"RuSt", b"abc", 0x01020304);
    let (t, d) = Chunk::decode_with_checksum(bytes.as_slice(), 0x01020304).unwrap();
    assert_eq!(t.bytes(), *b"RuSt");
    assert_eq!(d, b"abc".to_vec());
    assert_eq!(
        Chunk::decode_with_checksum(bytes.as_slice(), 0x01020305).err(),
        Some(PngError::ChunkError)
    );
    let short = [0u8; 11];
    assert_eq!(Chunk::decode_with_checksum(&short, 0).err(), Some(PngError::ChunkError));
    let bytes = record(4, b"RuSt", b"abc", 7);
    assert_eq!(Chunk::decode_with_checksum(bytes.as_slice(), 7).err(), Some(PngError::ChunkError));
    let bytes = record(3, b"R St", b"abc", 7);
    assert_eq!(
        Chunk::decode_with_checksum(bytes.as_slice(), 7).err(),
        Some(PngError::ChunkTypeError)
    );
    assert_eq!(Chunk::decode_with_checksum(bytes.as_slice(), 8).err(), Some(PngError::ChunkError));
}

#[test]
fn test_chunk_data_not_utf8() {
    let chunk = Chunk::new(ChunkType::from_str("RuSt").unwrap(), vec![0x66, 0x6f, 0xff, 0x6f]);
    assert_eq!(chunk.data_as_string(), Err(PngError::FormatError));
    let chunk = Chunk::new(ChunkType::from_str("RuSt").unwrap(), vec![0xc3]);
    assert_eq!(chunk.data_as_string(), Err(PngError::FormatError));
    // An overlong encoding and a surrogate are not valid either.
    let chunk = Chunk::new(ChunkType::from_str("RuSt").unwrap(), vec![0xc0, 0x80]);
    assert_eq!(chunk.data_as_string(), Err(PngError::FormatError));
    let chunk = Chunk::new(ChunkType::from_str("RuSt").unwrap(), vec![0xed, 0xa0, 0x80]);
    assert_eq!(chunk.data_as_string(), Err(PngError::FormatError));
}

#[test]
fn test_chunk_data_multibyte_text() {
    let text = "h\u{e9}llo \u{4e16}\u{754c} \u{1f980}";
    let chunk = Chunk::new(ChunkType::from_str("tEXt").unwrap(), text.as_bytes().to_vec());
    assert_eq!(chunk.data_as_string().unwrap(), text);
    assert_eq!(chunk.length() as usize, text.len());
}

#[test]
fn test_chunk_to_string_exact() {
    let chunk = testing_chunk();
    assert_eq!(
        chunk.to_string(),
        "data_length:42,chunk_type:RuSt,chunk_data:This is where your secret message will be!, crc:2882656334"
    );
    let chunk = Chunk::new(ChunkType::from_str("IEND").unwrap(), Vec::new());
    assert_eq!(chunk.to_string(), "data_length:0,chunk_type:IEND,chunk_data:, crc:2923585666");
}

#[test]
fn test_chunk_to_string_lossy() {
    let chunk = Chunk::new(ChunkType::from_str("RuSt").unwrap(), vec![0x66, 0xff, 0x6f]);
    let crc = chunk.crc();
    assert_eq!(
        chunk.to_string(),
        format!("data_length:3,chunk_type:RuSt,chunk_data:f\u{fffd}o, crc:{}", crc)
    );
}

#[test]
fn test_chunk_describe() {
    let chunk = Chunk::new(ChunkType::from_str("IEND").unwrap(), Vec::new());
    assert_eq!(
        chunk.describe("<none>"),
        "data_length:0,chunk_type:IEND,chunk_data:<none>, crc:2923585666"
    );
}

#[test]
fn test_big_endian() {
    assert_eq!(u32_be_bytes(0x01020304), [1, 2, 3, 4]);
    assert_eq!(u32_be_bytes(0), [0, 0, 0, 0]);
    assert_eq!(u32_be_bytes(u32::MAX), [255, 255, 255, 255]);
    assert_eq!(u32_be_bytes(42), [0, 0, 0, 42]);
    assert_eq!(u32_be_bytes(2882656334), [0xAB, 0xD1, 0xD8, 0x4E]);
    assert_eq!(read_be_u32(&[1, 2, 3, 4]), 0x01020304);
    assert_eq!(read_be_u32(&[0, 0, 0, 0]), 0);
    assert_eq!(read_be_u32(&[255, 255, 255, 255]), u32::MAX);
    assert_eq!(read_be_u32(&[0xAB, 0xD1, 0xD8, 0x4E]), 2882656334);
    for x in [0u32, 1, 255, 256, 65535, 65536, 16777215, 16777216, 0x80000000, u32::MAX] {
        assert_eq!(u32_be_bytes(x), x.to_be_bytes());
        assert_eq!(read_be_u32(&x.to_be_bytes()), x);
    }
}
