use pngme::chunk::Chunk;
use pngme::chunk_type::ChunkType;
use pngme::png::{Png, PngError, STANDARD_HEADER};
use std::str::FromStr;

fn chunk_of(code: &str, data: &[u8]) -> Chunk {
    Chunk::new(ChunkType::from_str(code).unwrap(), data.to_vec())
}

fn file_of(chunks: &[Chunk]) -> Vec<u8> {
    let mut bytes = STANDARD_HEADER.to_vec();
    for chunk in chunks {
        bytes.extend(chunk.as_bytes());
    }
    bytes
}

fn header_chunk() -> Chunk {
    // A picture of one pixel: width 1, height 1, depth 8, colour type 0.
    chunk_of("IHDR", &[0, 0, 0, 1, 0, 0, 0, 1, 8, 0, 0, 0, 0])
}

fn minimal_file() -> Vec<u8> {
    file_of(&[header_chunk(), chunk_of("IEND", b"")])
}

fn types_of(png: &Png) -> Vec<String> {
    png.chunks().iter().map(|chunk| chunk.chunk_type().to_string()).collect()
}

#[test]
fn the_signature_is_the_png_magic() {
    assert_eq!(STANDARD_HEADER, [0x89, 0x50, 0x4E, 0x47, 0x0D, 0x0A, 0x1A, 0x0A]);
    let png = Png::try_from(minimal_file().as_slice()).unwrap();
    assert_eq!(png.header(), &[137, 80, 78, 71, 13, 10, 26, 10]);
    assert_eq!(&png.as_bytes()[..8], png.header());
}

#[test]
fn a_file_decodes_to_its_chunks_in_order() {
    let bytes = file_of(&[
        chunk_of("FrSt", b"I am the first chunk"),
        chunk_of("miDl", b"I am another chunk"),
        chunk_of("LASt", b"I am the last chunk"),
    ]);
    let png = Png::try_from(bytes.as_slice()).unwrap();
    assert_eq!(types_of(&png), ["FrSt", "miDl", "LASt"]);
    assert_eq!(png.chunks()[1].data(), b"I am another chunk");
    assert_eq!(png.as_bytes(), bytes);
}

#[test]
fn a_file_decodes_through_the_trait() {
    let bytes = minimal_file();
    let png: Png = TryFrom::try_from(bytes.as_slice()).unwrap();
    assert_eq!(types_of(&png), ["IHDR", "IEND"]);
    let none: Result<Png, PngError> = TryFrom::try_from(&b"not a png"[..]);
    assert_eq!(none.unwrap_err(), PngError::InvalidSignature);
}

#[test]
fn a_wrong_signature_is_reported() {
    let mut bytes = minimal_file();
    bytes[0] = 13;
    assert_eq!(Png::try_from(bytes.as_slice()).unwrap_err(), PngError::InvalidSignature);

    let mut bytes = minimal_file();
    bytes[7] ^= 1;
    assert_eq!(Png::try_from(bytes.as_slice()).unwrap_err(), PngError::InvalidSignature);

    assert_eq!(Png::try_from(&[][..]).unwrap_err(), PngError::InvalidSignature);
    assert_eq!(
        Png::try_from(&STANDARD_HEADER[..7]).unwrap_err(),
        PngError::InvalidSignature
    );
}

#[test]
fn the_signature_alone_is_a_file_without_chunks() {
    let png = Png::try_from(&STANDARD_HEADER[..]).unwrap();
    assert_eq!(png.chunks().len(), 0);
    assert_eq!(png.as_bytes(), STANDARD_HEADER.to_vec());
}

#[test]
fn a_file_ends_at_the_first_frame_that_does_not_decode() {
    let mut bytes = file_of(&[header_chunk(), chunk_of("ruSt", b"hello")]);
    let last = bytes.len() - 1;
    bytes[last] ^= 0x80;
    bytes.extend(chunk_of("IEND", b"").as_bytes());
    let png = Png::try_from(bytes.as_slice()).unwrap();
    assert_eq!(types_of(&png), ["IHDR"]);
    assert_eq!(png.as_bytes(), file_of(&[header_chunk()]));
}

#[test]
fn file_round_trip() {
    let files = [
        STANDARD_HEADER.to_vec(),
        minimal_file(),
        file_of(&[
            header_chunk(),
            chunk_of("tEXt", b"Comment\0hello"),
            chunk_of("IDAT", &(0u8..200).collect::<Vec<u8>>()),
            chunk_of("ruSt", b"secret"),
            chunk_of("IEND", b""),
        ]),
    ];
    for bytes in files {
        let png = Png::try_from(bytes.as_slice()).unwrap();
        let again = Png::try_from(png.as_bytes().as_slice()).unwrap();
        assert_eq!(png.as_bytes(), bytes);
        assert_eq!(&again.as_bytes()[..8], &STANDARD_HEADER);
        assert_eq!(again.chunks().len(), png.chunks().len());
        for (a, b) in again.chunks().iter().zip(png.chunks()) {
            assert_eq!(a.chunk_type(), b.chunk_type());
            assert_eq!(a.data(), b.data());
            assert_eq!(a.length(), b.length());
            assert_eq!(a.crc(), b.crc());
        }
    }
}

#[test]
fn a_new_chunk_goes_before_the_end_marker() {
    let mut png = Png::try_from(minimal_file().as_slice()).unwrap();
    png.append_chunk(chunk_of("ruSt", b"hello"));
    assert_eq!(types_of(&png), ["IHDR", "ruSt", "IEND"]);
    png.append_chunk(chunk_of("teSt", b"more"));
    assert_eq!(types_of(&png), ["IHDR", "ruSt", "teSt", "IEND"]);
    assert_eq!(
        png.as_bytes(),
        file_of(&[
            header_chunk(),
            chunk_of("ruSt", b"hello"),
            chunk_of("teSt", b"more"),
            chunk_of("IEND", b""),
        ])
    );
}

#[test]
fn a_new_chunk_goes_to_the_end_without_an_end_marker() {
    let mut png = Png::try_from(file_of(&[header_chunk()]).as_slice()).unwrap();
    png.append_chunk(chunk_of("ruSt", b"hello"));
    assert_eq!(types_of(&png), ["IHDR", "ruSt"]);

    // An end marker that is not the last chunk is no end marker.
    let bytes = file_of(&[chunk_of("IEND", b""), header_chunk()]);
    let mut png = Png::try_from(bytes.as_slice()).unwrap();
    png.append_chunk(chunk_of("ruSt", b"hello"));
    assert_eq!(types_of(&png), ["IEND", "IHDR", "ruSt"]);

    let mut png = Png::try_from(&STANDARD_HEADER[..]).unwrap();
    png.append_chunk(chunk_of("IEND", b""));
    assert_eq!(types_of(&png), ["IEND"]);
    png.append_chunk(chunk_of("IEND", b""));
    assert_eq!(types_of(&png), ["IEND", "IEND"]);
    png.append_chunk(chunk_of("ruSt", b""));
    assert_eq!(types_of(&png), ["IEND", "ruSt", "IEND"]);
}

#[test]
fn append_then_remove_restores_the_chunks() {
    let files = [
        minimal_file(),
        file_of(&[header_chunk()]),
        STANDARD_HEADER.to_vec(),
        file_of(&[
            header_chunk(),
            chunk_of("tEXt", b"a"),
            chunk_of("tEXt", b"b"),
            chunk_of("IEND", b""),
        ]),
    ];
    for bytes in files {
        let mut png = Png::try_from(bytes.as_slice()).unwrap();
        png.append_chunk(chunk_of("ruSt", b"hello"));
        assert_ne!(png.as_bytes(), bytes);
        assert_eq!(png.remove_chunk("ruSt"), Ok(()));
        assert_eq!(png.as_bytes(), bytes);
    }
}

#[test]
fn remove_takes_the_first_chunk_of_the_type_only() {
    let bytes = file_of(&[
        header_chunk(),
        chunk_of("tEXt", b"first"),
        chunk_of("ruSt", b"between"),
        chunk_of("tEXt", b"second"),
        chunk_of("IEND", b""),
    ]);
    let mut png = Png::try_from(bytes.as_slice()).unwrap();
    assert_eq!(png.remove_chunk("tEXt"), Ok(()));
    assert_eq!(types_of(&png), ["IHDR", "ruSt", "tEXt", "IEND"]);
    assert_eq!(png.chunks()[2].data(), b"second");
    assert_eq!(png.remove_chunk("tEXt"), Ok(()));
    assert_eq!(types_of(&png), ["IHDR", "ruSt", "IEND"]);
    assert_eq!(png.remove_chunk("tEXt"), Err(PngError::ChunkNotFound));
    assert_eq!(types_of(&png), ["IHDR", "ruSt", "IEND"]);
}

#[test]
fn a_type_that_is_absent_is_not_found() {
    let bytes = minimal_file();
    let mut png = Png::try_from(bytes.as_slice()).unwrap();
    assert!(png.chunk_by_type("ruSt").is_none());
    assert_eq!(png.remove_chunk("ruSt"), Err(PngError::ChunkNotFound));
    assert_eq!(png.as_bytes(), bytes);
    // The case of the letters counts.
    assert!(png.chunk_by_type("iend").is_none());
    assert!(png.chunk_by_type("IEND").is_some());
    // Text that is no type code matches nothing.
    for text in ["", "IEN", "IENDx", "IE D", "\u{e9}\u{e9}"] {
        assert!(png.chunk_by_type(text).is_none());
        assert_eq!(png.remove_chunk(text), Err(PngError::ChunkNotFound));
    }
    assert_eq!(png.as_bytes(), bytes);
}

#[test]
fn lookup_finds_the_first_chunk_of_the_type() {
    let bytes = file_of(&[
        header_chunk(),
        chunk_of("tEXt", b"first"),
        chunk_of("tEXt", b"second"),
        chunk_of("IEND", b""),
    ]);
    let png = Png::try_from(bytes.as_slice()).unwrap();
    let found = png.chunk_by_type("tEXt").unwrap();
    assert_eq!(found.data(), b"first");
    assert_eq!(found.chunk_type().to_string(), "tEXt");
    assert_eq!(png.chunk_by_type("IHDR").unwrap().length(), 13);
}

#[test]
fn a_hidden_message_survives_encoding_and_decoding() {
    let mut png = Png::try_from(minimal_file().as_slice()).unwrap();
    let chunk = Chunk::new(ChunkType::from_str("ruSt").unwrap(), "secret".as_bytes().to_vec());
    png.append_chunk(chunk);
    let bytes = png.as_bytes();
    let again = Png::try_from(bytes.as_slice()).unwrap();
    let found = again.chunk_by_type("ruSt").unwrap();
    assert_eq!(found.data_as_string().unwrap(), "secret");
    assert_eq!(types_of(&again), ["IHDR", "ruSt", "IEND"]);
}
