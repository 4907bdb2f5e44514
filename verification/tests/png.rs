use pngme::chunk::{Chunk, ChunkErr};
use pngme::chunk_type::ChunkType;
use pngme::error::Error;
use pngme::png::{Png, PngErr, SIGNATURE};

/// A picture of one transparent pixel: header, image data, end.
fn one_pixel_file() -> Vec<u8> {
    vec![
        137, 80, 78, 71, 13, 10, 26, 10, 0, 0, 0, 13, 73, 72, 68, 82, 0, 0, 0, 1, 0, 0, 0, 1, 8, 6,
        0, 0, 0, 31, 21, 196, 137, 0, 0, 0, 10, 73, 68, 65, 84, 120, 156, 99, 0, 1, 0, 0, 5, 0, 1,
        13, 10, 45, 180, 0, 0, 0, 0, 73, 69, 78, 68, 174, 66, 96, 130,
    ]
}

fn chunk_of(tag: &str, payload: &[u8]) -> Chunk {
    Chunk::new(ChunkType::from_text(tag).unwrap(), payload.to_vec())
}

fn tags(png: &Png) -> Vec<String> {
    png.chunks().iter().map(|c| c.chunk_type().to_text().unwrap()).collect()
}

#[test]
fn signature_is_the_png_magic() {
    assert_eq!(SIGNATURE, [0x89, b'P', b'N', b'G', b'\r', b'\n', 0x1a, b'\n']);
    assert_eq!(Png::from_chunks(Vec::new()).header(), &SIGNATURE);
}

#[test]
fn parse_reads_the_chunks_in_order() {
    let png = Png::parse(&one_pixel_file()).unwrap();
    assert_eq!(tags(&png), ["IHDR", "IDAT", "IEND"]);
    assert_eq!(png.chunks()[0].length(), 13);
    assert_eq!(png.chunks()[0].data(), &[0, 0, 0, 1, 0, 0, 0, 1, 8, 6, 0, 0, 0]);
    assert_eq!(png.chunks()[0].crc(), 0x1f15_c489);
    assert_eq!(png.chunks()[1].length(), 10);
    assert_eq!(png.chunks()[2].length(), 0);
    assert_eq!(png.chunks()[2].crc(), 0xae42_6082);
}

#[test]
fn parse_then_as_bytes_gives_the_file_back() {
    let file = one_pixel_file();
    assert_eq!(Png::parse(&file).unwrap().as_bytes(), file);
    assert_eq!(Png::parse(&SIGNATURE).unwrap().as_bytes(), SIGNATURE);
}

#[test]
fn as_bytes_then_parse_gives_the_chunks_back() {
    let png = Png::from_chunks(vec![chunk_of("FrSt", b"I am the first chunk"), chunk_of("miDl", b""), chunk_of("LASt", &[0, 255])]);
    let bytes = png.as_bytes();
    assert_eq!(&bytes[..8], &SIGNATURE);
    assert_eq!(bytes.len(), 8 + 32 + 12 + 14);
    let again = Png::parse(&bytes).unwrap();
    assert_eq!(tags(&again), ["FrSt", "miDl", "LASt"]);
    assert_eq!(again.chunks()[0].data(), b"I am the first chunk");
    assert_eq!(again.chunks()[1].data(), b"");
    assert_eq!(again.chunks()[2].data(), &[0, 255]);
    assert_eq!(again.as_bytes(), bytes);
}

#[test]
fn try_from_parses_as_parse_does() {
    let file = one_pixel_file();
    let png = Png::try_from(file.as_slice()).unwrap();
    assert_eq!(png.as_bytes(), file);
    assert_eq!(Png::try_from(&file[..7]).err(), Some(Error::Png(PngErr::BadSignature)));
    assert_eq!(Png::try_from(&file[..20]).err(), Some(Error::Chunk(ChunkErr::ChunkLengthInvalid)));
}

#[test]
fn a_file_of_the_signature_alone_has_no_chunks() {
    let png = Png::parse(&SIGNATURE).unwrap();
    assert!(png.chunks().is_empty());
    assert_eq!(Png::from_chunks(Vec::new()).as_bytes(), SIGNATURE);
}

#[test]
fn parse_refuses_a_wrong_signature() {
    assert_eq!(Png::parse(&[]).err(), Some(Error::Png(PngErr::BadSignature)));
    assert_eq!(Png::parse(&SIGNATURE[..7]).err(), Some(Error::Png(PngErr::BadSignature)));
    for i in 0..8 {
        let mut file = one_pixel_file();
        file[i] ^= 1;
        assert_eq!(Png::parse(&file).err(), Some(Error::Png(PngErr::BadSignature)));
    }
    // The signature is checked before any chunk.
    let mut file = one_pixel_file();
    file[0] = 0;
    file.truncate(10);
    assert_eq!(Png::parse(&file).err(), Some(Error::Png(PngErr::BadSignature)));
}

#[test]
fn parse_reports_a_tail_shorter_than_a_chunk() {
    let file = one_pixel_file();
    for extra in 1..12 {
        let mut long = file.clone();
        long.extend(std::iter::repeat(0).take(extra));
        assert_eq!(Png::parse(&long).err(), Some(Error::Chunk(ChunkErr::ChunksLengthLess)));
    }
    assert_eq!(Png::parse(&file[..8 + 5]).err(), Some(Error::Chunk(ChunkErr::ChunksLengthLess)));
}

#[test]
fn parse_reports_a_length_that_runs_past_the_end() {
    let file = one_pixel_file();
    // The last chunk loses its final byte, and then the header chunk does.
    assert_eq!(Png::parse(&file[..file.len() - 1]).err(), Some(Error::Chunk(ChunkErr::ChunksLengthLess)));
    assert_eq!(Png::parse(&file[..8 + 24]).err(), Some(Error::Chunk(ChunkErr::ChunkLengthInvalid)));
    let mut huge = file.clone();
    huge[8] = 0xff;
    assert_eq!(Png::parse(&huge).err(), Some(Error::Chunk(ChunkErr::ChunkLengthInvalid)));
}

#[test]
fn parse_reports_a_bad_checksum_in_any_chunk() {
    let file = one_pixel_file();
    for at in [8 + 8, 8 + 24, 33 + 9, 33 + 21, 66] {
        let mut bad = file.clone();
        bad[at] ^= 0x10;
        assert_eq!(Png::parse(&bad).err(), Some(Error::Chunk(ChunkErr::ChunkCRCInvalid)));
    }
}

#[test]
fn parse_stops_at_the_first_chunk_that_fails() {
    let mut bad = one_pixel_file();
    bad[8 + 24] ^= 1;
    bad.truncate(bad.len() - 3);
    assert_eq!(Png::parse(&bad).err(), Some(Error::Chunk(ChunkErr::ChunkCRCInvalid)));
}

#[test]
fn append_chunk_puts_the_chunk_last() {
    let mut png = Png::parse(&one_pixel_file()).unwrap();
    png.append_chunk(chunk_of("ruSt", b"hello"));
    assert_eq!(tags(&png), ["IHDR", "IDAT", "IEND", "ruSt"]);
    let mut expected = one_pixel_file();
    expected.extend([0, 0, 0, 5, 114, 117, 83, 116, 104, 101, 108, 108, 111, 174, 80, 141, 111]);
    assert_eq!(png.as_bytes(), expected);
    // Nothing stops a second chunk of the same type.
    png.append_chunk(chunk_of("ruSt", b"again"));
    assert_eq!(tags(&png), ["IHDR", "IDAT", "IEND", "ruSt", "ruSt"]);
}

#[test]
fn chunk_by_type_finds_the_first_of_a_type() {
    let png = Png::from_chunks(vec![chunk_of("FrSt", b"one"), chunk_of("ruSt", b"two"), chunk_of("ruSt", b"three")]);
    assert_eq!(png.chunk_by_type("ruSt").unwrap().data(), b"two");
    assert_eq!(png.chunk_by_type("FrSt").unwrap().data(), b"one");
}

#[test]
fn chunk_by_type_on_an_absent_type_is_none() {
    let png = Png::parse(&one_pixel_file()).unwrap();
    assert!(png.chunk_by_type("ruSt").is_none());
    assert!(png.chunk_by_type("ihdr").is_none());
    assert!(png.chunk_by_type("IHD").is_none());
    assert!(png.chunk_by_type("IHDRx").is_none());
    assert!(png.chunk_by_type("").is_none());
    assert!(Png::from_chunks(Vec::new()).chunk_by_type("IHDR").is_none());
}

#[test]
fn remove_chunk_takes_out_the_first_of_a_type() {
    let mut png = Png::from_chunks(vec![chunk_of("FrSt", b"one"), chunk_of("ruSt", b"two"), chunk_of("LASt", b"x"), chunk_of("ruSt", b"three")]);
    let removed = png.remove_chunk("ruSt").unwrap();
    assert_eq!(removed.data(), b"two");
    assert_eq!(removed.chunk_type().bytes(), *b"ruSt");
    assert_eq!(tags(&png), ["FrSt", "LASt", "ruSt"]);
    assert_eq!(png.chunk_by_type("ruSt").unwrap().data(), b"three");
}

#[test]
fn remove_chunk_on_an_absent_type_fails_and_changes_nothing() {
    let mut png = Png::parse(&one_pixel_file()).unwrap();
    assert_eq!(png.remove_chunk("ruSt").err(), Some(Error::Png(PngErr::ChunkNotFound)));
    assert_eq!(png.as_bytes(), one_pixel_file());
}

#[test]
fn append_then_remove_restores_the_file() {
    let mut png = Png::parse(&one_pixel_file()).unwrap();
    png.append_chunk(chunk_of("ruSt", b"hello"));
    assert_eq!(png.chunk_by_type("ruSt").unwrap().data_as_string().unwrap(), "hello");
    png.remove_chunk("ruSt").unwrap();
    assert_eq!(png.as_bytes(), one_pixel_file());
}

#[test]
fn lookup_skips_types_that_are_no_text() {
    let odd = Chunk::new(ChunkType::from_bytes([0xff, b'u', b'S', b't']), vec![1]);
    let mut png = Png::from_chunks(vec![odd, chunk_of("ruSt", b"found")]);
    assert_eq!(png.chunk_by_type("ruSt").unwrap().data(), b"found");
    assert_eq!(png.remove_chunk("ruSt").unwrap().data(), b"found");
    assert_eq!(png.chunks().len(), 1);
}

#[test]
fn to_text_lists_type_and_length_of_each_chunk() {
    let png = Png::parse(&one_pixel_file()).unwrap();
    assert_eq!(png.to_text().unwrap(), "IHDR 13\nIDAT 10\nIEND 0\n");
    assert_eq!(Png::from_chunks(Vec::new()).to_text().unwrap(), "");
    let big = Png::from_chunks(vec![chunk_of("ruSt", &vec![0u8; 1205])]);
    assert_eq!(big.to_text().unwrap(), "ruSt 1205\n");
}

#[test]
fn to_text_fails_on_a_type_that_is_no_text() {
    let odd = Chunk::new(ChunkType::from_bytes([0xff, 0xff, 0xff, 0xff]), vec![1]);
    let png = Png::from_chunks(vec![chunk_of("ruSt", b"fine"), odd]);
    assert!(matches!(png.to_text(), Err(Error::Utf8(_))));
}

#[test]
fn png_error_messages() {
    assert_eq!(PngErr::BadSignature.message(), "File does not start with the PNG signature");
    assert_eq!(PngErr::ChunkNotFound.message(), "No chunk of this type in the file");
}
