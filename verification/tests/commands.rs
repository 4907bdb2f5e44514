use pngme::args::{ArgsKind, DecodeArgs, EncodeArgs, PrintArgs, RemoveArgs};
use pngme::chunk::ChunkErr;
use pngme::chunk_type::ChunkType;
use pngme::commands::Command;
use pngme::error::Error;
use pngme::png::{Png, PngErr};

/// The signature and one chunk: the smallest file that holds anything.
fn small_file() -> Vec<u8> {
    vec![137, 80, 78, 71, 13, 10, 26, 10, 0, 0, 0, 0, 73, 69, 78, 68, 174, 66, 96, 130]
}

fn types_of(file: &[u8]) -> Vec<String> {
    let png = Png::parse(file).unwrap();
    png.chunks().iter().map(|c| c.chunk_type().to_text().unwrap()).collect()
}

#[test]
fn encode_decode_remove_end_to_end() {
    let encode = ArgsKind::Encode(EncodeArgs::new("in.png", "ruSt", "hello", "out.png").unwrap());
    let encoded = Command::run(encode, &small_file()).unwrap();
    assert_eq!(encoded.message, None);
    let (path, bytes) = encoded.write.unwrap();
    assert_eq!(path, "out.png");
    assert_eq!(types_of(&bytes), ["IEND", "ruSt"]);
    let mut expected = small_file();
    expected.extend([0, 0, 0, 5, 114, 117, 83, 116, 104, 101, 108, 108, 111, 174, 80, 141, 111]);
    assert_eq!(bytes, expected);

    let decode = ArgsKind::Decode(DecodeArgs::new("out.png", "ruSt").unwrap());
    let decoded = Command::run(decode, &bytes).unwrap();
    assert_eq!(decoded.message.as_deref(), Some("hello"));
    assert_eq!(decoded.write, None);

    let remove = ArgsKind::Remove(RemoveArgs::new("out.png", "ruSt").unwrap());
    let removed = Command::run(remove, &bytes).unwrap();
    assert_eq!(removed.message.as_deref(), Some("Removed chunk: ruSt from file out.png"));
    let (path, bytes) = removed.write.unwrap();
    assert_eq!(path, "out.png");
    assert_eq!(types_of(&bytes), ["IEND"]);
    assert_eq!(bytes, small_file());
}

#[test]
fn encode_takes_the_message_as_utf8_bytes() {
    let encode = ArgsKind::Encode(EncodeArgs::new("a", "teXt", "gr\u{fc}n", "b").unwrap());
    let (_, bytes) = Command::run(encode, &small_file()).unwrap().write.unwrap();
    let png = Png::parse(&bytes).unwrap();
    assert_eq!(png.chunks()[1].data(), &[b'g', b'r', 0xc3, 0xbc, b'n']);
    assert_eq!(png.chunks()[1].length(), 5);
}

#[test]
fn decode_and_remove_report_an_absent_type() {
    let decode = ArgsKind::Decode(DecodeArgs::new("in.png", "ruSt").unwrap());
    assert_eq!(Command::run(decode, &small_file()).err(), Some(Error::Png(PngErr::ChunkNotFound)));
    let remove = ArgsKind::Remove(RemoveArgs::new("in.png", "ruSt").unwrap());
    assert_eq!(Command::run(remove, &small_file()).err(), Some(Error::Png(PngErr::ChunkNotFound)));
}

#[test]
fn decode_takes_the_first_chunk_of_the_type() {
    let first = ArgsKind::Encode(EncodeArgs::new("a", "ruSt", "first", "b").unwrap());
    let (_, bytes) = Command::run(first, &small_file()).unwrap().write.unwrap();
    let second = ArgsKind::Encode(EncodeArgs::new("b", "ruSt", "second", "c").unwrap());
    let (_, bytes) = Command::run(second, &bytes).unwrap().write.unwrap();
    let decode = ArgsKind::Decode(DecodeArgs::new("c", "ruSt").unwrap());
    assert_eq!(Command::run(decode, &bytes).unwrap().message.as_deref(), Some("first"));
    let remove = ArgsKind::Remove(RemoveArgs::new("c", "ruSt").unwrap());
    let (path, bytes) = Command::run(remove, &bytes).unwrap().write.unwrap();
    assert_eq!(path, "c");
    let decode = ArgsKind::Decode(DecodeArgs::new("c", "ruSt").unwrap());
    assert_eq!(Command::run(decode, &bytes).unwrap().message.as_deref(), Some("second"));
}

#[test]
fn decode_fails_on_a_payload_that_is_no_text() {
    let decode = ArgsKind::Decode(DecodeArgs::new("in.png", "IDAT").unwrap());
    let file = vec![
        137, 80, 78, 71, 13, 10, 26, 10, 0, 0, 0, 10, 73, 68, 65, 84, 120, 156, 99, 0, 1, 0, 0, 5,
        0, 1, 13, 10, 45, 180,
    ];
    assert!(matches!(Command::run(decode, &file), Err(Error::Utf8(_))));
}

#[test]
fn decode_fails_on_a_type_that_is_no_text() {
    let args = DecodeArgs { file_path: String::from("in.png"), chunk_type: ChunkType::from_bytes([0xff; 4]) };
    assert!(matches!(Command::run(ArgsKind::Decode(args), &small_file()), Err(Error::Utf8(_))));
}

#[test]
fn print_lists_the_chunks() {
    let print = ArgsKind::Print(PrintArgs::new("in.png").unwrap());
    let outcome = Command::run(print, &small_file()).unwrap();
    assert_eq!(outcome.message.as_deref(), Some("IEND 0\n"));
    assert_eq!(outcome.write, None);
}

#[test]
fn every_subcommand_fails_on_a_file_that_does_not_parse() {
    let mut bad = small_file();
    bad[19] ^= 1;
    let all = [
        ArgsKind::Encode(EncodeArgs::new("a", "ruSt", "m", "b").unwrap()),
        ArgsKind::Decode(DecodeArgs::new("a", "ruSt").unwrap()),
        ArgsKind::Remove(RemoveArgs::new("a", "ruSt").unwrap()),
        ArgsKind::Print(PrintArgs::new("a").unwrap()),
    ];
    for args in all {
        assert_eq!(Command::run(args, &bad).err(), Some(Error::Chunk(ChunkErr::ChunkCRCInvalid)));
    }
    let print = ArgsKind::Print(PrintArgs::new("a").unwrap());
    assert_eq!(Command::run(print, b"not a png").err(), Some(Error::Png(PngErr::BadSignature)));
}
