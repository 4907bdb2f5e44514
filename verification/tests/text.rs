use pngme::error::Error;
use pngme::text::{decode, push_decimal, same_text};
use pngme::wire::{push_be_u32, read_be_u32};

#[test]
fn decode_reads_utf8() {
    assert_eq!(decode(b"hello").unwrap(), "hello");
    assert_eq!(decode(b"").unwrap(), "");
    assert_eq!(decode(&[0xe2, 0x82, 0xac]).unwrap(), "\u{20ac}");
    assert!(matches!(decode(&[0xe2, 0x82]), Err(Error::Utf8(_))));
    assert!(matches!(decode(&[0x80]), Err(Error::Utf8(_))));
    // A surrogate and an overlong form are no UTF-8.
    assert!(matches!(decode(&[0xed, 0xa0, 0x80]), Err(Error::Utf8(_))));
    assert!(matches!(decode(&[0xc0, 0xaf]), Err(Error::Utf8(_))));
}

#[test]
fn same_text_compares_whole_texts() {
    assert!(same_text("encode", "encode"));
    assert!(same_text("", ""));
    assert!(!same_text("encode", "decode"));
    assert!(!same_text("encode", "encod"));
    assert!(!same_text("print", "printer"));
}

#[test]
fn push_decimal_writes_digits_without_leading_zeros() {
    for (n, text) in [(0u64, "0"), (7, "7"), (10, "10"), (42, "42"), (1205, "1205"), (4294967295, "4294967295"), (u64::MAX, "18446744073709551615")] {
        let mut out = String::from("n=");
        push_decimal(&mut out, n);
        assert_eq!(out, format!("n={}", text));
    }
}

#[test]
fn big_endian_numbers() {
    let bytes = [0xff, 0x01, 0x02, 0x03, 0x04, 0xff];
    assert_eq!(read_be_u32(&bytes, 1), 0x0102_0304);
    assert_eq!(read_be_u32(&bytes, 0), 0xff01_0203);
    assert_eq!(read_be_u32(&bytes, 2), 0x0203_04ff);
    assert_eq!(read_be_u32(&[0, 0, 0, 0], 0), 0);
    assert_eq!(read_be_u32(&[255, 255, 255, 255], 0), u32::MAX);

    let mut out = vec![9u8];
    push_be_u32(&mut out, 0x0102_0304);
    push_be_u32(&mut out, 0);
    push_be_u32(&mut out, u32::MAX);
    push_be_u32(&mut out, 2882656334);
    assert_eq!(out, [9, 1, 2, 3, 4, 0, 0, 0, 0, 255, 255, 255, 255, 171, 209, 216, 78]);
}
