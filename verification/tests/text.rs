use ucodectl::amd::container::BySignature;
use ucodectl::bytes::{all_zero_from, get_le16, get_le32, get_slice, put_le32};
use ucodectl::model::cpu::CpuSignature;
use ucodectl::number::{dec_pad_text, dec_text, hex_bytes_text, hex_text, parse_u32, NumberError};
use ucodectl::order::sort;
use ucodectl::text::{
    chars_of, lines, split, split_first_word, str_contains, str_ends_with, str_less,
    string_of, to_lower, trim,
};

fn words(v: Vec<Vec<char>>) -> Vec<String> {
    v.iter().map(|w| w.iter().collect()).collect()
}

#[test]
fn numbers_are_written() {
    assert_eq!(hex_text(0xb4, 8), "000000b4");
    assert_eq!(hex_text(0x1ff, 2), "1ff");
    assert_eq!(dec_text(0), "0");
    assert_eq!(dec_text(u64::MAX), "18446744073709551615");
    assert_eq!(dec_pad_text(7, 2), "07");
    assert_eq!(hex_bytes_text(&[0, 0xff]), "00ff");
}

#[test]
fn numbers_are_read() {
    let p = |s: &str, base: u32| parse_u32(&chars_of(s), base);
    assert_eq!(p("ffffffff", 16), Ok(u32::MAX));
    assert_eq!(p("FF", 16), Ok(255));
    assert_eq!(p("+7", 10), Ok(7));
    assert_eq!(p("", 10), Err(NumberError::Empty));
    assert_eq!(p("+", 10), Err(NumberError::InvalidDigit));
    assert_eq!(p("-1", 10), Err(NumberError::InvalidDigit));
    assert_eq!(p("4294967296", 10), Err(NumberError::Overflow));
}

#[test]
fn numbers_round_trip() {
    for v in [0u32, 9, 0xdead, u32::MAX] {
        assert_eq!(parse_u32(&chars_of(&hex_text(v as u64, 8)), 16), Ok(v));
        assert_eq!(parse_u32(&chars_of(&dec_text(v as u64)), 10), Ok(v));
    }
}

#[test]
fn text_is_searched_and_cut() {
    assert!(str_contains("GenuineIntel.bin", "Intel"));
    assert!(!str_contains("abc", "abd"));
    assert!(str_contains("abc", ""));
    assert!(str_ends_with("a/b.bin", "b.bin"));
    assert!(str_less("a", "b") && str_less("a", "aa") && !str_less("b", "a"));
    assert_eq!(string_of(trim(&chars_of(" \t a b\n"))), "a b");
    assert_eq!(string_of(&to_lower(&chars_of("AbÄ"))), "abÄ");
    assert_eq!(words(split(&chars_of("a,,b"), ',')), vec!["a", "", "b"]);
    assert_eq!(words(lines(&chars_of("a\r\nb\n\nc"))), vec!["a", "b", "", "c"]);
    assert_eq!(split_first_word(&chars_of("  x y")).map(string_of).as_deref(), Some("x"));
    assert_eq!(split_first_word(&chars_of("  ")), None);
}

#[test]
fn words_are_little_endian() {
    let mut out: Vec<u8> = vec![9];
    put_le32(&mut out, 0x0403_0201);
    assert_eq!(out, vec![9, 1, 2, 3, 4]);
    assert_eq!(get_le32(&out, 1), 0x0403_0201);
    assert_eq!(get_le16(&out, 3), 0x0403);
    assert!(all_zero_from(&[1, 0, 0], 1));
    assert!(!all_zero_from(&[1, 0, 0], 0));
    assert_eq!(get_slice(&out, 1, 2), Some(&[1u8, 2][..]));
    assert_eq!(get_slice(&out, 4, 2), None);
}

#[test]
fn sorting_follows_the_order() {
    let v = vec![CpuSignature(7), CpuSignature(3), CpuSignature(9), CpuSignature(3)];
    let s = sort::<CpuSignature, BySignature>(v);
    assert_eq!(s, vec![CpuSignature(3), CpuSignature(3), CpuSignature(7), CpuSignature(9)]);
}
