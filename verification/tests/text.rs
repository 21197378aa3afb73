use watch_list::text::{
    append_decimal, append_padded, chars_of, count_digits, decimal_text, digit_of, digit_text,
    range_is, read_unsigned, read_unsigned_in, same_text, tail_is,
};

fn read(text: &str, max: u32) -> Option<u32> {
    read_unsigned(&chars_of(text), 0, max)
}

#[test]
fn characters_of_a_text() {
    assert_eq!(chars_of("aй日"), vec!['a', 'й', '日']);
    assert!(chars_of("").is_empty());
}

#[test]
fn numbers_are_read() {
    assert_eq!(read("0", 255), Some(0));
    assert_eq!(read("7", 255), Some(7));
    assert_eq!(read("255", 255), Some(255));
    assert_eq!(read("+255", 255), Some(255));
    assert_eq!(read("000000000000000000000000255", 255), Some(255));
    assert_eq!(read("4294967295", u32::MAX), Some(4294967295));
}

#[test]
fn numbers_beyond_the_limit_are_not_read() {
    assert_eq!(read("256", 255), None);
    assert_eq!(read("65536", 65535), None);
    assert_eq!(read("4294967296", u32::MAX), None);
    assert_eq!(read("99999999999999999999999999999", u32::MAX), None);
}

#[test]
fn what_is_no_number_is_not_read() {
    assert_eq!(read("", 255), None);
    assert_eq!(read("+", 255), None);
    assert_eq!(read("-", 255), None);
    assert_eq!(read("-1", 255), None);
    assert_eq!(read("++1", 255), None);
    assert_eq!(read("1+", 255), None);
    assert_eq!(read(" 1", 255), None);
    assert_eq!(read("1 ", 255), None);
    assert_eq!(read("1a", 255), None);
    assert_eq!(read("٣", 255), None);
}

#[test]
fn numbers_are_read_from_a_part_of_a_text() {
    let chars = chars_of("ab12/34");
    assert_eq!(read_unsigned(&chars, 2, 100), None);
    assert_eq!(read_unsigned(&chars, 5, 100), Some(34));
    assert_eq!(read_unsigned(&chars, 7, 100), None);
    assert_eq!(read_unsigned_in(&chars, 2, 4, 100), Some(12));
    assert_eq!(read_unsigned_in(&chars, 2, 3, 100), Some(1));
    assert_eq!(read_unsigned_in(&chars, 2, 2, 100), None);
    assert_eq!(read_unsigned_in(&chars, 1, 4, 100), None);
}

#[test]
fn digits() {
    assert_eq!(digit_of('0'), Some(0));
    assert_eq!(digit_of('9'), Some(9));
    assert_eq!(digit_of('/'), None);
    assert_eq!(digit_of(':'), None);
    assert_eq!(digit_of('a'), None);
    let written: Vec<&str> = (0u8..10).map(digit_text).collect();
    assert_eq!(written, vec!["0", "1", "2", "3", "4", "5", "6", "7", "8", "9"]);
}

#[test]
fn numerals() {
    assert_eq!(decimal_text(0), "0");
    assert_eq!(decimal_text(9), "9");
    assert_eq!(decimal_text(10), "10");
    assert_eq!(decimal_text(65535), "65535");
    assert_eq!(decimal_text(4294967295), "4294967295");
    let mut out = String::from("n=");
    append_decimal(&mut out, 1203);
    assert_eq!(out, "n=1203");
}

#[test]
fn a_numeral_is_read_back_as_its_number() {
    for n in [0u32, 1, 9, 10, 99, 100, 255, 256, 65535, 65536, 4294967295] {
        assert_eq!(read(&decimal_text(n), u32::MAX), Some(n));
    }
}

#[test]
fn digit_counts() {
    assert_eq!(count_digits(0), 1);
    assert_eq!(count_digits(9), 1);
    assert_eq!(count_digits(10), 2);
    assert_eq!(count_digits(99), 2);
    assert_eq!(count_digits(100), 3);
    assert_eq!(count_digits(65535), 5);
    assert_eq!(count_digits(4294967295), 10);
}

#[test]
fn padding_pushes_to_the_right() {
    let mut out = String::from("[");
    append_padded(&mut out, "ab", 5);
    assert_eq!(out, "[   ab");
    append_padded(&mut out, "abcdef", 5);
    assert_eq!(out, "[   ababcdef");
    append_padded(&mut out, "xyz", 3);
    assert_eq!(out, "[   ababcdefxyz");
    append_padded(&mut out, "", 2);
    assert_eq!(out, "[   ababcdefxyz  ");
    append_padded(&mut out, "q", 0);
    assert_eq!(out, "[   ababcdefxyz  q");
}

#[test]
fn padding_counts_characters_not_bytes() {
    let mut out = String::new();
    append_padded(&mut out, "Ёж", 4);
    assert_eq!(out, "  Ёж");
}

#[test]
fn comparison_of_texts() {
    assert!(same_text("abc", "abc"));
    assert!(same_text("", ""));
    assert!(!same_text("abc", "abd"));
    assert!(!same_text("abc", "ab"));
    assert!(!same_text("ab", "abc"));
    let chars = chars_of("fswatch");
    assert!(tail_is(&chars, 2, "watch"));
    assert!(!tail_is(&chars, 2, "watc"));
    assert!(!tail_is(&chars, 3, "watch"));
    assert!(tail_is(&chars, 7, ""));
    assert!(range_is(&chars, 0, 2, "fs"));
    assert!(!range_is(&chars, 0, 2, "fx"));
    assert!(range_is(&chars, 3, 3, ""));
}
