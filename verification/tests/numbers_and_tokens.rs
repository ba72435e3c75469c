use bhi::number::{parse_unsigned, push_decimal};
use bhi::tokens::{find_from, split_at_byte};

#[test]
fn decimal_text_of_numbers() {
    let mut out = Vec::new();
    push_decimal(&mut out, 0);
    out.push(b' ');
    push_decimal(&mut out, 7);
    out.push(b' ');
    push_decimal(&mut out, 10);
    out.push(b' ');
    push_decimal(&mut out, 255);
    out.push(b' ');
    push_decimal(&mut out, 4294967295);
    assert_eq!(out, b"0 7 10 255 4294967295".to_vec());
}

#[test]
fn decimal_text_is_appended() {
    let mut out = b"n=".to_vec();
    push_decimal(&mut out, 1203);
    assert_eq!(out, b"n=1203".to_vec());
}

#[test]
fn unsigned_numbers_are_read() {
    assert_eq!(parse_unsigned(b"0", 255), Some(0));
    assert_eq!(parse_unsigned(b"255", 255), Some(255));
    assert_eq!(parse_unsigned(b"256", 255), None);
    assert_eq!(parse_unsigned(b"256", 256), Some(256));
    assert_eq!(parse_unsigned(b"+42", 255), Some(42));
    assert_eq!(parse_unsigned(b"0042", 255), Some(42));
    assert_eq!(parse_unsigned(b"4294967295", u32::MAX), Some(4294967295));
    assert_eq!(parse_unsigned(b"4294967296", u32::MAX), None);
    assert_eq!(parse_unsigned(b"42949672950", u32::MAX), None);
}

#[test]
fn unsigned_numbers_are_digits_only() {
    assert_eq!(parse_unsigned(b"", 255), None);
    assert_eq!(parse_unsigned(b"+", 255), None);
    assert_eq!(parse_unsigned(b"-1", 255), None);
    assert_eq!(parse_unsigned(b"1+", 255), None);
    assert_eq!(parse_unsigned(b" 1", 255), None);
    assert_eq!(parse_unsigned(b"1 ", 255), None);
    assert_eq!(parse_unsigned(b"0x1", 255), None);
    assert_eq!(parse_unsigned(b"1.0", 255), None);
    assert_eq!(parse_unsigned(b"/", 255), None);
    assert_eq!(parse_unsigned(b":", 255), None);
}

#[test]
fn unsigned_numbers_read_as_the_standard_library_reads_them() {
    let samples: [&str; 12] =
        ["0", "7", "+7", "007", "255", "256", "", "+", "-0", "1a", "99999999999", "+0255"];
    for text in samples {
        assert_eq!(parse_unsigned(text.as_bytes(), 255), text.parse::<u8>().ok().map(u32::from));
        assert_eq!(parse_unsigned(text.as_bytes(), u32::MAX), text.parse::<u32>().ok());
    }
}

#[test]
fn find_from_gives_the_first_separator_or_the_end() {
    assert_eq!(find_from(b"ab:cd:e", 0, b':'), 2);
    assert_eq!(find_from(b"ab:cd:e", 2, b':'), 2);
    assert_eq!(find_from(b"ab:cd:e", 3, b':'), 5);
    assert_eq!(find_from(b"ab:cd:e", 6, b':'), 7);
    assert_eq!(find_from(b"ab:cd:e", 7, b':'), 7);
    assert_eq!(find_from(b"", 0, b':'), 0);
}

#[test]
fn split_gives_one_part_more_than_separators() {
    assert_eq!(split_at_byte(b"a,b,", b','), vec![&b"a"[..], &b"b"[..], &b""[..]]);
    assert_eq!(split_at_byte(b"", b','), vec![&b""[..]]);
    assert_eq!(split_at_byte(b"abc", b','), vec![&b"abc"[..]]);
    assert_eq!(split_at_byte(b",", b','), vec![&b""[..], &b""[..]]);
    assert_eq!(split_at_byte(b",,x", b','), vec![&b""[..], &b""[..], &b"x"[..]]);
}

#[test]
fn split_agrees_with_the_standard_library() {
    let samples: [&str; 6] = ["1.2.3", "1..3", ".", "", "10x20", "a.b.c.d."];
    for text in samples {
        let expected: Vec<&[u8]> = text.split('.').map(|part| part.as_bytes()).collect();
        assert_eq!(split_at_byte(text.as_bytes(), b'.'), expected);
    }
}
