use server_starter::number::{parse_i32, parse_u16, parse_u64, push_i32, push_u64};
use server_starter::text::{
    is_whitespace, lines, place, rsplit_once, same, split, split_once, trim, uppercase, Place,
};

#[test]
fn white_space_is_that_of_unicode() {
    for n in 0..=0x10ffffu32 {
        if let Some(c) = char::from_u32(n) {
            assert_eq!(is_whitespace(c), c.is_whitespace(), "{:x}", n);
        }
    }
}

#[test]
fn cutting_texts() {
    for s in ["", "a", ":", "a:b", "a:b:c", ":b", "a:", "\u{e9}:\u{1f600}:x"] {
        assert_eq!(split_once(s, ':'), s.split_once(':'));
        assert_eq!(rsplit_once(s, ':'), s.rsplit_once(':'));
        assert_eq!(split(s, ':'), s.split(':').collect::<Vec<&str>>());
    }
    for s in ["", "\n", "a", "a\n", "a\nb", "a\r\nb\r", "\r\n\r\n", "a\r\r\nb\n\n"] {
        assert_eq!(lines(s), s.lines().collect::<Vec<&str>>());
    }
    for s in ["", " ", " a b ", "\u{3000}x\t", "y"] {
        assert_eq!(trim(s), s.trim());
    }
}

#[test]
fn comparing_texts() {
    let all = ["", "a", "aa", "ab", "b", "\u{7f}", "\u{e9}", "\u{ffff}", "\u{10000}"];
    for a in all {
        for b in all {
            let expected = if a < b {
                Place::Before
            } else if a == b {
                Place::Same
            } else {
                Place::After
            };
            assert_eq!(place(a, b), expected);
            assert_eq!(same(a, b), a == b);
        }
    }
    assert_eq!(uppercase("aZ09\u{e9}{`"), "AZ09\u{e9}{`");
}

#[test]
fn numbers_are_read_as_std_reads_them() {
    for s in [
        "", "0", "00", "7", "+7", "-7", "+", "-", "++7", "-0", "65535", "65536", "2147483647",
        "2147483648", "-2147483648", "-2147483649", "18446744073709551615",
        "18446744073709551616", "99999999999999999999999", " 1", "1 ", "1x", "\u{0661}",
    ] {
        assert_eq!(parse_u64(s), s.parse::<u64>().ok(), "{}", s);
        assert_eq!(parse_u16(s), s.parse::<u16>().ok(), "{}", s);
        assert_eq!(parse_i32(s), s.parse::<i32>().ok(), "{}", s);
    }
}

#[test]
fn numbers_are_written_in_decimal() {
    for n in [0u64, 9, 10, 1234567890, u64::MAX] {
        let mut s = String::new();
        push_u64(&mut s, n);
        assert_eq!(s, n.to_string());
    }
    for n in [0i32, -1, 10, i32::MAX, i32::MIN] {
        let mut s = String::new();
        push_i32(&mut s, n);
        assert_eq!(s, n.to_string());
    }
}
