use serial_tool::names::{has_name, sort_names};
use serial_tool::text::{
    is_blank, is_hex_digit, is_white_space, parse_unsigned, push_decimal, split_sections,
    split_words, to_chars, to_text, trim,
};

const SAMPLES: [&str; 12] = [
    "",
    " ",
    "a",
    " a ",
    "a b",
    "  01\tA5\u{3000}FF\n",
    "\u{a0}x\u{2003}y",
    "\u{200b}",
    "中 文",
    "a\u{1680}\u{1680}b",
    "\r\n\r\n",
    "a=b=c",
];

#[test]
fn white_space_is_that_of_unicode() {
    for n in 0..=0x10ffffu32 {
        if let Some(c) = char::from_u32(n) {
            assert_eq!(is_white_space(c), c.is_whitespace(), "{n:x}");
        }
    }
}

#[test]
fn hexadecimal_digits_are_ascii() {
    for n in 0..=0xffffu32 {
        if let Some(c) = char::from_u32(n) {
            assert_eq!(is_hex_digit(c), c.is_ascii_hexdigit(), "{n:x}");
        }
    }
}

#[test]
fn trimming_drops_white_space_at_both_ends() {
    for s in SAMPLES {
        let chars = to_chars(s);
        assert_eq!(to_text(trim(&chars)), s.trim());
        assert_eq!(is_blank(&chars), s.trim().is_empty());
    }
}

#[test]
fn words_lie_between_white_space() {
    for s in SAMPLES {
        let chars = to_chars(s);
        let words: Vec<String> = split_words(&chars).into_iter().map(to_text).collect();
        let expected: Vec<String> = s.split_whitespace().map(str::to_owned).collect();
        assert_eq!(words, expected);
    }
}

#[test]
fn sections_lie_between_marks() {
    for s in SAMPLES {
        let chars = to_chars(s);
        let sections: Vec<String> =
            split_sections(&chars, '=').into_iter().map(to_text).collect();
        let expected: Vec<String> = s.split('=').map(str::to_owned).collect();
        assert_eq!(sections, expected);
    }
}

#[test]
fn decimals_are_written_without_padding() {
    for n in [0, 7, 10, 99, 100, 115200, u64::MAX] {
        let mut out = "n=".to_owned();
        push_decimal(&mut out, n);
        assert_eq!(out, format!("n={n}"));
    }
}

#[test]
fn unsigned_numbers_are_read_in_any_base() {
    for s in ["", "+", "-1", "0", "00ff", "+fF", "100", "g", "1 ", "ffffffff", "100000000"] {
        let chars = to_chars(s);
        assert_eq!(parse_unsigned(&chars, 16, u32::MAX), u32::from_str_radix(s, 16).ok(), "{s}");
        assert_eq!(
            parse_unsigned(&chars, 16, 255),
            u8::from_str_radix(s, 16).ok().map(u32::from),
            "{s}"
        );
        assert_eq!(parse_unsigned(&chars, 10, u32::MAX), s.parse().ok(), "{s}");
        assert_eq!(parse_unsigned(&chars, 2, u32::MAX), u32::from_str_radix(s, 2).ok(), "{s}");
    }
}

#[test]
fn names_are_put_in_order() {
    let list = ["ttyUSB1", "COM10", "COM2", "ttyUSB0", "", "COM2", "串口", "é", "COM"];
    let names: Vec<String> = list.iter().map(|s| s.to_string()).collect();
    let mut expected = names.clone();
    expected.sort();
    assert_eq!(sort_names(names), expected);
    assert_eq!(sort_names(Vec::new()), Vec::<String>::new());
}

#[test]
fn names_are_found_in_a_list() {
    let list = vec!["a".to_owned(), "b".to_owned()];
    assert!(has_name(&list, &"b".to_owned()));
    assert!(!has_name(&list, &"c".to_owned()));
}

#[test]
fn trimming_leaves_the_words() {
    for s in SAMPLES {
        let chars = to_chars(s);
        assert_eq!(split_words(trim(&chars)), split_words(&chars));
        assert_eq!(split_words(&chars).is_empty(), is_blank(&chars));
    }
}
