use cosmic_ext_window_daemon::text::{
    chars_of, is_white_space_char, parse_u64, push_decimal, same_text, split_list, to_ascii_lower,
    trim,
};

const SAMPLES: [&str; 14] = [
    "",
    " ",
    "a",
    " a ",
    "\u{3000}\u{2003}x y\u{85}\n",
    "ÀBC\u{212a}z",
    "a,b",
    ",",
    ",, a ,\tb,c ",
    "Straße , 12",
    "\u{200b}x",
    "123",
    "+123",
    "\u{feff} ",
];

#[test]
fn white_space_is_what_the_standard_library_says() {
    for code in 0..=0x10ffffu32 {
        if let Some(c) = char::from_u32(code) {
            assert_eq!(is_white_space_char(c), c.is_whitespace(), "U+{:04X}", code);
        }
    }
}

#[test]
fn trimming_agrees_with_the_standard_library() {
    for s in SAMPLES {
        assert_eq!(trim(s), s.trim());
    }
}

#[test]
fn lower_case_agrees_with_the_standard_library() {
    for s in SAMPLES {
        assert_eq!(to_ascii_lower(s), s.to_ascii_lowercase());
    }
    for code in 0..=0x17fu32 {
        let s = char::from_u32(code).unwrap().to_string();
        assert_eq!(to_ascii_lower(&s), s.to_ascii_lowercase());
    }
}

#[test]
fn lists_agree_with_the_standard_library() {
    for s in SAMPLES {
        let expected: Vec<String> = s
            .split(',')
            .map(str::trim)
            .filter(|e| !e.is_empty())
            .map(str::to_owned)
            .collect();
        assert_eq!(split_list(s), expected);
    }
}

#[test]
fn numbers_agree_with_the_standard_library() {
    let numbers = [
        "0", "00", "+0", "-0", "+", "-", "++1", "1+", "18446744073709551615",
        "18446744073709551616", "184467440737095516150", "00000000000000000000001", "1.0", "0x1",
        "\u{661}", "9999999999999999999999999999",
    ];
    for s in SAMPLES.iter().chain(numbers.iter()) {
        assert_eq!(parse_u64(s), s.parse::<u64>().ok(), "{:?}", s);
    }
}

#[test]
fn decimal_digits_agree_with_the_standard_library() {
    for n in [0, 1, 9, 10, 99, 100, 101, 4_294_967_296, u64::MAX] {
        let mut text = "n=".to_string();
        push_decimal(&mut text, n);
        assert_eq!(text, format!("n={}", n));
        assert_eq!(parse_u64(&text[2..]), Some(n));
    }
}

#[test]
fn texts_are_compared_by_their_characters() {
    assert!(same_text("same", "same"));
    assert!(!same_text("same", "Same"));
    assert!(!same_text("same", "sam"));
    assert_eq!(chars_of("añ"), vec!['a', 'ñ']);
}
