use ziggurat_mind::clock::{display_time, now};
use ziggurat_mind::fixed::{clamp_unit, days_between, decay, scale};
use ziggurat_mind::text::{
    chars_of, contains, decimal, find_from, is_space, join, lowercase, replace, rfind_char,
    split_whitespace, string_of, trim,
};

fn chars(text: &str) -> Vec<char> {
    text.chars().collect()
}

fn text(chars: &[char]) -> String {
    chars.iter().collect()
}

#[test]
fn white_space_is_what_the_standard_library_says() {
    let mut code = 0u32;
    while code <= 0x10ffff {
        if let Some(c) = char::from_u32(code) {
            assert_eq!(is_space(c), c.is_whitespace(), "U+{:04X}", code);
        }
        code += 1;
    }
}

#[test]
fn trim_and_split_agree_with_the_standard_library() {
    let samples = [
        "",
        " ",
        "a",
        "  a  b  ",
        "\t\nleading",
        "trailing \u{a0}\u{3000}",
        "Привет,   мир !",
        " one\ttwo\nthree  four ",
        "\u{2003}wide\u{2003}spaces\u{2003}",
    ];
    for sample in samples {
        assert_eq!(text(&trim(&chars(sample))), sample.trim());
        let words: Vec<String> = split_whitespace(&chars(sample)).iter().map(|w| text(w)).collect();
        let expected: Vec<String> = sample.split_whitespace().map(|w| w.to_string()).collect();
        assert_eq!(words, expected);
    }
}

#[test]
fn replace_and_contains_agree_with_the_standard_library() {
    let cases = [
        ("a  b   c", "  ", " "),
        ("aaaa", "aa", "b"),
        ("aaa", "aa", "a"),
        ("hello world", "o", "0"),
        ("hello", "xyz", "!"),
        ("", "a", "b"),
        ("abc", "abc", ""),
        ("не люблю не ", "не ", ""),
        ("ab", "abc", "x"),
    ];
    for (hay, from, to) in cases {
        assert_eq!(text(&replace(&chars(hay), &chars(from), &chars(to))), hay.replace(from, to));
        assert_eq!(contains(&chars(hay), &chars(from)), hay.contains(from));
    }
    // an empty pattern replaces nothing and is found everywhere
    assert_eq!(text(&replace(&chars("abc"), &[], &chars("x"))), "abc");
    assert!(contains(&chars("abc"), &[]));
    assert!(contains(&[], &[]));
    assert_eq!(find_from(&chars("abcabc"), &chars("bc"), 0), Some(1));
    assert_eq!(find_from(&chars("abcabc"), &chars("bc"), 2), Some(4));
    assert_eq!(find_from(&chars("abcabc"), &chars("bc"), 5), None);
    assert_eq!(rfind_char(&chars("a b c"), ' ', 5), Some(3));
    assert_eq!(rfind_char(&chars("a b c"), ' ', 3), Some(1));
    assert_eq!(rfind_char(&chars("a b c"), ' ', 1), None);
}

#[test]
fn strings_and_numbers() {
    assert_eq!(chars_of("héllo"), chars("héllo"));
    assert_eq!(string_of(&chars("мир")), "мир");
    assert_eq!(text(&lowercase(&chars("ПрИвЕт Hello ΣΑΣ"))), "привет hello σας");
    assert_eq!(text(&decimal(0)), "0");
    assert_eq!(text(&decimal(9)), "9");
    assert_eq!(text(&decimal(10)), "10");
    assert_eq!(text(&decimal(1234567890)), "1234567890");
    assert_eq!(text(&decimal(u64::MAX)), u64::MAX.to_string());
    let parts = vec!["a".to_string(), "".to_string(), "c".to_string()];
    assert_eq!(text(&join(&parts, ", ")), "a, , c");
    assert_eq!(text(&join(&vec![], ", ")), "");
    assert_eq!(text(&join(&vec!["x".to_string()], ", ")), "x");
}

#[test]
fn fixed_point_arithmetic() {
    assert_eq!(clamp_unit(-1), 0);
    assert_eq!(clamp_unit(0), 0);
    assert_eq!(clamp_unit(1_000_000), 1_000_000);
    assert_eq!(clamp_unit(1_000_001), 1_000_000);
    assert_eq!(clamp_unit(i64::MAX), 1_000_000);
    assert_eq!(scale(900_000, 950_000), 855_000);
    assert_eq!(scale(1, 999_999), 0);
    assert_eq!(scale(1_000_000, 1_000_000), 1_000_000);
    assert_eq!(decay(1_000_000, 900_000, 0), 1_000_000);
    assert_eq!(decay(1_000_000, 900_000, 2), 810_000);
    assert_eq!(decay(1_000_000, 500_000, 1_000_000_000), 0);
    assert_eq!(decay(1_000_000, 1_000_000, 10), 1_000_000);
    assert_eq!(decay(700_000, 0, 1), 0);
    let day = 86_400_000;
    assert_eq!(days_between(0, day - 1), 0);
    assert_eq!(days_between(0, day), 1);
    assert_eq!(days_between(day, 0), 0);
    assert_eq!(days_between(i64::MIN, i64::MAX), (u64::MAX / 86_400_000));
}

#[test]
fn clock_reads_and_writes_instants() {
    assert_eq!(text(&display_time(0)), "1970-01-01 00:00:00");
    assert_eq!(text(&display_time(947_638_923_004)), "2000-01-12 01:02:03");
    assert_eq!(text(&display_time(i64::MAX)), "?");
    let first = now();
    // after the year 2020, before the year 2200
    assert!(first > 1_577_836_800_000 && first < 7_258_118_400_000);
    assert!(now() >= first);
}
