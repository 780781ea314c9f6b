use prompt_cache::text::{decimal_text, equal_but_case, has_prefix, has_text, parse_u64, text_before};

const SAMPLES: [&str; 12] = [
    "", "a", "A", "ab", "Ab", "b", "é", "É", "z", "\u{ffff}", "\u{10000}", "opus-OPUS",
];

#[test]
fn decimal_numerals() {
    assert_eq!(decimal_text(0), "0");
    assert_eq!(decimal_text(9), "9");
    assert_eq!(decimal_text(10), "10");
    assert_eq!(decimal_text(1024), "1024");
    assert_eq!(decimal_text(u64::MAX), "18446744073709551615");
}

#[test]
fn numbers_are_parsed_like_u64() {
    for s in [
        "",
        "+",
        "-1",
        "+7",
        "007",
        "1_0",
        " 1",
        "18446744073709551615",
        "18446744073709551616",
        "99999999999999999999999",
        "++1",
        "12x",
    ] {
        assert_eq!(parse_u64(s), s.parse::<u64>().ok(), "{s}");
    }
}

#[test]
fn texts_are_ordered_like_str() {
    for a in SAMPLES {
        for b in SAMPLES {
            assert_eq!(text_before(a, b), a < b, "{a} {b}");
        }
    }
}

#[test]
fn case_is_ignored_for_ascii_only() {
    for a in SAMPLES {
        for b in SAMPLES {
            assert_eq!(equal_but_case(a, b), a.eq_ignore_ascii_case(b), "{a} {b}");
        }
    }
    assert!(equal_but_case("Ephemeral", "ephemeral"));
    assert!(!equal_but_case("É", "é"));
}

#[test]
fn parts_of_texts_are_found() {
    for a in SAMPLES {
        for b in SAMPLES {
            assert_eq!(has_text(a, b), a.contains(b), "{a} {b}");
            assert_eq!(has_prefix(a, b), a.starts_with(b), "{a} {b}");
        }
    }
    assert!(has_text("opus-4", "opus"));
    assert!(!has_text("sonnet", "opus"));
}
