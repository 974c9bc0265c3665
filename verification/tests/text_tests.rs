use cfnat::text::{chars_of, parse_decimal, split_comma_list, split_whitespace_chars, trim};

#[test]
fn trim_removes_unicode_white_space() {
    assert_eq!(trim("  a b \t"), "a b");
    assert_eq!(trim("\u{3000}x\u{a0}"), "x");
    assert_eq!(trim(" \n "), "");
    assert_eq!(trim("x"), "x");
}

#[test]
fn comma_list_items() {
    assert_eq!(split_comma_list(" a ,, b,"), vec!["a".to_string(), "b".to_string()]);
    assert!(split_comma_list("").is_empty());
}

#[test]
fn words_are_maximal_runs() {
    let w = split_whitespace_chars(&chars_of("  ab c\u{2003}d  "));
    assert_eq!(w, vec![vec!['a', 'b'], vec!['c'], vec!['d']]);
}

#[test]
fn decimal_parsing_matches_std() {
    for text in ["0", "+12", "18446744073709551615", "18446744073709551616", "", "+", "-1", "12a", "007", " 1"] {
        assert_eq!(parse_decimal(&chars_of(text), u64::MAX), text.parse::<u64>().ok(), "{text}");
        assert_eq!(parse_decimal(&chars_of(text), u16::MAX as u64), text.parse::<u16>().ok().map(u64::from), "{text}");
    }
}

#[test]
fn white_space_is_std_white_space() {
    for u in 0u32..=0x10FFFF {
        if let Some(c) = char::from_u32(u) {
            assert_eq!(cfnat::text::is_white_space_char(c), c.is_whitespace(), "{u:#x}");
        }
    }
}

#[test]
fn trim_and_words_agree_with_std() {
    for s in ["", " ", "a", " a ", "\u{85}x y\u{2029}", "\t-ips  3\r\n", "中 文\u{3000}"] {
        assert_eq!(trim(s), s.trim());
        let words: Vec<Vec<char>> = s.split_whitespace().map(|w| w.chars().collect()).collect();
        assert_eq!(split_whitespace_chars(&chars_of(s)), words);
    }
}
