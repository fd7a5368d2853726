use snippets::snip::normalize_discription;
use snippets::unicode::char_is_whitespace;
use snippets::text::{
    contains_chars, lines_of, parse_usize, remove_char, split_at, split_chars, split_discription,
    trim,
};

fn chars(text: &str) -> Vec<char> {
    text.chars().collect()
}

fn texts(parts: Vec<Vec<char>>) -> Vec<String> {
    parts.into_iter().map(|p| p.into_iter().collect()).collect()
}

#[test]
fn long_line_is_cut_into_pieces() {
    assert_eq!(split_discription("hello world", 5), "hello\n worl\nd");
}

#[test]
fn line_of_exact_width_is_kept() {
    assert_eq!(split_discription("hello", 5), "hello");
    assert_eq!(split_discription("abcdef", 3), "abc\ndef");
}

#[test]
fn short_lines_are_kept() {
    assert_eq!(split_discription("ab\ncd", 20), "ab\ncd");
    assert_eq!(split_discription("a\n\nb", 20), "a\n\nb");
}

#[test]
fn line_endings_are_normalised() {
    assert_eq!(split_discription("a\r\nb\n", 20), "a\nb");
    assert_eq!(split_discription("a\rb", 20), "a\rb");
    assert_eq!(split_discription("a\r", 20), "a\r");
}

#[test]
fn width_of_zero_cuts_nothing_of_empty_lines() {
    assert_eq!(split_discription("", 0), "");
    assert_eq!(split_discription("\n", 0), "");
    assert_eq!(split_discription("\n\n\r\n", 0), "\n\n");
    assert_eq!(split_chars(&chars("\n\n"), 0), chars("\n"));
}

#[test]
fn white_space_is_what_the_standard_library_says() {
    for code in 0..=0x10ffffu32 {
        if let Some(c) = char::from_u32(code) {
            assert_eq!(char_is_whitespace(c), c.is_whitespace());
        }
    }
}

#[test]
fn empty_text_stays_empty() {
    assert_eq!(split_discription("", 5), "");
    assert_eq!(split_discription("\n", 5), "");
}

#[test]
fn width_counts_characters_not_bytes() {
    assert_eq!(split_discription("äöüß", 2), "äö\nüß");
    assert_eq!(split_discription("日本語のテキスト", 3), "日本語\nのテキ\nスト");
}

#[test]
fn width_of_one_puts_each_character_on_a_line() {
    assert_eq!(split_discription("abc", 1), "a\nb\nc");
}

#[test]
fn every_line_is_cut_on_its_own() {
    assert_eq!(split_discription("abcd\nefghij", 3), "abc\nd\nefg\nhij");
    assert_eq!(split_chars(&chars("abcd\nefghij"), 3), chars("abc\nd\nefg\nhij"));
}

#[test]
fn lines_follow_the_line_feeds() {
    assert_eq!(texts(lines_of(&chars("a\nb"))), vec!["a", "b"]);
    assert_eq!(texts(lines_of(&chars("a\nb\n"))), vec!["a", "b"]);
    assert_eq!(texts(lines_of(&chars("a\r\n\r\nb"))), vec!["a", "", "b"]);
    assert_eq!(texts(lines_of(&chars("\n\n"))), vec!["", ""]);
    assert_eq!(texts(lines_of(&chars(""))), Vec::<String>::new());
    assert_eq!(texts(lines_of(&chars("\r\n"))), vec![""]);
}

#[test]
fn lines_agree_with_the_standard_library() {
    for text in ["", "a", "a\n", "\na", "a\r\nb", "a\n\r\nb\r", "\r", "x\r\r\ny", "\n\n\n"] {
        let expected: Vec<String> = text.lines().map(|l| l.to_string()).collect();
        assert_eq!(texts(lines_of(&chars(text))), expected);
    }
}

#[test]
fn pieces_follow_the_commas() {
    assert_eq!(texts(split_at(&chars("a,b"), ',')), vec!["a", "b"]);
    assert_eq!(texts(split_at(&chars("a,"), ',')), vec!["a", ""]);
    assert_eq!(texts(split_at(&chars(""), ',')), vec![""]);
    assert_eq!(texts(split_at(&chars(",,"), ',')), vec!["", "", ""]);
    assert_eq!(texts(split_at(&chars("abc"), ',')), vec!["abc"]);
}

#[test]
fn pieces_agree_with_the_standard_library() {
    for text in ["", ",", "a,b,c", ",a", "a,,b", "1, 2"] {
        let expected: Vec<String> = text.split(",").map(|l| l.to_string()).collect();
        assert_eq!(texts(split_at(&chars(text), ',')), expected);
    }
}

#[test]
fn numbers_are_read() {
    assert_eq!(parse_usize(&chars("0")), Some(0));
    assert_eq!(parse_usize(&chars("42")), Some(42));
    assert_eq!(parse_usize(&chars("+42")), Some(42));
    assert_eq!(parse_usize(&chars("007")), Some(7));
    assert_eq!(parse_usize(&chars(&usize::MAX.to_string())), Some(usize::MAX));
}

#[test]
fn what_is_no_number_is_refused() {
    assert_eq!(parse_usize(&chars("")), None);
    assert_eq!(parse_usize(&chars("+")), None);
    assert_eq!(parse_usize(&chars("-1")), None);
    assert_eq!(parse_usize(&chars("1 ")), None);
    assert_eq!(parse_usize(&chars(" 1")), None);
    assert_eq!(parse_usize(&chars("1a")), None);
    assert_eq!(parse_usize(&chars("++1")), None);
    assert_eq!(parse_usize(&chars("١")), None);
}

#[test]
fn number_too_large_is_refused() {
    let too_large = format!("{}0", usize::MAX);
    assert_eq!(parse_usize(&chars(&too_large)), None);
    let just_over = "18446744073709551616";
    assert_eq!(parse_usize(&chars(just_over)), just_over.parse::<usize>().ok());
}

#[test]
fn numbers_agree_with_the_standard_library() {
    for text in ["", "+", "0", "+0", "12", "1_000", "0x10", "９", "99999999999999999999999"] {
        assert_eq!(parse_usize(&chars(text)), text.parse::<usize>().ok());
    }
}

#[test]
fn white_space_around_is_removed() {
    assert_eq!(trim(&chars("  a b \n")), chars("a b"));
    assert_eq!(trim(&chars("\u{a0}x\u{3000}")), chars("x"));
    assert_eq!(trim(&chars("   ")), chars(""));
    assert_eq!(trim(&chars("")), chars(""));
    assert_eq!(trim(&chars("x")), chars("x"));
}

#[test]
fn one_character_is_removed_everywhere() {
    assert_eq!(remove_char(&chars("a\rb\r\rc"), '\r'), chars("abc"));
    assert_eq!(remove_char(&chars("\n\n"), '\n'), chars(""));
    assert_eq!(remove_char(&chars("abc"), 'x'), chars("abc"));
}

#[test]
fn infix_is_found() {
    assert!(contains_chars(&chars("hello world"), &chars("lo w")));
    assert!(contains_chars(&chars("hello world"), &chars("hello world")));
    assert!(contains_chars(&chars("hello world"), &chars("d")));
    assert!(contains_chars(&chars("hello"), &chars("")));
    assert!(contains_chars(&chars(""), &chars("")));
    assert!(contains_chars(&chars("aab"), &chars("ab")));
}

#[test]
fn what_is_no_infix_is_not_found() {
    assert!(!contains_chars(&chars("hello"), &chars("hello!")));
    assert!(!contains_chars(&chars("hello"), &chars("ol")));
    assert!(!contains_chars(&chars(""), &chars("a")));
    assert!(!contains_chars(&chars("abab"), &chars("abb")));
}

#[test]
fn description_is_normalised() {
    assert_eq!(
        normalize_discription("  build\r\n a web server of some kind \n"),
        "build\n a web server of som\ne kind"
    );
    assert_eq!(normalize_discription("plain"), "plain");
    assert_eq!(normalize_discription(" \r\n "), "");
}

#[test]
fn normalising_twice_changes_nothing_more() {
    for text in ["  a long description that goes over the width \r\n second ", "x", ""] {
        let once = normalize_discription(text);
        assert_eq!(normalize_discription(&once), once);
    }
}
