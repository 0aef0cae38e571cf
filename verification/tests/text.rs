use continue_transcripts::html::push_escaped;
use continue_transcripts::text::{
    find_text, has_prefix, has_text, is_cuttable, join, lines, same_text, to_decimal,
    trim, trim_end_char, trim_start_char, white_space,
};

#[test]
fn white_space_is_what_unicode_says() {
    for c in '\0'..=char::MAX {
        assert_eq!(white_space(c), c.is_whitespace(), "{:?}", c);
    }
}

#[test]
fn lines_end_at_line_feeds() {
    for text in ["", "\n", "a", "a\n", "a\nb", "a\r\nb\r\n", "\n\n", "a\rb\n\r", "é\n日\r\n"] {
        let theirs: Vec<&str> = text.lines().collect();
        assert_eq!(lines(text), theirs, "{:?}", text);
    }
}

#[test]
fn trimming_is_like_that_of_std() {
    for text in ["", " ", " a ", "\u{3000}a\u{a0}", "a b", "\t\n"] {
        assert_eq!(trim(text), text.trim());
    }
    assert_eq!(trim_end_char("a__", '_'), "a");
    assert_eq!(trim_start_char("##a#", '#'), "a#");
}

#[test]
fn texts_are_found() {
    assert_eq!(find_text("abcabc", "bc", 0), Some(1));
    assert_eq!(find_text("abcabc", "bc", 2), Some(4));
    assert_eq!(find_text("abcabc", "x", 0), None);
    assert!(has_text("été", "té"));
    assert!(!has_text("", "a"));
    assert!(has_prefix("abc", "ab"));
    assert!(!has_prefix("a", "ab"));
    assert!(same_text("é", "é"));
    assert!(!same_text("e", "é"));
}

#[test]
fn texts_are_joined() {
    let parts = vec!["a".to_string(), String::new(), "b".to_string()];
    assert_eq!(join(&parts, ", "), "a, , b");
    assert_eq!(join(&vec![], ", "), "");
}

#[test]
fn numbers_are_written_in_decimal() {
    for n in [0, 7, 10, 99, 100, 12345, u64::MAX] {
        assert_eq!(to_decimal(n), n.to_string());
    }
}

#[test]
fn texts_are_cut_between_characters() {
    for text in ["", "abcdefghij", "é", "ééééé", "aéééééx", "日本語日", "a日本語日", "𝄞𝄞𝄞"] {
        for n in 0..12 {
            let cuts = text.len() < n || text.is_char_boundary(n);
            assert_eq!(is_cuttable(text, n), cuts, "{:?} {}", text, n);
        }
    }
}

#[test]
fn markup_is_escaped() {
    let mut out = "x".to_string();
    push_escaped(&mut out, "<a href=\"b\">'&amp;</a>");
    assert_eq!(out, "x&lt;a href=\"b\"&gt;'&amp;amp;&lt;/a&gt;");
}
