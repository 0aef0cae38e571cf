use continue_transcripts::ansi::ansi_to_html;

#[test]
fn test_ansi_plain_text() {
    assert_eq!(ansi_to_html("hello world"), "hello world");
}

#[test]
fn test_ansi_html_entities_escaped() {
    assert_eq!(ansi_to_html("<b>&</b>"), "&lt;b&gt;&amp;&lt;/b&gt;");
}

#[test]
fn test_ansi_green_text() {
    let result = ansi_to_html("\x1b[32mpass\x1b[0m");
    assert!(result.contains("color:#98c379"));
    assert!(result.contains("pass"));
    assert!(result.contains("</span>"));
}

#[test]
fn test_ansi_red_text() {
    let result = ansi_to_html("\x1b[31mfail\x1b[0m");
    assert!(result.contains("color:#e06c75"));
    assert!(result.contains("fail"));
}

#[test]
fn test_ansi_bold() {
    let result = ansi_to_html("\x1b[1mbold text\x1b[0m");
    assert!(result.contains("font-weight:bold"));
    assert!(result.contains("bold text"));
}

#[test]
fn test_ansi_multiple_sequences() {
    let input = "\x1b[32m✓\x1b[0m pass  \x1b[31m✕\x1b[0m fail";
    let result = ansi_to_html(input);
    // Should have green span for checkmark and red for X
    assert!(result.contains("#98c379"));
    assert!(result.contains("#e06c75"));
}

#[test]
fn test_ansi_reset_closes_span() {
    let result = ansi_to_html("\x1b[1m\x1b[31mred bold\x1b[0m normal");
    assert!(result.contains("</span>"));
    assert!(result.contains("normal"));
}

#[test]
fn test_ansi_bright_colors() {
    let result = ansi_to_html("\x1b[90mgray\x1b[0m");
    assert!(result.contains("color:#5c6370"));
}

#[test]
fn ansi_styles_are_combined_in_one_span() {
    assert_eq!(
        ansi_to_html("\x1b[1;3;4;31;42mx\x1b[0m"),
        "<span style=\"color:#e06c75;background-color:#98c379;font-weight:bold;font-style:italic;text-decoration:underline\">x</span>"
    );
}

#[test]
fn ansi_span_is_closed_at_the_end() {
    assert_eq!(
        ansi_to_html("\x1b[32mok"),
        "<span style=\"color:#98c379\">ok</span>"
    );
}

#[test]
fn ansi_other_sequences_are_dropped() {
    assert_eq!(ansi_to_html("a\x1b[2Kb"), "ab");
    assert_eq!(ansi_to_html("a\x1b[10;20Hb"), "ab");
}

#[test]
fn ansi_text_is_kept_without_escapes() {
    assert_eq!(ansi_to_html("1 < 2 > 0 & \"q\"\n\ttab"), "1 &lt; 2 &gt; 0 &amp; &quot;q&quot;\n\ttab");
}

#[test]
fn ansi_keeps_characters_of_all_scripts() {
    assert_eq!(ansi_to_html("é 日 ✓"), "é 日 ✓");
    assert_eq!(
        ansi_to_html("\x1b[32m\u{2713}\x1b[0m"),
        "<span style=\"color:#98c379\">\u{2713}</span>"
    );
}

#[test]
fn ansi_colors_outside_the_standard_ones_leave_no_trace() {
    assert_eq!(ansi_to_html("\x1b[38;2;31;4;4mx"), "x");
    assert_eq!(ansi_to_html("\x1b[48;2;31;4;4;1mx"), "<span style=\"font-weight:bold\">x</span>");
    assert_eq!(ansi_to_html("\x1b[38;2;31mx"), "x");
    assert_eq!(ansi_to_html("\x1b[38;5;4;32mx"), "<span style=\"color:#98c379\">x</span>");
}

#[test]
fn ansi_unrecognised_sequences_are_stripped() {
    assert_eq!(ansi_to_html("\x1b[?25lok"), "ok");
    assert_eq!(ansi_to_html("a\x1b[?1049hb\x1b[>4;2mc\x1b[6nd"), "abcd");
    assert_eq!(ansi_to_html("\x1b]0;title\x07ok"), "ok");
    assert_eq!(ansi_to_html("\x1b]8;;http://x\x1b\\link\x1b]8;;\x1b\\ ok"), "link ok");
    assert_eq!(ansi_to_html("\x1bPq data\x1b\\ok"), "ok");
    assert_eq!(ansi_to_html("\x1b(Bok\x1b7\x1b8\x1bM"), "ok");
}

#[test]
fn ansi_spans_never_nest() {
    let html = ansi_to_html("\x1b[1ma\x1b[31mb\x1b[4mc\x1b[0md\x1b[32me");
    let mut open = 0;
    for (i, _) in html.match_indices('<') {
        open += if html[i..].starts_with("</") { -1 } else { 1 };
        assert!(open == 0 || open == 1);
    }
    assert_eq!(open, 0);
}

#[test]
fn ansi_codes_change_the_style() {
    assert_eq!(
        ansi_to_html("\x1b[1;2mx\x1b[22;97;107my\x1b[39;49mz\x1b[mw"),
        "<span style=\"font-weight:bold;opacity:0.7\">x</span><span style=\"color:#ffffff;background-color:#abb2bf\">y</span>zw"
    );
    assert_eq!(ansi_to_html("\x1b[38;5;31mx"), "x");
    assert_eq!(ansi_to_html("\x1b[38;31mx"), "<span style=\"color:#e06c75\">x</span>");
    assert_eq!(ansi_to_html("\x1b[99;;31mx"), "<span style=\"color:#e06c75\">x</span>");
}

#[test]
fn ansi_unfinished_sequences_are_dropped() {
    assert_eq!(ansi_to_html("a\x1b[31"), "a");
    assert_eq!(ansi_to_html("a\x1b"), "a\x1b");
    assert_eq!(ansi_to_html("a\x1b\nb"), "a\x1b\nb");
    assert_eq!(ansi_to_html("a\x1b]0;title"), "a");
}

#[test]
fn ansi_strings_and_sequences_end_at_an_escape() {
    assert_eq!(ansi_to_html("\x1bPab\x1b[0mcd"), "cd");
    assert_eq!(ansi_to_html("\x1b]0;title\x1b[31mx"), "<span style=\"color:#e06c75\">x</span>");
    assert_eq!(ansi_to_html("\x1b[3\x1b[0mx"), "x");
    assert_eq!(ansi_to_html("\x1b[3\x1b[1mx"), "<span style=\"font-weight:bold\">x</span>");
}

#[test]
fn ansi_a_reset_forgets_what_stood_before() {
    for a in ["", "x", "\x1b]", "\x1b[3", "\x1b", "\x1bPab", "\x1b[1;31mred", "\x1b]0;t\x07x", "\x1b(", "a\n"] {
        for b in ["", "b", "\x1b[32mok", "\\x", "<"] {
            for reset in ["\x1b[0m", "\x1b[m"] {
                let all = format!("{}{}{}", a, reset, b);
                assert_eq!(ansi_to_html(&all), format!("{}{}", ansi_to_html(a), ansi_to_html(b)));
            }
        }
    }
}
