use continue_transcripts::tokens::format_tokens;

#[test]
fn test_format_tokens() {
    assert_eq!(format_tokens(0), "0");
    assert_eq!(format_tokens(999), "999");
    assert_eq!(format_tokens(1000), "1,000");
    assert_eq!(format_tokens(1234), "1,234");
    assert_eq!(format_tokens(9999), "9,999");
    assert_eq!(format_tokens(10000), "10.0k");
    assert_eq!(format_tokens(123456), "123.5k");
    assert_eq!(format_tokens(1000000), "1.0M");
}

#[test]
fn format_tokens_rounds_like_a_double() {
    for n in 10_000u64..1_000_000 {
        if n % 50 == 0 || n % 97 == 0 {
            assert_eq!(format_tokens(n), format!("{:.1}k", n as f64 / 1_000.0));
        }
    }
    let mut n: u64 = 1_000_000;
    while n < u64::MAX / 3 {
        for k in 0..60u64 {
            let m = n + k * 12_500;
            assert_eq!(format_tokens(m), format!("{:.1}M", m as f64 / 1_000_000.0));
            let h = n / 100_000 * 100_000 + 50_000 + k;
            assert_eq!(format_tokens(h), format!("{:.1}M", h as f64 / 1_000_000.0));
        }
        n = n + n / 7 + 1;
    }
    assert_eq!(
        format_tokens(u64::MAX),
        format!("{:.1}M", u64::MAX as f64 / 1_000_000.0)
    );
}

#[test]
fn format_tokens_keeps_ties_of_the_quotient() {
    assert_eq!(format_tokens(12_250), "12.2k");
    assert_eq!(format_tokens(12_350), "12.3k");
    assert_eq!(format_tokens(12_750), "12.8k");
    assert_eq!(format_tokens(999_999), "1000.0k");
    assert_eq!(format_tokens(1_250_000), "1.2M");
}

#[test]
fn format_tokens_shows_the_nearest_tenth() {
    for (n, text) in [
        (12_349, "12.3k"),
        (12_351, "12.4k"),
        (999_949, "999.9k"),
        (999_951, "1000.0k"),
        (1_049_999, "1.0M"),
        (1_050_001, "1.1M"),
        (999_999_949_999, "999999.9M"),
        (9_007_199_254_649_999, "9007199254.6M"),
        (9_007_199_254_650_001, "9007199254.7M"),
        (9_007_199_254_740_992, "9007199254.7M"),
        (18_014_398_509_549_996, "18014398509.5M"),
        (18_014_398_509_550_004, "18014398509.6M"),
    ] {
        assert_eq!(format_tokens(n), text);
    }
}

#[test]
fn format_tokens_rounds_great_counts_twice() {
    assert_eq!(format_tokens(9_007_199_254_749_999), "9007199254.8M");
    assert_eq!(format_tokens(288_230_376_152_449_984), "288230376152.5M");
}
