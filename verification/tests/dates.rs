use continue_transcripts::dates::{
    parse_date_filter, parse_session_date, read_session_date, CivilDate,
};

#[test]
fn test_parse_date_filter() {
    let d = parse_date_filter("2025-06-15");
    assert!(d.is_some());
    assert_eq!(d.unwrap().to_string(), "2025-06-15");

    assert!(parse_date_filter("not-a-date").is_none());
    assert!(parse_date_filter("2025/06/15").is_none());
}

#[test]
fn test_parse_session_date_iso() {
    let d = parse_session_date("2025-06-15T10:30:00+00:00");
    assert!(d.is_some());
    assert_eq!(d.unwrap().to_string(), "2025-06-15");
}

#[test]
fn test_parse_session_date_plain() {
    let d = parse_session_date("2025-06-15");
    assert!(d.is_some());
    assert_eq!(d.unwrap().to_string(), "2025-06-15");
}

#[test]
fn test_parse_session_date_prefix() {
    // Handles "2025-06-15T10:30:00Z" (non-standard but with T prefix)
    let d = parse_session_date("2025-06-15T10:30:00Z");
    assert!(d.is_some());
    assert_eq!(d.unwrap().to_string(), "2025-06-15");
}

#[test]
fn test_parse_session_date_invalid() {
    assert!(parse_session_date("not-a-date").is_none());
    assert!(parse_session_date("").is_none());
}

fn date(year: i32, month: u32, day: u32) -> Option<CivilDate> {
    Some(CivilDate { year, month, day })
}

#[test]
fn dates_are_read_in_three_ways() {
    assert_eq!(parse_session_date("2025-06-15T23:30:00-08:00"), date(2025, 6, 15));
    assert_eq!(parse_session_date("2024-02-29"), date(2024, 2, 29));
    assert_eq!(parse_session_date("2025-06-15 at noon"), date(2025, 6, 15));
    assert_eq!(parse_session_date("2025-06-15é"), date(2025, 6, 15));
    assert_eq!(parse_session_date("2023-02-29"), None);
    assert_eq!(parse_session_date("é"), None);
}

#[test]
fn unpadded_dates_are_read() {
    assert_eq!(parse_date_filter("2025-6-1"), date(2025, 6, 1));
    assert_eq!(parse_date_filter(" 2025-06-15"), date(2025, 6, 15));
    assert_eq!(parse_date_filter("2025-13-01"), None);
    assert_eq!(parse_date_filter(""), None);
}

#[test]
fn a_character_across_the_tenth_byte_is_told() {
    assert_eq!(read_session_date("123456789é"), None);
    assert_eq!(read_session_date("日本語日本語"), None);
    assert_eq!(read_session_date("1234567é9"), Some(None));
    assert_eq!(read_session_date("2025-06-15T10:30:00Z"), Some(date(2025, 6, 15)));
    assert_eq!(read_session_date(""), Some(None));
}

#[test]
fn dates_are_ordered() {
    let day = CivilDate { year: 2025, month: 6, day: 15 };
    assert!(day.is_before(&CivilDate { year: 2025, month: 6, day: 16 }));
    assert!(day.is_before(&CivilDate { year: 2025, month: 7, day: 1 }));
    assert!(day.is_before(&CivilDate { year: 2026, month: 1, day: 1 }));
    assert!(!day.is_before(&day));
    assert!(!day.is_before(&CivilDate { year: 2024, month: 12, day: 31 }));
}

#[test]
fn dates_are_written_like_chrono_writes_them() {
    for (year, month, day) in [(2025, 6, 15), (7, 1, 2), (-1, 12, 31), (12345, 1, 1), (0, 2, 3)] {
        let ours = CivilDate { year, month, day };
        let theirs = chrono::NaiveDate::from_ymd_opt(year, month, day).unwrap();
        assert_eq!(ours.to_string(), theirs.to_string());
    }
}

#[test]
fn order_agrees_with_chrono() {
    let days = [(2024, 2, 29), (2024, 3, 1), (2023, 12, 31), (2024, 12, 1), (2025, 1, 31)];
    for a in days {
        for b in days {
            let ours = CivilDate { year: a.0, month: a.1, day: a.2 };
            let other = CivilDate { year: b.0, month: b.1, day: b.2 };
            let x = chrono::NaiveDate::from_ymd_opt(a.0, a.1, a.2).unwrap();
            let y = chrono::NaiveDate::from_ymd_opt(b.0, b.1, b.2).unwrap();
            assert_eq!(ours.is_before(&other), x < y);
        }
    }
}

#[test]
fn days_of_the_calendar_are_read() {
    for (text, known) in [
        ("2024-02-29", true),
        ("1900-02-29", false),
        ("2000-02-29", true),
        ("2025-04-31", false),
        ("2025-12-31", true),
        ("0000-01-01", true),
        ("9999-12-31", true),
        ("2025-00-10", false),
        ("2025-13-10", false),
        ("2025-06-00", false),
        ("2025-06-15 ", false),
        ("2025-06-151", false),
    ] {
        assert_eq!(parse_date_filter(text).is_some(), known, "{text}");
    }
    for month in 0..14 {
        for day in 0..33 {
            let text = format!("2023-{month:02}-{day:02}");
            let last = match month {
                1 | 3 | 5 | 7 | 8 | 10 | 12 => 31,
                4 | 6 | 9 | 11 => 30,
                2 => 28,
                _ => 0,
            };
            let wanted = if 1 <= day && day <= last { date(2023, month, day) } else { None };
            assert_eq!(parse_date_filter(&text), wanted, "{text}");
        }
    }
}

#[test]
fn what_follows_a_date_does_not_matter() {
    for tail in ["", "T", "T10:30:00Z", "T10:30:00.5+05:30", " 23:59:60-12:00", "é", "T99:99:99Z"] {
        let text = format!("2025-06-15{tail}");
        assert_eq!(parse_session_date(&text), date(2025, 6, 15), "{text}");
    }
    assert_eq!(parse_session_date("2025-02-30T10:30:00Z"), None);
}

#[test]
fn written_dates_are_read_back() {
    for (year, month, day) in [(0, 1, 1), (987, 11, 9), (2024, 2, 29), (9999, 12, 31)] {
        let written = CivilDate { year, month, day }.to_string();
        assert_eq!(parse_date_filter(&written), date(year, month, day));
        assert_eq!(parse_session_date(&written), date(year, month, day));
    }
}

#[test]
fn texts_without_a_dash_or_a_digit_are_no_dates() {
    for text in ["", "not-a-date", "2025/06/15", "----------", "20250615", "June"] {
        assert_eq!(parse_date_filter(text), None);
        assert_eq!(parse_session_date(text), None);
    }
}
