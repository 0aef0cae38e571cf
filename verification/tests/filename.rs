use continue_transcripts::filename::{
    extract_date_prefix, sanitize_filename, unique_filename, UsedNames, MAX_FILENAME_LEN,
};

#[test]
fn test_sanitize_filename() {
    assert_eq!(sanitize_filename("Hello World!"), "Hello_World");
    assert_eq!(sanitize_filename("test/file:name"), "test_file_name");
}

#[test]
fn test_sanitize_filename_truncation() {
    let long_title = "A".repeat(100);
    let result = sanitize_filename(&long_title);
    assert_eq!(result.len(), MAX_FILENAME_LEN);
}

#[test]
fn test_unique_filename_no_collision() {
    let mut used = UsedNames::new();
    let f1 = unique_filename("Session One", None, &mut used);
    let f2 = unique_filename("Session Two", None, &mut used);
    assert_eq!(f1, "Session_One.html");
    assert_eq!(f2, "Session_Two.html");
    assert_ne!(f1, f2);
}

#[test]
fn test_unique_filename_collision() {
    let mut used = UsedNames::new();
    let f1 = unique_filename("Same Title", None, &mut used);
    let f2 = unique_filename("Same Title", None, &mut used);
    let f3 = unique_filename("Same Title", None, &mut used);
    assert_eq!(f1, "Same_Title.html");
    assert_eq!(f2, "Same_Title_1.html");
    assert_eq!(f3, "Same_Title_2.html");
}

#[test]
fn test_unique_filename_empty_title() {
    let mut used = UsedNames::new();
    let f = unique_filename("", None, &mut used);
    assert_eq!(f, "untitled.html");
}

#[test]
fn test_unique_filename_with_date_prefix() {
    let mut used = UsedNames::new();
    let f = unique_filename("My Session", Some("2025-06-15T10:30:00Z"), &mut used);
    assert_eq!(f, "2025-06-15_My_Session.html");
}

#[test]
fn test_unique_filename_date_prefix_collision() {
    let mut used = UsedNames::new();
    let f1 = unique_filename("Chat", Some("2025-06-15T10:00:00Z"), &mut used);
    let f2 = unique_filename("Chat", Some("2025-06-15T14:00:00Z"), &mut used);
    assert_eq!(f1, "2025-06-15_Chat.html");
    assert_eq!(f2, "2025-06-15_Chat_1.html");
}

#[test]
fn test_unique_filename_invalid_date_no_prefix() {
    let mut used = UsedNames::new();
    let f = unique_filename("Session", Some("not-a-date"), &mut used);
    assert_eq!(f, "Session.html");
}

#[test]
fn test_extract_date_prefix() {
    assert_eq!(
        extract_date_prefix("2025-06-15T10:30:00Z"),
        Some("2025-06-15".to_string())
    );
    assert_eq!(
        extract_date_prefix("2025-01-01"),
        Some("2025-01-01".to_string())
    );
    assert_eq!(extract_date_prefix("not-a-date"), None);
    assert_eq!(extract_date_prefix("short"), None);
}

#[test]
fn sanitize_keeps_letters_of_all_scripts() {
    assert_eq!(sanitize_filename("日本 語-é_1"), "日本_語-é_1");
    assert_eq!(sanitize_filename("²½"), "²½");
    assert_eq!(sanitize_filename("___"), "");
    assert_eq!(sanitize_filename(""), "");
}

#[test]
fn sanitize_cuts_before_it_trims() {
    let title = format!("{}   tail", "b".repeat(58));
    assert_eq!(sanitize_filename(&title), "b".repeat(58));
    let title = "日".repeat(70);
    assert_eq!(sanitize_filename(&title), "日".repeat(60));
}

#[test]
fn sanitize_is_idempotent() {
    for title in ["Hello World!", "a/b\\c", " trailing  ", "ünïcode – dash", "x".repeat(80).as_str()] {
        let once = sanitize_filename(title);
        assert_eq!(sanitize_filename(&once), once);
        assert!(once.chars().count() <= MAX_FILENAME_LEN);
        assert!(!once.ends_with('_'));
        assert!(once.chars().all(|c| c.is_alphanumeric() || c == '-' || c == '_'));
    }
}

#[test]
fn date_prefix_has_ten_ascii_characters() {
    assert_eq!(extract_date_prefix("2025-06-1"), None);
    assert_eq!(extract_date_prefix("2025/06/15"), None);
    assert_eq!(extract_date_prefix("20250-6-15"), None);
    assert_eq!(extract_date_prefix("2025-06-15é"), Some("2025-06-15".to_string()));
    assert_eq!(extract_date_prefix("9999-99-99"), Some("9999-99-99".to_string()));
    assert_eq!(extract_date_prefix("2025-06-é"), None);
    assert_eq!(extract_date_prefix(""), None);
}

#[test]
fn names_avoid_what_is_taken() {
    let mut used = UsedNames::new();
    let names = vec![
        unique_filename("a", None, &mut used),
        unique_filename("a_1", None, &mut used),
        unique_filename("a", None, &mut used),
        unique_filename("a", None, &mut used),
        unique_filename("!", None, &mut used),
        unique_filename("?", Some("2025-06-15"), &mut used),
    ];
    assert_eq!(
        names,
        vec!["a.html", "a_1.html", "a_2.html", "a_3.html", "untitled.html", "2025-06-15_untitled.html"]
    );
    assert!(used.contains("a_2.html"));
    assert!(!used.contains("a_4.html"));
}

#[test]
fn files_sort_by_date() {
    let mut used = UsedNames::new();
    let late = unique_filename("A", Some("2025-06-15"), &mut used);
    let early = unique_filename("Z", Some("2024-12-31T23:00:00Z"), &mut used);
    assert!(early < late);
}

#[test]
fn each_call_takes_its_name_and_no_other() {
    let mut used = UsedNames::new();
    let mut names: Vec<String> = Vec::new();
    for (title, date) in [
        ("a", None),
        ("a", Some("2025-06-15")),
        ("a", None),
        ("", Some("no date")),
        ("a_1", None),
        ("a", None),
    ] {
        let name = unique_filename(title, date, &mut used);
        assert!(!names.contains(&name));
        assert!(name.ends_with(".html"));
        names.push(name);
        for taken in ["a", "a_1", "a_1_1", "a_2", "a_3", "untitled", "2025-06-15_a"] {
            let taken = format!("{}.html", taken);
            assert_eq!(used.contains(&taken), names.contains(&taken));
        }
    }
    assert_eq!(names.len(), 6);
}
