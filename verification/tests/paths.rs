use continue_transcripts::paths::{decode_path, is_path_key, lang_from_filename, percent_decode};

#[test]
fn test_percent_decode_basic() {
    assert_eq!(percent_decode("hello%20world"), "hello world");
    assert_eq!(percent_decode("%2Fhome%2Fuser"), "/home/user");
}

#[test]
fn test_percent_decode_windows_path() {
    assert_eq!(
        percent_decode("C%3A%5CUsers%5Ctest"),
        "C:\\Users\\test"
    );
}

#[test]
fn test_percent_decode_no_encoding() {
    assert_eq!(percent_decode("/home/user/project"), "/home/user/project");
}

#[test]
fn test_percent_decode_mixed() {
    assert_eq!(
        percent_decode("/path/to%20my%20file.txt"),
        "/path/to my file.txt"
    );
}

#[test]
fn test_is_path_key() {
    assert!(is_path_key("file_path"));
    assert!(is_path_key("filepath"));
    assert!(is_path_key("path"));
    assert!(is_path_key("directory"));
    assert!(is_path_key("notebook_path"));
    assert!(!is_path_key("pattern"));
    assert!(!is_path_key("command"));
    assert!(!is_path_key("old_string"));
    assert!(!is_path_key("content"));
}

#[test]
fn test_decode_path_file_uri() {
    // Unix file URI
    assert_eq!(decode_path("file:///home/user/file.rs"), "/home/user/file.rs");
    // Windows file URI
    assert_eq!(decode_path("file:///C%3A/Users/test"), "C:/Users/test");
    // Percent-encoded without file:/// prefix
    assert_eq!(decode_path("C%3A%5CUsers%5Ctest"), r"C:\Users\test");
    // Plain path — no change
    assert_eq!(decode_path("/home/user/file.rs"), "/home/user/file.rs");
}

#[test]
fn test_lang_from_filename() {
    assert_eq!(lang_from_filename("src/auth/middleware.ts"), "ts");
    assert_eq!(lang_from_filename("main.rs"), "rs");
    assert_eq!(lang_from_filename("/home/user/project/app.py"), "py");
    assert_eq!(lang_from_filename("Dockerfile"), "Dockerfile");
    assert_eq!(lang_from_filename("Makefile"), "makefile");
    assert_eq!(lang_from_filename("no-extension"), "");
}

#[test]
fn test_lang_from_filename_windows_path() {
    assert_eq!(lang_from_filename("C:\\Users\\test\\file.tsx"), "tsx");
}

#[test]
fn percent_decode_handles_characters_of_several_bytes() {
    assert_eq!(percent_decode("caf%C3%A9"), "café");
    assert_eq!(percent_decode("%E6%97%A5"), "日");
    assert_eq!(percent_decode("日%20本"), "日 本");
}

#[test]
fn percent_decode_keeps_what_is_no_code() {
    assert_eq!(percent_decode("100%"), "100%");
    assert_eq!(percent_decode("%4"), "%4");
    assert_eq!(percent_decode("%zz%41"), "%zzA");
    assert_eq!(percent_decode("a%2"), "a%2");
    assert_eq!(percent_decode("%20"), " ");
    assert_eq!(percent_decode(""), "");
}

#[test]
fn percent_decode_accepts_a_sign_as_the_first_digit() {
    assert_eq!(percent_decode("%+1x"), "\u{1}x");
}

#[test]
fn percent_decode_gives_up_on_invalid_text() {
    assert_eq!(percent_decode("%FF%20"), "%FF%20");
}

#[test]
fn file_uris_are_absolute_paths() {
    assert_eq!(decode_path("file:////server/share"), "/server/share");
    assert_eq!(decode_path("file:///"), "/");
    assert_eq!(decode_path("file:///c:"), "c:");
    assert_eq!(decode_path("file://host/x"), "file://host/x");
}

#[test]
fn language_is_taken_from_the_last_part() {
    assert_eq!(lang_from_filename("a.b/c"), "");
    assert_eq!(lang_from_filename("archive.tar.gz"), "gz");
    assert_eq!(lang_from_filename("dir/GNUmakefile"), "makefile");
    assert_eq!(lang_from_filename("dir\\dockerfile"), "Dockerfile");
    assert_eq!(lang_from_filename(".bashrc"), "bashrc");
    assert_eq!(lang_from_filename("name."), "");
    assert_eq!(lang_from_filename(""), "");
}

#[test]
fn percent_decode_reads_digits_of_both_cases() {
    assert_eq!(percent_decode("%c3%A9 caf%C3%a9 100%25"), "é café 100%");
    assert_eq!(percent_decode("日%2f本%2F"), "日/本/");
}
