use continue_transcripts::tool_args::{render_named, render_tool_args, ArgValue};

#[test]
fn test_render_tool_args_bash_command() {
    let result = render_tool_args("Bash", r#"{"command": "npm test"}"#);
    assert!(result.contains("$"));
    assert!(result.contains("npm test"));
    assert!(result.contains("tool-args-bare"));
}

#[test]
fn test_render_tool_args_read_file() {
    let result = render_tool_args("Read", r#"{"file_path": "/src/main.rs"}"#);
    assert!(result.contains("file_path"));
    assert!(result.contains("/src/main.rs"));
    assert!(result.contains("tool-args-kv"));
}

#[test]
fn test_render_tool_args_edit_diff_style() {
    let result = render_tool_args(
        "Edit",
        r#"{"file_path": "test.rs", "old_string": "foo", "new_string": "bar"}"#,
    );
    // Edit renders as a diff with file_path and old/new lines
    assert!(result.contains("file_path"));
    assert!(result.contains("test.rs"));
    assert!(result.contains("diff-remove"));
    assert!(result.contains("diff-add"));
    assert!(result.contains("- foo"));
    assert!(result.contains("+ bar"));
}

#[test]
fn test_render_tool_args_edit_multiline_diff() {
    let result = render_tool_args(
        "Edit",
        r#"{"file_path": "app.ts", "old_string": "line1\nline2", "new_string": "new1\nnew2\nnew3"}"#,
    );
    assert!(result.contains("tool-diff"));
    assert!(result.contains("- line1"));
    assert!(result.contains("- line2"));
    assert!(result.contains("+ new1"));
    assert!(result.contains("+ new2"));
    assert!(result.contains("+ new3"));
}

#[test]
fn test_render_tool_args_invalid_json() {
    let result = render_tool_args("Unknown", "not json at all");
    assert!(result.contains("not json at all"));
}

#[test]
fn test_render_tool_args_percent_decodes_file_paths() {
    // Edit tool: file_path with percent-encoded colons (e.g. Windows C: drive)
    let result = render_tool_args(
        "Edit",
        r#"{"file_path": "C%3A%5CUsers%5Ctest%5Cfile.rs", "old_string": "a", "new_string": "b"}"#,
    );
    assert!(
        result.contains(r"C:\Users\test\file.rs"),
        "Edit file_path should be percent-decoded: {}",
        result
    );
    assert!(!result.contains("%3A"), "Should not contain encoded colons");

    // Single-key (Read tool): file_path with percent-encoded colon
    let result = render_tool_args(
        "Read",
        r#"{"file_path": "/home/user%3Aname/file.rs"}"#,
    );
    assert!(
        result.contains("/home/user:name/file.rs"),
        "Read file_path should be percent-decoded: {}",
        result
    );

    // Multi-key: path key should be percent-decoded
    let result = render_tool_args(
        "Grep",
        r#"{"pattern": "hello", "path": "/home/user%3Aname/project"}"#,
    );
    assert!(
        result.contains("/home/user:name/project"),
        "Multi-key path values should be percent-decoded: {}",
        result
    );

    // Multi-key: non-path keys should NOT be decoded
    let result = render_tool_args(
        "Grep",
        r#"{"pattern": "match%3Athis", "path": "/home/user/project"}"#,
    );
    assert!(
        result.contains("match%3Athis"),
        "Non-path keys should not be percent-decoded: {}",
        result
    );
}

#[test]
fn test_render_tool_args_file_uri_stripped() {
    // file:/// URI with percent-encoded path
    let result = render_tool_args(
        "Read",
        r#"{"file_path": "file:///home/user%3Aname/file.rs"}"#,
    );
    assert!(
        result.contains("/home/user:name/file.rs"),
        "file:/// prefix should be stripped and path decoded: {}",
        result
    );
    assert!(
        !result.contains("file:///"),
        "file:/// prefix should be removed"
    );

    // file:/// URI with Windows path
    let result = render_tool_args(
        "Edit",
        r#"{"file_path": "file:///C%3A/Users/test/file.rs", "old_string": "a", "new_string": "b"}"#,
    );
    assert!(
        result.contains("C:/Users/test/file.rs"),
        "Windows file:/// URI should be decoded: {}",
        result
    );
}

#[test]
fn a_command_is_shown_bare() {
    assert_eq!(
        render_tool_args("run", r#"{"command": "a < b"}"#),
        "<pre class=\"tool-args tool-args-bare\"><code><span class=\"tool-prompt\">$</span> a &lt; b</code></pre>"
    );
    assert_eq!(
        render_tool_args("Bash", r#"{"other": "ls"}"#),
        "<pre class=\"tool-args tool-args-bare\"><code><span class=\"tool-prompt\">$</span> ls</code></pre>"
    );
}

#[test]
fn other_values_are_indented() {
    assert_eq!(
        render_tool_args("x", "[1,2]"),
        "<pre class=\"tool-args\"><code>[\n  1,\n  2\n]</code></pre>"
    );
    assert_eq!(
        render_tool_args("x", r#"{"a": [1], "b": "c"}"#),
        "<pre class=\"tool-args\"><code>{\n  \"a\": [\n    1\n  ],\n  \"b\": \"c\"\n}</code></pre>"
    );
}

#[test]
fn several_arguments_are_listed() {
    assert_eq!(
        render_tool_args("x", r#"{"a": "1 & 2", "b": 3.5, "c": true}"#),
        "<div class=\"tool-args-kv-group\"><div class=\"tool-arg-line\"><span class=\"tool-arg-key\">a</span>: <code>1 &amp; 2</code></div><div class=\"tool-arg-line\"><span class=\"tool-arg-key\">b</span>: <code>3.5</code></div><div class=\"tool-arg-line\"><span class=\"tool-arg-key\">c</span>: <code>true</code></div></div>"
    );
}

#[test]
fn long_arguments_get_a_block() {
    let html = render_tool_args("x", r#"{"a": "one\ntwo", "b": "c"}"#);
    assert!(html.contains("<div class=\"tool-arg-key\">a</div><pre class=\"tool-args\"><code>one\ntwo</code></pre>"));
    let long = format!(r#"{{"a": "{}", "b": "c"}}"#, "x".repeat(121));
    assert!(render_tool_args("x", &long).contains("<div class=\"tool-arg-key\">a</div>"));
    let short = format!(r#"{{"a": "{}", "b": "c"}}"#, "x".repeat(120));
    assert!(!render_tool_args("x", &short).contains("<div class=\"tool-arg-key\">a</div>"));
}

#[test]
fn more_than_eight_arguments_are_indented() {
    let args = r#"{"a":1,"b":1,"c":1,"d":1,"e":1,"f":1,"g":1,"h":1,"i":1}"#;
    assert!(render_tool_args("x", args).starts_with("<pre class=\"tool-args\"><code>{\n"));
}

#[test]
fn an_edit_shows_what_it_replaces() {
    assert_eq!(
        render_tool_args(
            "edit",
            r#"{"file_path": "a.rs", "old_string": "x", "new_string": "", "replace_all": true}"#
        ),
        "<div class=\"tool-args-kv-group\"><div class=\"tool-arg-line\"><span class=\"tool-arg-key\">file_path</span>: <code>a.rs</code></div><div class=\"tool-arg-line\"><span class=\"tool-arg-key\">replace_all</span>: <code>true</code></div><pre class=\"tool-diff\"><code><span class=\"diff-remove\">- x</span>\n</code></pre></div>"
    );
}

#[test]
fn named_arguments_need_no_json() {
    let args = vec![
        ("path".to_string(), ArgValue::Text("a%20b".to_string())),
        ("n".to_string(), ArgValue::Number("7".to_string())),
    ];
    assert_eq!(
        render_named("x", &args),
        Some("<div class=\"tool-args-kv-group\"><div class=\"tool-arg-line\"><span class=\"tool-arg-key\">path</span>: <code>a b</code></div><div class=\"tool-arg-line\"><span class=\"tool-arg-key\">n</span>: <code>7</code></div></div>".to_string())
    );
    let compound = vec![("a".to_string(), ArgValue::Compound)];
    assert_eq!(render_named("x", &compound), None);
}
