use continue_transcripts::message::{
    render_context_items, render_message, render_message_with_results, render_tool_calls,
    render_tool_result_inline, role_class, role_label, strip_line_numbers, try_highlight_read_result,
};
use continue_transcripts::session::{
    ChatHistoryItem, ChatMessage, ContextItem, MessageContent, ToolCallDelta, ToolCallFunction, Usage,
};

#[test]
fn test_context_items_syntax_highlighted() {
    let items = vec![ContextItem {
        name: "src/app.ts".to_string(),
        description: "Main app".to_string(),
        content: "const x: number = 42;".to_string(),
    }];
    let html = render_context_items(&items);
    // Should use highlighted-code class for TypeScript
    assert!(html.contains("highlighted-code") || html.contains("context-content"));
    assert!(html.contains("src/app.ts"));
}

#[test]
fn test_try_highlight_read_result() {
    let args = r#"{"file_path": "/home/user/test.rs"}"#;
    let content = "     1\tfn main() {\n     2\t    println!(\"hello\");\n     3\t}";
    let result = try_highlight_read_result(args, content);
    assert!(result.is_some());
    let hl = result.unwrap();
    assert!(hl.contains("highlighted-code"));
}

#[test]
fn test_try_highlight_read_result_no_extension() {
    let args = r#"{"file_path": "/home/user/README"}"#;
    let content = "just some text";
    let result = try_highlight_read_result(args, content);
    assert!(result.is_none());
}

#[test]
fn test_model_badge_on_assistant() {
    let item = ChatHistoryItem {
        message: ChatMessage {
            role: "assistant".to_string(),
            content: MessageContent::Text("Hello".to_string()),
            tool_calls: None,
            usage: None,
        },
        context_items: vec![],
        prompt_logs: None,
        tool_call_states: None,
    };
    let html = render_message(&item, None, Some("Example 3.5 Large"));
    assert!(html.contains("model-badge"));
    assert!(html.contains("Example 3.5 Large"));
}

#[test]
fn test_no_model_badge_on_user() {
    let item = ChatHistoryItem {
        message: ChatMessage {
            role: "user".to_string(),
            content: MessageContent::Text("Hello".to_string()),
            tool_calls: None,
            usage: None,
        },
        context_items: vec![],
        prompt_logs: None,
        tool_call_states: None,
    };
    let html = render_message(&item, None, Some("Example 3.5 Large"));
    // Model badge should not appear on user messages
    assert!(!html.contains("model-badge"));
}

#[test]
fn test_thinking_default_collapsed() {
    let item = ChatHistoryItem {
        message: ChatMessage {
            role: "thinking".to_string(),
            content: MessageContent::Text("I should check the tests.".to_string()),
            tool_calls: None,
            usage: None,
        },
        context_items: vec![],
        prompt_logs: None,
        tool_call_states: None,
    };

    let html = render_message(&item, None, None);
    // Should be <details class="thinking-details"> WITHOUT the "open" attribute
    assert!(html.contains("<details class=\"thinking-details\">"));
    assert!(!html.contains("<details open"));
}

fn item(role: &str, text: &str) -> ChatHistoryItem {
    ChatHistoryItem {
        message: ChatMessage {
            role: role.to_string(),
            content: MessageContent::Text(text.to_string()),
            tool_calls: None,
            usage: None,
        },
        context_items: vec![],
        prompt_logs: None,
        tool_call_states: None,
    }
}

#[test]
fn roles_have_labels_and_classes() {
    for (role, label, class) in [
        ("user", "User", "user"),
        ("assistant", "Assistant", "assistant"),
        ("system", "System", "system"),
        ("tool", "Tool Result", "tool-result"),
        ("thinking", "Thinking", "thinking"),
        ("critic", "critic", "unknown"),
    ] {
        assert_eq!(role_label(role), label);
        assert_eq!(role_class(role), class);
    }
}

#[test]
fn a_plain_message_is_rendered_whole() {
    assert_eq!(
        render_message(&item("user", "hi"), None, None),
        "<div class=\"message user\">\n  <div class=\"message-header\"><span class=\"role-label\">User</span></div>\n  <div class=\"message-content\">\n    <p>hi</p>\n\n  </div>\n</div>\n"
    );
    assert_eq!(
        render_message(&item("critic", " "), None, None),
        "<div class=\"message unknown\">\n  <div class=\"message-header\"><span class=\"role-label\">critic</span></div>\n</div>\n"
    );
    assert_eq!(
        render_message(&item("thinking", ""), None, None),
        "<div class=\"message thinking\">\n  <details class=\"thinking-details\">\n    <summary class=\"message-header\"><span class=\"role-label\">Thinking</span></summary>\n  </details>\n</div>\n"
    );
}

#[test]
fn badges_tell_the_model_and_the_tokens() {
    let mut message = item("assistant", "");
    message.message.usage = Some(Usage { prompt_tokens: 1200, completion_tokens: 34 });
    assert_eq!(
        render_message(&message, Some((20000, 5)), Some("m<1>")),
        "<div class=\"message assistant\">\n  <div class=\"message-header\"><span class=\"role-label\">Assistant</span> <span class=\"model-badge\" title=\"Model\">m&lt;1&gt;</span><span class=\"token-badge\" title=\"Prompt: 1,200 | Completion: 34\">1,234 tokens</span> <span class=\"token-running\" title=\"Running total — Prompt: 20.0k | Completion: 5\">(cumul. 20.0k)</span></div>\n</div>\n"
    );
    assert!(!render_message(&item("assistant", ""), Some((1, 2)), Some("")).contains("badge"));
}

#[test]
fn tool_calls_stand_in_a_group() {
    let mut message = item("assistant", "");
    message.message.tool_calls = Some(vec![
        ToolCallDelta { function: None },
        ToolCallDelta {
            function: Some(ToolCallFunction { name: "a&b".to_string(), arguments: String::new() }),
        },
    ]);
    assert!(render_message(&message, None, None).ends_with(
        "  <div class=\"assistant-tool-group\">\n<div class=\"tool-call\"><div class=\"tool-call-header\">Tool Call: <strong>a&amp;b</strong></div></div>  </div>\n</div>\n"
    ));
    message.message.tool_calls = Some(vec![]);
    assert!(!render_message(&message, None, None).contains("assistant-tool-group"));
    assert_eq!(render_tool_calls(&[]), "");
}

#[test]
fn context_items_are_counted_and_listed() {
    assert_eq!(render_context_items(&[]), "");
    let items = vec![
        ContextItem {
            name: "notes".to_string(),
            description: String::new(),
            content: "a < b".to_string(),
        },
        ContextItem { name: String::new(), description: "d&".to_string(), content: String::new() },
    ];
    assert_eq!(
        render_context_items(&items),
        "<details class=\"context-items\"><summary>Context Items (2)</summary><div class=\"context-item\"><div class=\"context-name\">notes</div><pre class=\"context-content\"><code>a &lt; b</code></pre></div><div class=\"context-item\"><div class=\"context-desc\">d&amp;</div></div></details>"
    );
}

#[test]
fn known_context_files_are_highlighted() {
    let items = vec![ContextItem {
        name: "main.rs".to_string(),
        description: String::new(),
        content: "fn main() {}".to_string(),
    }];
    assert!(render_context_items(&items).contains("<pre class=\"highlighted-code context-content\">"));
}

#[test]
fn line_numbers_are_stripped() {
    assert_eq!(strip_line_numbers("     1\tfn\n    12\t\tx\ny\tz\n\tw"), "fn\n\tx\ny\tz\n\tw");
    assert_eq!(strip_line_numbers("  \tx = 1"), "  \tx = 1");
    assert_eq!(strip_line_numbers("1 2\tx"), "1 2\tx");
    assert_eq!(strip_line_numbers("a\r\n1\tb\n"), "a\nb");
    assert_eq!(strip_line_numbers(""), "");
}

#[test]
fn a_read_is_highlighted_by_its_path() {
    let first = try_highlight_read_result(r#"{"filepath": "a.rs"}"#, "1\tlet x = 1;").unwrap();
    assert!(first.starts_with("<pre class=\"highlighted-code tool-result-pre\">"));
    assert!(!first.contains("1\t"));
    assert!(try_highlight_read_result(r#"{"file_path": 1, "filepath": "a.rs"}"#, "x").is_none());
    assert!(try_highlight_read_result("{}", "x").is_none());
    assert!(try_highlight_read_result("not json", "x").is_none());
    assert!(try_highlight_read_result(r#"{"file_path": "a.nosuchextension"}"#, "x").is_none());
}

#[test]
fn tool_results_open() {
    assert_eq!(
        render_tool_result_inline(&item("tool", "a < b"), "Run<", ""),
        "    <details class=\"tool-result-details\">\n      <summary>Result: Run&lt;</summary>\n      <div class=\"tool-result-content\">\n        <pre class=\"tool-result-pre\"><code>a &lt; b</code></pre>\n      </div>\n    </details>\n"
    );
    assert_eq!(
        render_tool_result_inline(&item("tool", ""), "", ""),
        "    <details class=\"tool-result-details\">\n      <summary>Tool Result</summary>\n      <div class=\"tool-result-content\">\n      </div>\n    </details>\n"
    );
    let colored = render_tool_result_inline(&item("tool", "\x1b[31mno\x1b[0m"), "Bash", "");
    assert!(colored.contains("<code><span style=\"color:#e06c75\">no</span></code>"));
    let read = render_tool_result_inline(
        &item("tool", "1\tfn f() {}"),
        "Read",
        r#"{"file_path": "a.rs"}"#,
    );
    assert!(read.contains("        <pre class=\"highlighted-code tool-result-pre\">"));
    let other = render_tool_result_inline(
        &item("tool", "1\tfn f() {}"),
        "Grep",
        r#"{"file_path": "a.rs"}"#,
    );
    assert!(other.contains("<code>1\tfn f() {}</code>"));
}

#[test]
fn line_numbers_do_not_matter() {
    for text in ["", "one", "fn f() {\n\n    g();\n}\n", "a\r\nb\n", "1\n2", "a\nb\r", "\r"] {
        let numbered: Vec<String> =
            text.lines().enumerate().map(|(i, line)| format!("{:>6}\t{}", i + 1, line)).collect();
        let numbered = numbered.join("\n");
        let lines: Vec<&str> = text.lines().collect();
        assert_eq!(strip_line_numbers(&numbered), lines.join("\n"));
        let args = r#"{"file_path": "a.rs"}"#;
        assert_eq!(
            try_highlight_read_result(args, &numbered),
            try_highlight_read_result(args, text)
        );
    }
}

#[test]
fn indentation_is_no_line_number() {
    let html = try_highlight_read_result(r#"{"file_path": "a.py"}"#, "\tx = 1").unwrap();
    assert!(html.contains('\t'));
}

#[test]
fn results_are_rendered_with_their_message() {
    let mut message = item("assistant", "");
    message.message.tool_calls = Some(vec![ToolCallDelta { function: None }]);
    assert_eq!(
        render_message_with_results(&message, None, None, "[results]"),
        "<div class=\"message assistant\">\n  <div class=\"message-header\"><span class=\"role-label\">Assistant</span></div>\n  <div class=\"assistant-tool-group\">\n[results]  </div>\n</div>\n"
    );
}
