use continue_transcripts::page::{has_countable_tokens, render_page, render_session, Page};
use continue_transcripts::session::{
    ChatHistoryItem, ChatMessage, MessageContent, PromptLog, Session, ToolCallDelta, ToolCallFunction,
    Usage,
};

#[test]
fn test_render_session_produces_html() {
    let session = Session {
        session_id: "test".to_string(),
        title: "Test".to_string(),
        workspace_directory: "/tmp".to_string(),
        history: vec![ChatHistoryItem {
            message: ChatMessage {
                role: "user".to_string(),
                content: MessageContent::Text("Hello".to_string()),
                tool_calls: None,
                usage: None,
            },
            context_items: vec![],
            prompt_logs: None,
            tool_call_states: None,
        }],
        date_created: Some("2025-01-01".to_string()),
    };

    let html = render_session(&session, None);
    assert!(html.contains("<!DOCTYPE html>"));
    assert!(html.contains("Test"));
    assert!(html.contains("User"));
    assert!(html.contains("Hello"));
}

#[test]
fn test_system_prompt_extracted_to_top() {
    let session = Session {
        session_id: "sp-test".to_string(),
        title: "System Prompt Test".to_string(),
        workspace_directory: "/tmp".to_string(),
        history: vec![
            ChatHistoryItem {
                message: ChatMessage {
                    role: "system".to_string(),
                    content: MessageContent::Text("You are a helpful assistant.".to_string()),
                    tool_calls: None,
                    usage: None,
                },
                context_items: vec![],
                prompt_logs: None,
                tool_call_states: None,
            },
            ChatHistoryItem {
                message: ChatMessage {
                    role: "user".to_string(),
                    content: MessageContent::Text("Hello".to_string()),
                    tool_calls: None,
                    usage: None,
                },
                context_items: vec![],
                prompt_logs: None,
                tool_call_states: None,
            },
        ],
        date_created: Some("2025-01-01".to_string()),
    };

    let html = render_session(&session, None);
    // System prompt should be in a collapsed details element
    assert!(html.contains("class=\"system-prompt\""));
    assert!(html.contains("System Prompt"));
    assert!(html.contains("helpful assistant"));
    // System message should NOT also appear as a standalone message in the transcript
    // (it's extracted to the top)
    let transcript_start = html.find("class=\"transcript\"").unwrap();
    let transcript_section = &html[transcript_start..];
    assert!(!transcript_section.contains("class=\"message system\""));
}

#[test]
fn test_tool_results_nested_under_assistant() {
    let session = Session {
        session_id: "group-test".to_string(),
        title: "Grouping Test".to_string(),
        workspace_directory: "/tmp".to_string(),
        history: vec![
            ChatHistoryItem {
                message: ChatMessage {
                    role: "assistant".to_string(),
                    content: MessageContent::Text("Let me check.".to_string()),
                    tool_calls: Some(vec![ToolCallDelta {
                        function: Some(ToolCallFunction {
                            name: "Bash".to_string(),
                            arguments: r#"{"command": "ls"}"#.to_string(),
                        }),
                    }]),
                    usage: None,
                },
                context_items: vec![],
                prompt_logs: None,
                tool_call_states: None,
            },
            ChatHistoryItem {
                message: ChatMessage {
                    role: "tool".to_string(),
                    content: MessageContent::Text("file1.txt\nfile2.txt".to_string()),
                    tool_calls: None,
                    usage: None,
                },
                context_items: vec![],
                prompt_logs: None,
                tool_call_states: None,
            },
        ],
        date_created: Some("2025-01-01".to_string()),
    };

    let html = render_session(&session, None);
    // Tool result should be inside a details element with label
    assert!(html.contains("tool-result-details"));
    assert!(html.contains("Result: Bash"));
    // Tool result should be nested inside the assistant message
    // (inside assistant-tool-group)
    assert!(html.contains("assistant-tool-group"));
    // Should NOT have a standalone tool-result message
    assert!(!html.contains("class=\"message tool-result\""));
}

#[test]
fn test_token_usage_displayed() {
    let session = Session {
        session_id: "tokens-test".to_string(),
        title: "Token Test".to_string(),
        workspace_directory: "/tmp".to_string(),
        history: vec![
            ChatHistoryItem {
                message: ChatMessage {
                    role: "user".to_string(),
                    content: MessageContent::Text("Hello".to_string()),
                    tool_calls: None,
                    usage: None,
                },
                context_items: vec![],
                prompt_logs: None,
                tool_call_states: None,
            },
            ChatHistoryItem {
                message: ChatMessage {
                    role: "assistant".to_string(),
                    content: MessageContent::Text("Hi!".to_string()),
                    tool_calls: None,
                    usage: Some(Usage {
                        prompt_tokens: 100,
                        completion_tokens: 50,
                    }),
                },
                context_items: vec![],
                prompt_logs: None,
                tool_call_states: None,
            },
        ],
        date_created: Some("2025-01-01".to_string()),
    };

    let html = render_session(&session, None);
    // Token badge should appear
    assert!(html.contains("token-badge"));
    assert!(html.contains("150 tokens"));
    // Running total should appear
    assert!(html.contains("token-running"));
    assert!(html.contains("cumul."));
    // Session header should show total tokens
    assert!(html.contains("Tokens:"));
}

#[test]
fn test_no_token_display_when_no_usage() {
    let session = Session {
        session_id: "no-tokens".to_string(),
        title: "No Tokens".to_string(),
        workspace_directory: "/tmp".to_string(),
        history: vec![ChatHistoryItem {
            message: ChatMessage {
                role: "user".to_string(),
                content: MessageContent::Text("Hello".to_string()),
                tool_calls: None,
                usage: None,
            },
            context_items: vec![],
            prompt_logs: None,
            tool_call_states: None,
        }],
        date_created: Some("2025-01-01".to_string()),
    };

    let html = render_session(&session, None);
    // No token badges when no usage data
    // (token-badge appears in CSS, so check for actual badge markup)
    assert!(!html.contains("class=\"token-badge\""));
    // Session header should not show total tokens line
    assert!(!html.contains("Tokens: "));
}

fn item(role: &str, text: &str) -> ChatHistoryItem {
    ChatHistoryItem {
        message: ChatMessage {
            role: role.to_string(),
            content: MessageContent::Text(text.to_string()),
            tool_calls: None,
            usage: None,
        },
        context_items: vec![],
        prompt_logs: None,
        tool_call_states: None,
    }
}

fn session(history: Vec<ChatHistoryItem>) -> Session {
    Session {
        session_id: "id".to_string(),
        title: String::new(),
        workspace_directory: String::new(),
        history,
        date_created: None,
    }
}

fn usage(prompt_tokens: u64, completion_tokens: u64) -> Option<Usage> {
    Some(Usage { prompt_tokens, completion_tokens })
}

fn transcript_of(html: &str) -> &str {
    let start = html.find("<main class=\"transcript\">\n").unwrap();
    let end = html.find("\n  </main>").unwrap();
    &html[start + "<main class=\"transcript\">\n".len()..end]
}

#[test]
fn missing_data_has_fallbacks() {
    let html = render_session(&session(vec![]), None);
    assert!(html.contains("<title>Untitled Session</title>"));
    assert!(html.contains("<span class=\"meta-item\">Date: Unknown date</span>"));
    assert!(html.contains("<span class=\"meta-item\">Workspace: <code>N/A</code></span>"));
    assert!(html.contains("0 user messages &middot; 0 assistant messages</span>\n    </div>"));
    let html = render_session(&session(vec![]), Some("2025-06-15 10:30"));
    assert!(html.contains("Date: 2025-06-15 10:30</span>"));
}

#[test]
fn a_page_has_its_parts_in_order() {
    let page = Page {
        title: "T<".to_string(),
        session_id: "S".to_string(),
        date: "D".to_string(),
        model_html: "[model]".to_string(),
        workspace: "W".to_string(),
        user_count: 3,
        assistant_count: 4,
        tokens_html: "[tokens]".to_string(),
        prompt_html: "[prompt]".to_string(),
        tools_html: "[tools]".to_string(),
        messages_html: "[messages]".to_string(),
    };
    let html = render_page(&page);
    assert!(html.starts_with("<!DOCTYPE html>\n<html lang=\"en\">\n<head>\n<meta charset=\"utf-8\">\n<meta name=\"viewport\" content=\"width=device-width, initial-scale=1\">\n<title>T&lt;</title>\n<style>\n"));
    assert!(html.contains("</style>\n</head>\n<body>\n<button class=\"theme-toggle\" aria-label=\"Toggle theme\"></button>\n<div class=\"container\">\n  <header class=\"session-header\">\n    <h1>T&lt;</h1>\n    <div class=\"session-meta\">\n      <span class=\"meta-item\">Session: <code>S</code></span>\n      <span class=\"meta-item\">Date: D</span>[model]\n      <span class=\"meta-item\">Workspace: <code>W</code></span>\n      <span class=\"meta-item\">3 user messages &middot; 4 assistant messages</span>[tokens]\n    </div>\n  </header>\n[prompt]\n[tools]\n  <main class=\"transcript\">\n[messages]\n  </main>\n  <footer>\n    <p>Generated by <strong>continue-transcripts</strong></p>\n  </footer>\n</div>\n<script>\n"));
    assert!(html.ends_with("</script>\n</body>\n</html>"));
}

#[test]
fn tool_results_stand_in_the_tool_group() {
    let mut call = item("assistant", "");
    call.message.tool_calls = Some(vec![
        ToolCallDelta {
            function: Some(ToolCallFunction { name: "One".to_string(), arguments: String::new() }),
        },
        ToolCallDelta { function: None },
    ]);
    let html = render_session(
        &session(vec![call, item("tool", "r1"), item("tool", "r2"), item("user", "next"), item("tool", "lost")]),
        None,
    );
    let text = transcript_of(&html);
    assert_eq!(
        text,
        "<div class=\"message assistant\">\n  <div class=\"message-header\"><span class=\"role-label\">Assistant</span></div>\n  <div class=\"assistant-tool-group\">\n<div class=\"tool-call\"><div class=\"tool-call-header\">Tool Call: <strong>One</strong></div></div>    <details class=\"tool-result-details\">\n      <summary>Result: One</summary>\n      <div class=\"tool-result-content\">\n        <pre class=\"tool-result-pre\"><code>r1</code></pre>\n      </div>\n    </details>\n    <details class=\"tool-result-details\">\n      <summary>Tool Result</summary>\n      <div class=\"tool-result-content\">\n        <pre class=\"tool-result-pre\"><code>r2</code></pre>\n      </div>\n    </details>\n  </div>\n</div>\n<div class=\"message user\">\n  <div class=\"message-header\"><span class=\"role-label\">User</span></div>\n  <div class=\"message-content\">\n    <p>next</p>\n\n  </div>\n</div>\n<div class=\"message tool-result\">\n    <details class=\"tool-result-details\">\n      <summary>Tool Result</summary>\n      <div class=\"tool-result-content\">\n        <pre class=\"tool-result-pre\"><code>lost</code></pre>\n      </div>\n    </details>\n</div>\n"
    );
}

#[test]
fn results_without_calls_stand_alone() {
    let html = render_session(&session(vec![item("assistant", "a"), item("tool", "b")]), None);
    assert_eq!(transcript_of(&html).matches("<div class=\"message tool-result\">").count(), 1);
}

#[test]
fn only_the_first_system_message_leaves_the_transcript() {
    let html = render_session(
        &session(vec![item("system", ""), item("system", "first"), item("system", "second")]),
        None,
    );
    let text = transcript_of(&html);
    assert_eq!(text.matches("class=\"message system\"").count(), 2);
    assert!(!text.contains("first"));
    assert!(text.contains("second"));
    assert!(html.contains("<details class=\"system-prompt\">\n  <summary>System Prompt</summary>\n  <div class=\"system-prompt-content\">\n    <p>first</p>\n\n  </div>\n</details>\n"));
}

#[test]
fn tokens_are_summed_over_the_turns() {
    let mut a = item("user", "");
    a.message.usage = usage(10, 0);
    let mut b = item("assistant", "");
    b.message.usage = usage(100, 5);
    let mut hidden = item("system", "prompt");
    hidden.message.usage = usage(1000, 1000);
    let html = render_session(&session(vec![hidden, a, item("user", ""), b]), None);
    assert!(html.contains("Tokens: 115 total (prompt: 110 &middot; completion: 5)</span>"));
    assert!(html.contains("Running total — Prompt: 10 | Completion: 0\">(cumul. 10)</span>"));
    assert!(html.contains("Running total — Prompt: 110 | Completion: 5\">(cumul. 115)</span>"));
    assert!(html.contains("2 user messages &middot; 1 assistant messages"));
}

#[test]
fn tokens_of_tool_results_are_not_summed() {
    let mut call = item("assistant", "");
    call.message.tool_calls = Some(vec![ToolCallDelta { function: None }]);
    let mut result = item("tool", "x");
    result.message.usage = usage(7, 7);
    let html = render_session(&session(vec![call, result]), None);
    assert!(html.contains("Tokens: 0 total (prompt: 0 &middot; completion: 0)</span>"));
}

#[test]
fn the_model_is_carried_on() {
    let mut first = item("user", "");
    first.prompt_logs = Some(vec![PromptLog {
        model_title: "M1".to_string(),
        completion_options: None,
        prompt: String::new(),
    }]);
    let html = render_session(&session(vec![item("assistant", ""), first, item("assistant", "")]), None);
    assert!(html.contains("<span class=\"meta-item\">Model: <code>M1</code></span>"));
    assert_eq!(transcript_of(&html).matches("model-badge").count(), 1);
}

#[test]
fn token_sums_are_checked() {
    let mut big = item("user", "");
    big.message.usage = usage(u64::MAX, 0);
    assert!(has_countable_tokens(&session(vec![big])));
    let mut big = item("user", "");
    big.message.usage = usage(u64::MAX, 0);
    let mut one = item("user", "");
    one.message.usage = usage(0, 1);
    assert!(!has_countable_tokens(&session(vec![big, one])));
}

#[test]
fn called_tools_are_listed() {
    let mut call = item("assistant", "");
    call.message.tool_calls = Some(vec![ToolCallDelta {
        function: Some(ToolCallFunction { name: "Bash".to_string(), arguments: String::new() }),
    }]);
    let html = render_session(
        &session(vec![item("system", "### Bash\nRuns a command."), call]),
        None,
    );
    assert!(html.contains("  <summary>Tools Used (1)</summary>\n"));
    assert!(html.contains("<span class=\"tool-ref-name\">Bash</span> <span class=\"tool-ref-short\">&mdash; Runs a command.</span></summary>\n"));
}

#[test]
fn every_message_is_shown_once() {
    let mut call = item("assistant", "m2");
    call.message.tool_calls = Some(vec![ToolCallDelta { function: None }]);
    let html = render_session(
        &session(vec![
            item("user", "m0"),
            item("system", "m1"),
            call,
            item("tool", "m3"),
            item("tool", "m4"),
            item("thinking", "m5"),
            item("tool", "m6"),
            item("critic", "m7"),
            item("assistant", "m8"),
        ]),
        None,
    );
    let text = transcript_of(&html);
    let mut last = 0;
    for k in 0..9 {
        let marker = format!("m{k}<");
        if k == 1 {
            assert!(!text.contains(&marker));
        } else {
            assert_eq!(text.matches(&marker).count(), 1, "{marker}");
            let at = text.find(&marker).unwrap();
            assert!(at >= last);
            last = at;
        }
    }
}
