use continue_transcripts::session::{
    collect_tool_names, extract_model, extract_system_prompt, item_model, ChatHistoryItem, ChatMessage,
    CompletionOptions, MessageContent, MessagePart, PromptLog, Session, ToolCallDelta,
    ToolCallFunction,
};

#[test]
fn test_message_content_text() {
    let mc = MessageContent::Text("hello world".to_string());
    assert_eq!(mc.text(), "hello world");
    assert!(!mc.is_empty());
}

#[test]
fn test_message_content_empty() {
    let mc = MessageContent::Text("   ".to_string());
    assert!(mc.is_empty());
}

#[test]
fn test_collect_tool_names() {
    let history = vec![
        ChatHistoryItem {
            message: ChatMessage {
                role: "assistant".to_string(),
                content: MessageContent::Text(String::new()),
                tool_calls: Some(vec![
                    ToolCallDelta {
                        function: Some(ToolCallFunction {
                            name: "Bash".to_string(),
                            arguments: String::new(),
                        }),
                    },
                    ToolCallDelta {
                        function: Some(ToolCallFunction {
                            name: "Read".to_string(),
                            arguments: String::new(),
                        }),
                    },
                ]),
                usage: None,
            },
            context_items: vec![],
            prompt_logs: None,
            tool_call_states: None,
        },
        ChatHistoryItem {
            message: ChatMessage {
                role: "assistant".to_string(),
                content: MessageContent::Text(String::new()),
                tool_calls: Some(vec![ToolCallDelta {
                    function: Some(ToolCallFunction {
                        name: "Bash".to_string(), // duplicate
                        arguments: String::new(),
                    }),
                }]),
                usage: None,
            },
            context_items: vec![],
            prompt_logs: None,
            tool_call_states: None,
        },
    ];

    let names = collect_tool_names(&history);
    assert_eq!(names, vec!["Bash", "Read"]); // deduplicated, ordered
}

#[test]
fn test_system_prompt_prefers_system_message() {
    // System messages in history are the primary source
    let session = Session {
        session_id: "sys-msg-test".to_string(),
        title: "System Message Test".to_string(),
        workspace_directory: "/tmp".to_string(),
        history: vec![
            ChatHistoryItem {
                message: ChatMessage {
                    role: "system".to_string(),
                    content: MessageContent::Text("You are a helpful assistant.".to_string()),
                    tool_calls: None,
                    usage: None,
                },
                context_items: vec![],
                prompt_logs: None,
                tool_call_states: None,
            },
            ChatHistoryItem {
                message: ChatMessage {
                    role: "user".to_string(),
                    content: MessageContent::Text("Hello".to_string()),
                    tool_calls: None,
                    usage: None,
                },
                context_items: vec![],
                prompt_logs: None,
                tool_call_states: None,
            },
        ],
        date_created: Some("2025-01-01".to_string()),
    };

    let (prompt, idx) = extract_system_prompt(&session);
    assert_eq!(prompt, "You are a helpful assistant.");
    assert_eq!(idx, Some(0));
}

#[test]
fn test_parse_parts_content() {
    let content = MessageContent::Parts(vec![
        MessagePart::Text { text: "hello ".to_string() },
        MessagePart::Text { text: "world".to_string() },
    ]);
    assert_eq!(content.text(), "hello world");
}

fn item(role: &str, text: &str) -> ChatHistoryItem {
    ChatHistoryItem {
        message: ChatMessage {
            role: role.to_string(),
            content: MessageContent::Text(text.to_string()),
            tool_calls: None,
            usage: None,
        },
        context_items: vec![],
        prompt_logs: None,
        tool_call_states: None,
    }
}

fn log(model_title: &str, model: Option<&str>, prompt: &str) -> PromptLog {
    PromptLog {
        model_title: model_title.to_string(),
        completion_options: model
            .map(|m| CompletionOptions { model: m.to_string(), tools: None }),
        prompt: prompt.to_string(),
    }
}

fn session(history: Vec<ChatHistoryItem>) -> Session {
    Session {
        session_id: "s".to_string(),
        title: "t".to_string(),
        workspace_directory: String::new(),
        history,
        date_created: None,
    }
}

#[test]
fn content_is_a_text_or_parts() {
    let parts = MessageContent::Parts(vec![
        MessagePart::Text { text: "a".to_string() },
        MessagePart::ImageUrl {},
        MessagePart::Text { text: "b".to_string() },
        MessagePart::Unknown,
    ]);
    assert_eq!(parts.text(), "ab");
    assert!(!parts.is_empty());
    assert!(!MessageContent::Parts(vec![MessagePart::ImageUrl {}]).is_empty());
    assert!(!MessageContent::Parts(vec![MessagePart::Unknown]).is_empty());
    assert!(MessageContent::Parts(vec![MessagePart::Text { text: "\u{3000}\n".to_string() }]).is_empty());
    assert!(MessageContent::Parts(vec![]).is_empty());
    assert!(MessageContent::default().is_empty());
    assert_eq!(MessageContent::default().text(), "");
}

#[test]
fn the_first_model_that_is_named_counts() {
    let mut a = item("user", "");
    a.prompt_logs = Some(vec![log("", None, ""), log("", Some(""), ""), log("", Some("m"), ""), log("t", None, "")]);
    assert_eq!(item_model(&a), Some("m"));
    let mut b = item("user", "");
    b.prompt_logs = Some(vec![log("title", Some("m2"), "")]);
    assert_eq!(item_model(&b), Some("title"));
    assert_eq!(item_model(&item("user", "")), None);
    assert_eq!(extract_model(&session(vec![item("user", ""), a, b])), Some("m".to_string()));
    assert_eq!(extract_model(&session(vec![item("user", "")])), None);
}

#[test]
fn a_logged_prompt_stands_in_for_a_system_message() {
    let mut a = item("user", "");
    a.prompt_logs = Some(vec![log("", None, ""), log("", None, "expert")]);
    let mut b = item("user", "");
    b.prompt_logs = Some(vec![log("", None, "later")]);
    assert_eq!(
        extract_system_prompt(&session(vec![item("system", ""), a, b])),
        ("expert".to_string(), None)
    );
    let mut c = item("user", "");
    c.prompt_logs = Some(vec![log("", None, "logged")]);
    assert_eq!(
        extract_system_prompt(&session(vec![c, item("system", ""), item("system", " ")])),
        (" ".to_string(), Some(2))
    );
    assert_eq!(extract_system_prompt(&session(vec![])), (String::new(), None));
}

#[test]
fn tools_are_named_in_the_order_of_their_first_call() {
    let call = |name: &str| ToolCallDelta {
        function: Some(ToolCallFunction { name: name.to_string(), arguments: String::new() }),
    };
    let mut a = item("assistant", "");
    a.message.tool_calls = Some(vec![call("B"), call(""), ToolCallDelta { function: None }, call("A")]);
    let mut b = item("user", "");
    b.message.tool_calls = Some(vec![call("A"), call("C"), call("B")]);
    assert_eq!(collect_tool_names(&[item("user", ""), a, b]), vec!["B", "A", "C"]);
    assert!(collect_tool_names(&[]).is_empty());
}
