use continue_transcripts::session::{
    ChatHistoryItem, ChatMessage, CompletionOptions, MessageContent, PromptLog, Session,
    SystemMessageDescription, ToolCallState, ToolDef, ToolFunction,
};
use continue_transcripts::tools::{extract_tool_defs, ExtractedTool};
use continue_transcripts::tools_reference::{render_open_item, render_tools_reference_from_defs};

fn def(name: &str, description: &str) -> ToolDef {
    ToolDef {
        function: Some(ToolFunction {
            name: name.to_string(),
            description: description.to_string(),
            parameters: None,
        }),
        system_message_description: None,
    }
}

fn item(states: Option<Vec<ToolCallState>>, tools: Option<Vec<ToolDef>>) -> ChatHistoryItem {
    ChatHistoryItem {
        message: ChatMessage {
            role: "user".to_string(),
            content: MessageContent::default(),
            tool_calls: None,
            usage: None,
        },
        context_items: vec![],
        prompt_logs: Some(vec![PromptLog {
            model_title: String::new(),
            completion_options: Some(CompletionOptions { model: String::new(), tools }),
            prompt: String::new(),
        }]),
        tool_call_states: states,
    }
}

fn session(history: Vec<ChatHistoryItem>) -> Session {
    Session {
        session_id: "s".to_string(),
        title: "t".to_string(),
        workspace_directory: String::new(),
        history,
        date_created: None,
    }
}

fn tool(name: &str, description: &str, prefix: &str, parameters: Option<&str>) -> ExtractedTool {
    ExtractedTool {
        name: name.to_string(),
        description: description.to_string(),
        system_message_prefix: prefix.to_string(),
        parameters: parameters.map(|p| p.to_string()),
    }
}

#[test]
fn the_first_definition_of_a_name_counts() {
    let mut full = def("Bash", "state");
    full.system_message_description = Some(SystemMessageDescription { prefix: "p".to_string() });
    if let Some(function) = &mut full.function {
        function.parameters = Some("{}".to_string());
    }
    let history = vec![
        item(None, Some(vec![def("Grep", "first"), def("Bash", "option")])),
        item(
            Some(vec![
                ToolCallState { tool: None },
                ToolCallState { tool: Some(full) },
                ToolCallState { tool: Some(def("", "no name")) },
                ToolCallState {
                    tool: Some(ToolDef { function: None, system_message_description: None }),
                },
                ToolCallState { tool: Some(def("Bash", "again")) },
            ]),
            Some(vec![def("Grep", "second"), def("Edit", "e")]),
        ),
    ];
    let tools = extract_tool_defs(&session(history));
    let names: Vec<&str> = tools.iter().map(|t| t.name.as_str()).collect();
    assert_eq!(names, vec!["Bash", "Grep", "Edit"]);
    assert_eq!(tools[0].description, "state");
    assert_eq!(tools[0].system_message_prefix, "p");
    assert_eq!(tools[0].parameters, Some("{}".to_string()));
    assert_eq!(tools[1].description, "first");
    assert!(extract_tool_defs(&session(vec![])).is_empty());
}

#[test]
fn an_open_item_has_a_summary_and_a_body() {
    assert_eq!(
        render_open_item("n<", "[beside]", "[body]"),
        "    <details class=\"tool-ref-item-details\">\n      <summary class=\"tool-ref-item-summary\"><span class=\"tool-ref-name\">n&lt;</span>[beside]</summary>\n      <div class=\"tool-ref-full\">\n[body]      </div>\n    </details>\n"
    );
}

#[test]
fn tools_are_described_by_their_definition_first() {
    let names: Vec<String> = ["A", "B", "C", "D", "E"].iter().map(|n| n.to_string()).collect();
    let defs = vec![
        tool("A", "old", "", None),
        tool("A", "line <1>\nline 2", "", Some(r#"{"properties": {"x": {}}}"#)),
        tool("B", "", "pre&", None),
        tool("C", "", "", None),
    ];
    let texts = vec![
        ("A".to_string(), "text".to_string(), "text".to_string()),
        ("D".to_string(), "short".to_string(), "full".to_string()),
        ("E".to_string(), "only<".to_string(), String::new()),
    ];
    let html = render_tools_reference_from_defs(&names, &defs, &texts);
    let rest = [
        render_open_item("B", " <span class=\"tool-ref-short\">&mdash; pre&amp;</span>", ""),
        "    <div class=\"tool-ref-item\">\n      <div class=\"tool-ref-name\">C</div>\n    </div>\n".to_string(),
        render_open_item("D", " <span class=\"tool-ref-short\">&mdash; short</span>", "        <p>full</p>\n\n"),
        "    <div class=\"tool-ref-item\">\n      <div class=\"tool-ref-name\">E</div>\n      <div class=\"tool-ref-desc\">only&lt;</div>\n    </div>\n".to_string(),
    ]
    .concat();
    assert!(html.starts_with("<details class=\"tools-reference\">\n  <summary>Tools Used (5)</summary>\n  <div class=\"tools-reference-content\">\n"));
    assert!(html.contains(&rest));
    assert!(html.contains("<span class=\"tool-ref-name\">A</span> <span class=\"tool-ref-short\">&mdash; line &lt;1&gt;</span>"));
    assert!(html.contains("<li><code>x</code> <span class=\"tool-param-type\">(any)</span></li>"));
    assert!(!html.contains("old"));
    assert!(html.ends_with("  </div>\n</details>\n"));
    assert_eq!(render_tools_reference_from_defs(&[], &defs, &texts), "");
    let unknown = render_tools_reference_from_defs(&["Z".to_string()], &defs, &texts);
    assert!(unknown.contains("    <div class=\"tool-ref-item\">\n      <div class=\"tool-ref-name\">Z</div>\n    </div>\n"));
}
