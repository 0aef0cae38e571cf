use continue_transcripts::parameters::{
    read_parameters, render_parameters, render_parameters_schema, Parameter,
};

#[test]
fn test_render_parameters_schema() {
    let schema = r#"{
        "type": "object",
        "properties": {
            "command": {
                "type": "string",
                "description": "The shell command to execute"
            },
            "timeout": {
                "type": "number",
                "description": "Timeout in milliseconds"
            }
        },
        "required": ["command"]
    }"#;

    let html = render_parameters_schema(schema);
    assert!(html.contains("Parameters"));
    assert!(html.contains("command"));
    assert!(html.contains("string, required"));
    assert!(html.contains("The shell command to execute"));
    assert!(html.contains("timeout"));
    assert!(html.contains("number"));
    assert!(!html.contains("number, required")); // timeout is not required
}

#[test]
fn test_render_parameters_schema_with_enum() {
    let schema = r#"{
        "type": "object",
        "properties": {
            "output_mode": {
                "type": "string",
                "description": "Output mode",
                "enum": ["content", "files_with_matches", "count"]
            }
        },
        "required": []
    }"#;

    let html = render_parameters_schema(schema);
    assert!(html.contains("output_mode"));
    assert!(html.contains("content"));
    assert!(html.contains("files_with_matches"));
    assert!(html.contains("count"));
}

#[test]
fn parameters_are_read_from_a_schema() {
    let params = read_parameters(
        r#"{"properties": {"b": {"type": "string", "enum": ["x", 1, "y"]}, "a": 5}, "required": ["a", 2]}"#,
    )
    .unwrap();
    assert_eq!(params.len(), 2);
    assert_eq!(params[0].name, "a");
    assert_eq!(params[0].kind, "any");
    assert!(params[0].required);
    assert_eq!(params[1].name, "b");
    assert_eq!(params[1].kind, "string");
    assert!(!params[1].required);
    assert_eq!(params[1].choices, vec!["x", "y"]);
    assert!(read_parameters("{}").is_none());
    assert!(read_parameters(r#"{"properties": []}"#).is_none());
    assert!(read_parameters("not json").is_none());
}

#[test]
fn parameters_are_listed() {
    let params = vec![
        Parameter {
            name: "a<".to_string(),
            kind: "number".to_string(),
            required: true,
            description: "d&".to_string(),
            choices: vec!["1".to_string(), "<2>".to_string()],
        },
        Parameter {
            name: "b".to_string(),
            kind: "any".to_string(),
            required: false,
            description: String::new(),
            choices: vec![],
        },
    ];
    assert_eq!(
        render_parameters(&params),
        "        <div class=\"tool-params\">\n          <div class=\"tool-params-header\">Parameters</div>\n          <ul class=\"tool-params-list\">\n            <li><code>a&lt;</code> <span class=\"tool-param-type\">(number, required)</span>: d&amp; [<code>1</code>, <code>&lt;2&gt;</code>]</li>\n            <li><code>b</code> <span class=\"tool-param-type\">(any)</span></li>\n          </ul>\n        </div>\n"
    );
    assert_eq!(render_parameters_schema("{}"), "");
}
