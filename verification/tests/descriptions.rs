use continue_transcripts::descriptions::extract_tool_descriptions;

#[test]
fn test_extract_tool_descriptions() {
    let system = "## Tools\n\n### Bash\nExecute a shell command and return its output.\n\n### Read\nRead the contents of a file from the local filesystem.\n\n### Edit\nPerform exact string replacements in files.\n";
    let descs = extract_tool_descriptions(system);
    assert!(descs.len() >= 3);
    assert!(descs.iter().any(|(name, _, _)| name == "Bash"));
    assert!(descs.iter().any(|(name, _, _)| name == "Read"));
    assert!(descs.iter().any(|(name, _, _)| name == "Edit"));
}

#[test]
fn test_extract_tool_descriptions_full_content() {
    let system = "## Tools\n\n### Bash\nExecute a shell command.\n\nParameters:\n- `command` (string, required): The command\n- `timeout` (number, optional): Timeout in ms\n\n### Read\nRead a file.\n\nParameters:\n- `file_path` (string, required): Path\n";
    let descs = extract_tool_descriptions(system);
    assert_eq!(descs.len(), 2);

    let (name, _short, full) = &descs[0];
    assert_eq!(name, "Bash");
    // Full content should include parameters
    assert!(full.contains("Parameters:"));
    assert!(full.contains("`command`"));
    assert!(full.contains("`timeout`"));

    let (name2, _short2, full2) = &descs[1];
    assert_eq!(name2, "Read");
    assert!(full2.contains("`file_path`"));
}

fn found(text: &str) -> Vec<(String, String, String)> {
    extract_tool_descriptions(text)
}

#[test]
fn a_description_ends_at_the_next_header() {
    assert_eq!(
        found("### Read\nOne.\n\nTwo.\nThree.\n#### Deep\nFour.\n## Next\nFive.\n"),
        vec![(
            "Read".to_string(),
            "One. Two.".to_string(),
            "One.\n\nTwo.\nThree.\n#### Deep\nFour.".to_string()
        )]
    );
}

#[test]
fn only_what_looks_like_a_name_counts() {
    assert!(found("### lower\ntext").is_empty());
    assert!(found("### With.dot\ntext").is_empty());
    assert!(found("#### Deep\ntext").is_empty());
    assert!(found("## Two\ntext").is_empty());
    assert!(found("###NoSpace\ntext").is_empty());
    assert!(found("###  \ntext").is_empty());
    assert!(found("").is_empty());
    assert!(found(&format!("### {}\ntext", "A".repeat(40))).is_empty());
    assert_eq!(found(&format!("### {}\ntext", "A".repeat(39))).len(), 1);
    assert!(found(&format!("### É{}\ntext", "a".repeat(38))).is_empty());
    assert_eq!(found("  ### Éa  \n text ")[0].0, "Éa");
    assert!(found("### # X\ntext").is_empty());
}

#[test]
fn a_tool_without_a_description_is_left_out() {
    let tools = found("### A\n\n  \n### B\nb\n");
    assert_eq!(tools.len(), 1);
    assert_eq!(tools[0].0, "B");
}

#[test]
fn tools_keep_the_order_of_their_headers() {
    let tools = found("### Write\nw\n### Empty\n\n## Other\n### Bash\n\n  b\n### Write\n x\r\n\n");
    let names: Vec<&str> = tools.iter().map(|tool| tool.0.as_str()).collect();
    assert_eq!(names, vec!["Write", "Bash", "Write"]);
    let short: Vec<&str> = tools.iter().map(|tool| tool.1.as_str()).collect();
    assert_eq!(short, vec!["w", "b", "x"]);
}
