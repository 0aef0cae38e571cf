use continue_transcripts::filename::UsedNames;
use continue_transcripts::index::render_index;
use continue_transcripts::run::{
    convert_session, index_entries, list_session, name_transcript, needs_write, record_write, render_report,
    render_verdict, summarize, Conversion, Outcome, WriteResult,
};
use continue_transcripts::selection::Filters;
use continue_transcripts::session::{ChatHistoryItem, ChatMessage, MessageContent, Session, Usage};

fn session(title: &str, date: Option<&str>) -> Session {
    Session {
        session_id: "id".to_string(),
        title: title.to_string(),
        workspace_directory: String::new(),
        history: vec![],
        date_created: date.map(|d| d.to_string()),
    }
}

fn outcome(name: &str, result: WriteResult) -> Outcome {
    record_write(
        format!("T{name}"),
        format!("{name}.html"),
        format!("D{name}"),
        format!("{name}.json"),
        result,
    )
}

#[test]
fn sessions_are_listed_with_fallbacks() {
    assert_eq!(
        list_session(&session("t", Some("d")), Some("f")),
        ("t".to_string(), "d".to_string())
    );
    assert_eq!(
        list_session(&session("", None), Some("f")),
        ("id".to_string(), "f".to_string())
    );
    assert_eq!(list_session(&session("", None), None), ("id".to_string(), String::new()));
}

#[test]
fn transcripts_are_named_by_title_and_date() {
    let mut used = UsedNames::new();
    assert_eq!(name_transcript("a b", "", &mut used), "a_b.html");
    assert_eq!(name_transcript("a b", "2025-06-15 10:30", &mut used), "2025-06-15_a_b.html");
    assert_eq!(name_transcript("a b", "", &mut used), "a_b_1.html");
}

#[test]
fn only_changed_files_are_written() {
    assert!(needs_write(None, "é"));
    assert!(!needs_write(Some("é".as_bytes()), "é"));
    assert!(needs_write(Some("e".as_bytes()), "é"));
    assert!(needs_write(Some("ab".as_bytes()), "ac"));
    assert!(!needs_write(Some(&[]), ""));
}

#[test]
fn the_index_links_what_was_written() {
    let outcomes = vec![
        outcome("1", WriteResult::Written),
        Outcome::Skipped,
        outcome("2", WriteResult::Failed("disk full".to_string())),
        outcome("3", WriteResult::Unchanged),
    ];
    let entries = index_entries(&outcomes);
    assert_eq!(
        entries,
        vec![
            ("T1".to_string(), "1.html".to_string(), "D1".to_string()),
            ("T3".to_string(), "3.html".to_string(), "D3".to_string()),
        ]
    );
    let html = render_index(&entries);
    assert!(html.contains("<span class=\"meta-item\">2 session(s)</span>"));
    for (title, name, date) in &entries {
        assert!(html.contains(&format!(
            "    <tr>\n      <td><a href=\"{name}\">{title}</a></td>\n      <td style=\"white-space:nowrap\">{date}</td>\n    </tr>\n"
        )));
    }
}

#[test]
fn the_index_escapes_its_entries() {
    let html = render_index(&[("a<b".to_string(), "a_b.html".to_string(), "1&2".to_string())]);
    assert!(html.contains("<td><a href=\"a_b.html\">a&lt;b</a></td>"));
    assert!(html.contains("<td style=\"white-space:nowrap\">1&amp;2</td>"));
    assert!(html.starts_with("<!DOCTYPE html>\n<html lang=\"en\">\n<head>\n<meta charset=\"utf-8\">\n<meta name=\"viewport\" content=\"width=device-width, initial-scale=1\">\n<title>Continue.dev Transcripts</title>\n<style>\n"));
    assert!(html.contains("  table { width: 100%; border-collapse: collapse; }\n"));
    assert!(html.contains("placeholder=\"Filter sessions by title or date\\u2026\""));
    assert!(html.ends_with("</script>\n</body>\n</html>"));
    assert!(render_index(&[]).contains("0 session(s)"));
}

#[test]
fn every_outcome_is_counted_once() {
    let outcomes = vec![
        outcome("1", WriteResult::Written),
        Outcome::Skipped,
        outcome("2", WriteResult::Failed("disk full".to_string())),
        outcome("3", WriteResult::Unchanged),
        Outcome::Failed { source: "x.json".to_string(), message: "could not read: no".to_string() },
        Outcome::Skipped,
    ];
    let summary = summarize(&outcomes, &Some(WriteResult::Unchanged));
    assert_eq!(summary.written, 1);
    assert_eq!(summary.unchanged, 1);
    assert_eq!(summary.skipped, 2);
    assert_eq!(summary.errors, 2);
    assert!(summary.has_index);
    assert_eq!(
        render_report(&summary, 6, 4),
        "\n═══════════════════════════════════════════\n  Summary\n═══════════════════════════════════════════\n  Files discovered:  6\n  Sessions written:  1 (+ 1 index)\n  Unchanged:         1\n  Skipped:           2\n  Errors:            2\n    \u{274c} 2.json: write failed: disk full\n    \u{274c} x.json: could not read: no\n  Workers:           4\n"
    );
    assert_eq!(
        render_verdict(&summary),
        ("  \u{274c} Completed with 2 error(s)\n".to_string(), false)
    );
}

#[test]
fn a_run_without_errors_ends_well() {
    let summary = summarize(&vec![outcome("1", WriteResult::Written)], &Some(WriteResult::Written));
    assert_eq!(
        render_report(&summary, 1, 1),
        "\n═══════════════════════════════════════════\n  Summary\n═══════════════════════════════════════════\n  Files discovered:  1\n  Sessions written:  1 (+ 1 index)\n  Workers:           1\n"
    );
    assert_eq!(
        render_verdict(&summary),
        ("  \u{2705} All files processed successfully!\n".to_string(), true)
    );
}

#[test]
fn a_failed_index_is_an_error() {
    let summary = summarize(&vec![], &Some(WriteResult::Failed("no".to_string())));
    assert_eq!(summary.errors, 1);
    assert!(!summary.has_index);
    assert!(summary.failures.is_empty());
    assert!(!summarize(&vec![], &None).has_index);
}

#[test]
fn sessions_are_converted_if_they_are_selected() {
    let none = Filters { title: None, since: None, before: None };
    let other = Filters { title: Some("zzz".to_string()), since: None, before: None };
    let day = continue_transcripts::dates::CivilDate { year: 2025, month: 1, day: 1 };
    let dated = Filters { title: None, since: Some(day), before: None };
    let mut one = session("t", Some("123456789é"));
    assert!(matches!(convert_session(&one, &none, None, None), Conversion::Skipped));
    one.history.push(ChatHistoryItem {
        message: ChatMessage {
            role: "user".to_string(),
            content: MessageContent::Text("hello".to_string()),
            tool_calls: None,
            usage: None,
        },
        context_items: vec![],
        prompt_logs: None,
        tool_call_states: None,
    });
    match convert_session(&one, &none, None, Some("f")) {
        Conversion::Converted { html, title, date } => {
            assert!(html.contains("<p>hello</p>"));
            assert_eq!(title, "t");
            assert_eq!(date, "123456789é");
        }
        _ => panic!("the session is selected"),
    }
    assert!(matches!(convert_session(&one, &other, None, None), Conversion::Skipped));
    assert!(matches!(convert_session(&one, &dated, None, None), Conversion::UnreadableDate));
    one.history[0].message.usage = Some(Usage { prompt_tokens: u64::MAX, completion_tokens: 1 });
    assert!(matches!(convert_session(&one, &none, None, None), Conversion::UncountableTokens));
}
