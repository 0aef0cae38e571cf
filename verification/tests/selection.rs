use continue_transcripts::dates::CivilDate;
use continue_transcripts::selection::{select_session, Filters};
use continue_transcripts::session::{ChatHistoryItem, ChatMessage, MessageContent, Session};

fn day(day: u32) -> CivilDate {
    CivilDate { year: 2025, month: 6, day }
}

fn session(title: &str, date: Option<&str>) -> Session {
    Session {
        session_id: "s".to_string(),
        title: title.to_string(),
        workspace_directory: String::new(),
        history: vec![ChatHistoryItem {
            message: ChatMessage {
                role: "user".to_string(),
                content: MessageContent::default(),
                tool_calls: None,
                usage: None,
            },
            context_items: vec![],
            prompt_logs: None,
            tool_call_states: None,
        }],
        date_created: date.map(|d| d.to_string()),
    }
}

fn filters(title: Option<&str>, since: Option<u32>, before: Option<u32>) -> Filters {
    Filters { title: title.map(|t| t.to_string()), since: since.map(day), before: before.map(day) }
}

#[test]
fn all_sessions_with_messages_are_selected_without_filters() {
    let none = filters(None, None, None);
    assert_eq!(select_session(&session("a", None), &none, None), Some(true));
    let mut empty = session("a", None);
    empty.history.clear();
    assert_eq!(select_session(&empty, &none, None), Some(false));
}

#[test]
fn titles_are_matched_without_case() {
    let wanted = filters(Some("ÉTÉ"), None, None);
    assert_eq!(select_session(&session("L'été dernier", None), &wanted, None), Some(true));
    assert_eq!(select_session(&session("ete", None), &wanted, None), Some(false));
    assert_eq!(select_session(&session("a", None), &filters(Some(""), None, None), None), Some(true));
}

#[test]
fn ranges_include_the_first_day_only() {
    let range = filters(None, Some(10), Some(12));
    for (date, selected) in [
        ("2025-06-09", false),
        ("2025-06-10", true),
        ("2025-06-11T23:59:59Z", true),
        ("2025-06-12", false),
    ] {
        assert_eq!(select_session(&session("a", Some(date)), &range, None), Some(selected));
    }
    assert_eq!(
        select_session(&session("a", Some("2025-06-12")), &filters(None, Some(10), None), None),
        Some(true)
    );
    assert_eq!(
        select_session(&session("a", Some("2025-06-12")), &filters(None, None, Some(12)), None),
        Some(false)
    );
}

#[test]
fn adjacent_ranges_share_no_session() {
    for d in 1..30 {
        let text = format!("2025-06-{d:02}");
        let one = session("a", Some(&text));
        let whole = select_session(&one, &filters(None, Some(5), Some(20)), None).unwrap();
        let early = select_session(&one, &filters(None, Some(5), Some(12)), None).unwrap();
        let late = select_session(&one, &filters(None, Some(12), Some(20)), None).unwrap();
        assert_eq!(whole, early || late);
        assert!(!(early && late));
    }
}

#[test]
fn the_date_of_the_file_stands_in() {
    let range = filters(None, Some(10), None);
    assert_eq!(select_session(&session("a", None), &range, Some(day(11))), Some(true));
    assert_eq!(select_session(&session("a", Some("soon")), &range, Some(day(11))), Some(true));
    assert_eq!(select_session(&session("a", Some("2025-06-01")), &range, Some(day(11))), Some(false));
    assert_eq!(select_session(&session("a", None), &range, None), Some(false));
}

#[test]
fn unreadable_dates_are_told_where_they_matter() {
    let bad = session("a", Some("123456789é"));
    assert_eq!(select_session(&bad, &filters(None, Some(1), None), None), None);
    assert_eq!(select_session(&bad, &filters(None, None, None), None), Some(true));
    assert_eq!(select_session(&bad, &filters(Some("zzz"), Some(1), None), None), Some(false));
}
