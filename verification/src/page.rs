//! The page of a session.
use crate::assets::{CSS, JS};
use crate::descriptions::{described, extract_tool_descriptions};
use crate::html::{escaped, push_escaped, wrap_text};
use crate::markdown::{markdown_html, markdown_to_html};
use crate::message::{
    content_html, context_items_html, law_message_is_framed_by_its_role,
    law_tool_result_is_labelled, message_start, message_with_results, model_badge, token_badge,
    tool_calls_html, tool_group_html, tool_result_html,
};
use crate::paths::{decode_path, display_path};
use crate::session::{
    collect_tool_names, distinct, extract_model, extract_system_prompt, history_tools,
    model_of_history, model_of_item, system_prompt, ChatHistoryItem, Session, ToolCallDelta,
};
use crate::text::{
    contains_text, decimal, lemma_concat_contains, lemma_contains_middle,
    lemma_contains_transitive, lemma_part_contains, lines_of, opt_str, push_decimal, text_or,
};
use crate::tokens::{format_tokens, tokens_text};
use crate::tools::{extract_tool_defs, session_defs, with_tools};
use crate::tools_reference::{render_tools_reference_from_defs, tools_reference_html};
use crate::transcript::{
    calls_of, completion_sum, count_role, law_every_message_is_in_one_turn,
    law_messages_are_counted, law_model_is_the_latest, law_result_stands_with_its_call,
    law_tool_results_stand_in_the_tool_group, lemma_turns_hold_turn, model_after, prompt_sum,
    render_transcript, results_html, running_sums, sums_fit, turn_html, turns, turns_html, Turn,
};
use vstd::prelude::*;

verus! {

/// What the page of a session shows. `title`, `session_id`, `date` and `workspace` are
/// plain text; the fields that end in `html` are HTML.
pub struct Page {
    pub title: String,
    pub session_id: String,
    pub date: String,
    pub model_html: String,
    pub workspace: String,
    pub user_count: u64,
    pub assistant_count: u64,
    pub tokens_html: String,
    pub prompt_html: String,
    pub tools_html: String,
    pub messages_html: String,
}

/// The model of a `Page`.
pub struct PageView {
    pub title: Seq<char>,
    pub session_id: Seq<char>,
    pub date: Seq<char>,
    pub model_html: Seq<char>,
    pub workspace: Seq<char>,
    pub user_count: nat,
    pub assistant_count: nat,
    pub tokens_html: Seq<char>,
    pub prompt_html: Seq<char>,
    pub tools_html: Seq<char>,
    pub messages_html: Seq<char>,
}

impl View for Page {
    type V = PageView;

    open spec fn view(&self) -> PageView {
        PageView {
            title: self.title@,
            session_id: self.session_id@,
            date: self.date@,
            model_html: self.model_html@,
            workspace: self.workspace@,
            user_count: self.user_count as nat,
            assistant_count: self.assistant_count as nat,
            tokens_html: self.tokens_html@,
            prompt_html: self.prompt_html@,
            tools_html: self.tools_html@,
            messages_html: self.messages_html@,
        }
    }
}

/// The head of a page with that title, up to the title in the body.
pub open spec fn page_head(title: Seq<char>) -> Seq<char> {
    "<!DOCTYPE html>\n<html lang=\"en\">\n<head>\n<meta charset=\"utf-8\">\n<meta name=\"viewport\" content=\"width=device-width, initial-scale=1\">\n<title>"@
        + escaped(title) + "</title>\n"@ + CSS@
        + "\n</head>\n<body>\n<button class=\"theme-toggle\" aria-label=\"Toggle theme\"></button>\n<div class=\"container\">\n  <header class=\"session-header\">\n    <h1>"@
        + escaped(title)
        + "</h1>\n    <div class=\"session-meta\">\n      <span class=\"meta-item\">Session: <code>"@
}

/// The header of a page: what is known of the session.
pub open spec fn page_meta(page: PageView) -> Seq<char> {
    escaped(page.session_id) + "</code></span>\n      <span class=\"meta-item\">Date: "@ + escaped(
        page.date,
    ) + "</span>"@ + page.model_html
        + "\n      <span class=\"meta-item\">Workspace: <code>"@ + escaped(page.workspace)
        + "</code></span>\n      <span class=\"meta-item\">"@ + decimal(page.user_count)
        + " user messages &middot; "@ + decimal(page.assistant_count)
        + " assistant messages</span>"@ + page.tokens_html + "\n    </div>\n  </header>\n"@
}

/// The body of a page, from the system prompt to the end.
pub open spec fn page_body(page: PageView) -> Seq<char> {
    page.prompt_html + "\n"@ + page.tools_html + "\n  <main class=\"transcript\">\n"@
        + page.messages_html
        + "\n  </main>\n  <footer>\n    <p>Generated by <strong>continue-transcripts</strong></p>\n  </footer>\n</div>\n"@
        + JS@ + "\n</body>\n</html>"@
}

/// A page as HTML.
pub open spec fn page_html(page: PageView) -> Seq<char> {
    page_head(page.title) + page_meta(page) + page_body(page)
}

fn render_page_head(title: &str) -> (r: String)
    ensures
        r@ == page_head(title@),
{
    let mut r =
        "<!DOCTYPE html>\n<html lang=\"en\">\n<head>\n<meta charset=\"utf-8\">\n<meta name=\"viewport\" content=\"width=device-width, initial-scale=1\">\n<title>".to_string();
    push_escaped(&mut r, title);
    r.push_str("</title>\n");
    r.push_str(CSS);
    r.push_str(
        "\n</head>\n<body>\n<button class=\"theme-toggle\" aria-label=\"Toggle theme\"></button>\n<div class=\"container\">\n  <header class=\"session-header\">\n    <h1>",
    );
    push_escaped(&mut r, title);
    r.push_str(
        "</h1>\n    <div class=\"session-meta\">\n      <span class=\"meta-item\">Session: <code>",
    );
    r
}

fn render_page_meta(page: &Page) -> (r: String)
    ensures
        r@ == page_meta(page@),
{
    let mut r = wrap_text(
        "",
        page.session_id.as_str(),
        "</code></span>\n      <span class=\"meta-item\">Date: ",
    );
    proof {
        reveal_strlit("");
        assert(""@ + escaped(page.session_id@) =~= escaped(page.session_id@));
    }
    push_escaped(&mut r, page.date.as_str());
    r.push_str("</span>");
    r.push_str(page.model_html.as_str());
    r.push_str("\n      <span class=\"meta-item\">Workspace: <code>");
    push_escaped(&mut r, page.workspace.as_str());
    r.push_str("</code></span>\n      <span class=\"meta-item\">");
    push_decimal(&mut r, page.user_count);
    r.push_str(" user messages &middot; ");
    push_decimal(&mut r, page.assistant_count);
    r.push_str(" assistant messages</span>");
    r.push_str(page.tokens_html.as_str());
    r.push_str("\n    </div>\n  </header>\n");
    r
}

fn render_page_body(page: &Page) -> (r: String)
    ensures
        r@ == page_body(page@),
{
    let mut r = page.prompt_html.clone();
    r.push_str("\n");
    r.push_str(page.tools_html.as_str());
    r.push_str("\n  <main class=\"transcript\">\n");
    r.push_str(page.messages_html.as_str());
    r.push_str(
        "\n  </main>\n  <footer>\n    <p>Generated by <strong>continue-transcripts</strong></p>\n  </footer>\n</div>\n",
    );
    r.push_str(JS);
    r.push_str("\n</body>\n</html>");
    r
}

/// Renders a page.
pub fn render_page(page: &Page) -> (r: String)
    ensures
        r@ == page_html(page@),
{
    let mut r = render_page_head(page.title.as_str());
    r.push_str(render_page_meta(page).as_str());
    r.push_str(render_page_body(page).as_str());
    r
}

/// The date of a session: when it was created, else the date of its source.
pub open spec fn page_date(
    date_created: Option<String>,
    source_date: Option<Seq<char>>,
) -> Seq<char> {
    match date_created {
        Some(date) => date@,
        None => match source_date {
            Some(date) => date,
            None => "Unknown date"@,
        },
    }
}

/// The system prompt as HTML. Without a prompt there is none.
pub open spec fn prompt_section(prompt: Seq<char>) -> Seq<char> {
    if prompt.len() == 0 {
        ""@
    } else {
        "<details class=\"system-prompt\">\n  <summary>System Prompt</summary>\n  <div class=\"system-prompt-content\">\n    "@
            + markdown_html(prompt) + "\n  </div>\n</details>\n"@
    }
}

/// The model of a session as HTML, if it is known.
pub open spec fn model_meta(model: Option<Seq<char>>) -> Seq<char> {
    match model {
        Some(name) => "\n      <span class=\"meta-item\">Model: <code>"@ + escaped(name)
            + "</code></span>"@,
        None => ""@,
    }
}

/// Whether any message has token counts.
pub open spec fn has_usage(history: Seq<ChatHistoryItem>) -> bool {
    exists|k: int| 0 <= k < history.len() && (#[trigger] history[k]).message.usage is Some
}

/// The token counts of a session as HTML, if there are any.
pub open spec fn tokens_meta(history: Seq<ChatHistoryItem>, prompt: nat, completion: nat) -> Seq<
    char,
> {
    if has_usage(history) {
        "\n      <span class=\"meta-item\">Tokens: "@ + tokens_text(prompt + completion)
            + " total (prompt: "@ + tokens_text(prompt) + " &middot; completion: "@ + tokens_text(
            completion,
        ) + ")</span>"@
    } else {
        ""@
    }
}

/// The turns that the transcript of a session shows: all but the system prompt.
pub open spec fn session_turns(history: Seq<ChatHistoryItem>) -> Seq<Turn> {
    turns(history, system_prompt(history).1, 0)
}

/// Whether the sum of all tokens of a session is small enough.
pub open spec fn session_tokens_fit(history: Seq<ChatHistoryItem>) -> bool {
    prompt_sum(history, session_turns(history)) + completion_sum(history, session_turns(history))
        <= u64::MAX
}

/// What the page of a session shows.
pub open spec fn session_page(session: Session, source_date: Option<Seq<char>>) -> PageView {
    let history = session.history@;
    let prompt = system_prompt(history).0;
    let list = session_turns(history);
    PageView {
        title: text_or(session.title@, "Untitled Session"@),
        session_id: session.session_id@,
        date: page_date(session.date_created, source_date),
        model_html: model_meta(model_of_history(history)),
        workspace: text_or(display_path(session.workspace_directory@), "N/A"@),
        user_count: count_role(history, list, "user"@),
        assistant_count: count_role(history, list, "assistant"@),
        tokens_html: tokens_meta(
            history,
            prompt_sum(history, list),
            completion_sum(history, list),
        ),
        prompt_html: prompt_section(prompt),
        tools_html: tools_reference_html(
            distinct(history_tools(history)),
            with_tools(Seq::empty(), session_defs(history)),
            described(lines_of(prompt), 0),
        ),
        messages_html: turns_html(history, list),
    }
}

fn copy_or(text: &str, fallback: &str) -> (r: String)
    ensures
        r@ == text_or(text@, fallback@),
{
    if text.is_empty() {
        fallback.to_string()
    } else {
        text.to_string()
    }
}

fn render_prompt_section(prompt: &str) -> (r: String)
    ensures
        r@ == prompt_section(prompt@),
{
    if prompt.is_empty() {
        return "".to_string();
    }
    let mut r =
        "<details class=\"system-prompt\">\n  <summary>System Prompt</summary>\n  <div class=\"system-prompt-content\">\n    ".to_string();
    r.push_str(markdown_to_html(prompt).as_str());
    r.push_str("\n  </div>\n</details>\n");
    r
}

fn any_usage(history: &Vec<ChatHistoryItem>) -> (r: bool)
    ensures
        r == has_usage(history@),
{
    let mut i: usize = 0;
    while i < history.len()
        invariant
            i <= history.len(),
            forall|k: int| 0 <= k < i ==> (#[trigger] history@[k]).message.usage is None,
        decreases history.len() - i,
    {
        if history[i].message.usage.is_some() {
            assert(history@[i as int].message.usage is Some);
            return true;
        }
        i = i + 1;
    }
    false
}

fn render_tokens_meta(history: &Vec<ChatHistoryItem>, prompt: u64, completion: u64) -> (r: String)
    requires
        prompt + completion <= u64::MAX,
    ensures
        r@ == tokens_meta(history@, prompt as nat, completion as nat),
{
    if !any_usage(history) {
        return "".to_string();
    }
    let mut r = "\n      <span class=\"meta-item\">Tokens: ".to_string();
    r.push_str(format_tokens(prompt + completion).as_str());
    r.push_str(" total (prompt: ");
    r.push_str(format_tokens(prompt).as_str());
    r.push_str(" &middot; completion: ");
    r.push_str(format_tokens(completion).as_str());
    r.push_str(")</span>");
    r
}

/// Whether the sum of all tokens of a session is small enough.
pub fn has_countable_tokens(session: &Session) -> (r: bool)
    ensures
        r == session_tokens_fit(session.history@),
{
    let (_, prompt_index) = extract_system_prompt(session);
    sums_fit(&session.history, prompt_index)
}

/// Gathers what the page of a session shows. `source_date` is the date of the file that
/// holds the session; it is shown where the session has no date of its own.
pub fn build_page(session: &Session, source_date: Option<&str>) -> (r: Page)
    requires
        session_tokens_fit(session.history@),
    ensures
        r@ == session_page(*session, opt_str(source_date)),
{
    let (prompt, prompt_index) = extract_system_prompt(session);
    let names = collect_tool_names(session.history.as_slice());
    let defs = extract_tool_defs(session);
    let descriptions = extract_tool_descriptions(prompt.as_str());
    let transcript = render_transcript(&session.history, prompt_index);
    let date = match &session.date_created {
        Some(date) => date.clone(),
        None => match source_date {
            Some(date) => date.to_string(),
            None => "Unknown date".to_string(),
        },
    };
    let model_html = match extract_model(session) {
        Some(name) => wrap_text(
            "\n      <span class=\"meta-item\">Model: <code>",
            name.as_str(),
            "</code></span>",
        ),
        None => "".to_string(),
    };
    let workspace = decode_path(session.workspace_directory.as_str());
    Page {
        title: copy_or(session.title.as_str(), "Untitled Session"),
        session_id: session.session_id.clone(),
        date,
        model_html,
        workspace: copy_or(workspace.as_str(), "N/A"),
        user_count: transcript.user_count,
        assistant_count: transcript.assistant_count,
        tokens_html: render_tokens_meta(
            &session.history,
            transcript.prompt_tokens,
            transcript.completion_tokens,
        ),
        prompt_html: render_prompt_section(prompt.as_str()),
        tools_html: render_tools_reference_from_defs(
            names.as_slice(),
            defs.as_slice(),
            descriptions.as_slice(),
        ),
        messages_html: transcript.html,
    }
}

/// Renders the page of a session. `source_date` is the date of the file that holds it.
pub fn render_session(session: &Session, source_date: Option<&str>) -> (r: String)
    requires
        session_tokens_fit(session.history@),
    ensures
        r@ == page_html(session_page(*session, opt_str(source_date))),
{
    let page = build_page(session, source_date);
    render_page(&page)
}

/// What stands in the messages of a page stands in its body.
proof fn lemma_body_shows_messages(page: PageView, pattern: Seq<char>)
    requires
        contains_text(page.messages_html, pattern),
    ensures
        contains_text(page_body(page), pattern),
{
    let before = page.prompt_html + "\n"@ + page.tools_html
        + "\n  <main class=\"transcript\">\n"@;
    let footer =
        "\n  </main>\n  <footer>\n    <p>Generated by <strong>continue-transcripts</strong></p>\n  </footer>\n</div>\n"@;
    lemma_part_contains(before, page.messages_html, footer, pattern);
    lemma_concat_contains(before + page.messages_html + footer, JS@, pattern);
    lemma_concat_contains(
        before + page.messages_html + footer + JS@,
        "\n</body>\n</html>"@,
        pattern,
    );
}

/// What stands in the body of a page stands on the page.
proof fn lemma_page_shows_body(page: PageView, pattern: Seq<char>)
    requires
        contains_text(page_body(page), pattern),
    ensures
        contains_text(page_html(page), pattern),
{
    let before = page_head(page.title) + page_meta(page);
    let none = Seq::<char>::empty();
    lemma_part_contains(before, page_body(page), none, pattern);
    assert(before + page_body(page) + none =~= page_html(page));
}

/// The page of a session shows each of its turns, with the token counts and the model as of
/// that turn.
pub proof fn law_page_shows_every_turn(
    session: Session,
    source_date: Option<Seq<char>>,
    k: int,
)
    requires
        0 <= k < session_turns(session.history@).len(),
    ensures
        ({
            let history = session.history@;
            let list = session_turns(history);
            contains_text(
                page_html(session_page(session, source_date)),
                turn_html(
                    history,
                    list[k],
                    running_sums(history, list.take(k + 1)),
                    model_after(history, list.take(k + 1)),
                ),
            )
        }),
{
    let history = session.history@;
    let list = session_turns(history);
    let page = session_page(session, source_date);
    let shown = turn_html(
        history,
        list[k],
        running_sums(history, list.take(k + 1)),
        model_after(history, list.take(k + 1)),
    );
    lemma_turns_hold_turn(history, list, k);
    lemma_body_shows_messages(page, shown);
    lemma_page_shows_body(page, shown);
}

/// The head of a page names the session twice: as the title of the page, and above the text.
pub proof fn law_head_shows_the_title(title: Seq<char>)
    ensures
        contains_text(page_head(title), "<title>"@ + escaped(title) + "</title>"@),
        contains_text(page_head(title), "<h1>"@ + escaped(title) + "</h1>"@),
{
    let before =
        "<!DOCTYPE html>\n<html lang=\"en\">\n<head>\n<meta charset=\"utf-8\">\n<meta name=\"viewport\" content=\"width=device-width, initial-scale=1\">\n"@;
    let opening =
        "<!DOCTYPE html>\n<html lang=\"en\">\n<head>\n<meta charset=\"utf-8\">\n<meta name=\"viewport\" content=\"width=device-width, initial-scale=1\">\n<title>"@;
    lemma_head_literals();
    let middle =
        "\n</head>\n<body>\n<button class=\"theme-toggle\" aria-label=\"Toggle theme\"></button>\n<div class=\"container\">\n  <header class=\"session-header\">\n    "@;
    let closing =
        "\n    <div class=\"session-meta\">\n      <span class=\"meta-item\">Session: <code>"@;
    let t = escaped(title);
    let first = "<title>"@ + t + "</title>"@;
    let second = "<h1>"@ + t + "</h1>"@;
    let rest = "\n"@ + CSS@ + middle + second + closing;
    lemma_contains_middle(before, first, rest);
    assert(page_head(title) =~= before + first + rest);
    lemma_contains_middle(before + first + "\n"@ + CSS@ + middle, second, closing);
    assert(page_head(title) =~= before + first + "\n"@ + CSS@ + middle + second + closing);
}

proof fn lemma_head_literals()
    ensures
        "<!DOCTYPE html>\n<html lang=\"en\">\n<head>\n<meta charset=\"utf-8\">\n<meta name=\"viewport\" content=\"width=device-width, initial-scale=1\">\n<title>"@
            == "<!DOCTYPE html>\n<html lang=\"en\">\n<head>\n<meta charset=\"utf-8\">\n<meta name=\"viewport\" content=\"width=device-width, initial-scale=1\">\n"@
            + "<title>"@,
        "</title>\n"@ == "</title>"@ + "\n"@,
        "\n</head>\n<body>\n<button class=\"theme-toggle\" aria-label=\"Toggle theme\"></button>\n<div class=\"container\">\n  <header class=\"session-header\">\n    <h1>"@
            == "\n</head>\n<body>\n<button class=\"theme-toggle\" aria-label=\"Toggle theme\"></button>\n<div class=\"container\">\n  <header class=\"session-header\">\n    "@
            + "<h1>"@,
        "</h1>\n    <div class=\"session-meta\">\n      <span class=\"meta-item\">Session: <code>"@
            == "</h1>"@
            + "\n    <div class=\"session-meta\">\n      <span class=\"meta-item\">Session: <code>"@,
{
    reveal_strlit(
        "<!DOCTYPE html>\n<html lang=\"en\">\n<head>\n<meta charset=\"utf-8\">\n<meta name=\"viewport\" content=\"width=device-width, initial-scale=1\">\n<title>",
    );
    reveal_strlit(
        "<!DOCTYPE html>\n<html lang=\"en\">\n<head>\n<meta charset=\"utf-8\">\n<meta name=\"viewport\" content=\"width=device-width, initial-scale=1\">\n",
    );
    reveal_strlit("<title>");
    reveal_strlit("</title>\n");
    reveal_strlit("</title>");
    reveal_strlit("\n");
    reveal_strlit(
        "\n</head>\n<body>\n<button class=\"theme-toggle\" aria-label=\"Toggle theme\"></button>\n<div class=\"container\">\n  <header class=\"session-header\">\n    <h1>",
    );
    reveal_strlit(
        "\n</head>\n<body>\n<button class=\"theme-toggle\" aria-label=\"Toggle theme\"></button>\n<div class=\"container\">\n  <header class=\"session-header\">\n    ",
    );
    reveal_strlit("<h1>");
    reveal_strlit("</h1>");
    reveal_strlit(
        "</h1>\n    <div class=\"session-meta\">\n      <span class=\"meta-item\">Session: <code>",
    );
    reveal_strlit(
        "\n    <div class=\"session-meta\">\n      <span class=\"meta-item\">Session: <code>",
    );
    assert("<!DOCTYPE html>\n<html lang=\"en\">\n<head>\n<meta charset=\"utf-8\">\n<meta name=\"viewport\" content=\"width=device-width, initial-scale=1\">\n<title>"@
        =~= "<!DOCTYPE html>\n<html lang=\"en\">\n<head>\n<meta charset=\"utf-8\">\n<meta name=\"viewport\" content=\"width=device-width, initial-scale=1\">\n"@
        + "<title>"@);
    assert("</title>\n"@ =~= "</title>"@ + "\n"@);
    assert("\n</head>\n<body>\n<button class=\"theme-toggle\" aria-label=\"Toggle theme\"></button>\n<div class=\"container\">\n  <header class=\"session-header\">\n    <h1>"@
        =~= "\n</head>\n<body>\n<button class=\"theme-toggle\" aria-label=\"Toggle theme\"></button>\n<div class=\"container\">\n  <header class=\"session-header\">\n    "@
        + "<h1>"@);
    assert("</h1>\n    <div class=\"session-meta\">\n      <span class=\"meta-item\">Session: <code>"@
        =~= "</h1>"@
        + "\n    <div class=\"session-meta\">\n      <span class=\"meta-item\">Session: <code>"@);
}

/// The page of a session begins with its title, or a note that it has none, and tells what is
/// known of it: its identifier, its date, or that of its file, its model, if one is named, its
/// workspace, the numbers of the user messages and of the assistant messages in its history, and
/// the sums of its tokens, if any are counted. Then come the system prompt, the tools and the
/// turns.
pub proof fn law_page_tells_of_the_session(
    session: Session,
    source_date: Option<Seq<char>>,
    is_user: spec_fn(ChatHistoryItem) -> bool,
    is_assistant: spec_fn(ChatHistoryItem) -> bool,
)
    requires
        forall|item: ChatHistoryItem|
            #[trigger] is_user(item) == (item.message.role@ == "user"@),
        forall|item: ChatHistoryItem|
            #[trigger] is_assistant(item) == (item.message.role@ == "assistant"@),
    ensures
        ({
            let history = session.history@;
            let list = session_turns(history);
            let title = if session.title@.len() > 0 {
                session.title@
            } else {
                "Untitled Session"@
            };
            let date = if session.date_created is Some {
                session.date_created->0@
            } else if source_date is Some {
                source_date->0
            } else {
                "Unknown date"@
            };
            let workspace = display_path(session.workspace_directory@);
            let prompt_tokens = prompt_sum(history, list);
            let completion_tokens = completion_sum(history, list);
            let prompt = system_prompt(history).0;
            page_html(session_page(session, source_date)) == page_head(title) + (escaped(
                session.session_id@,
            ) + "</code></span>\n      <span class=\"meta-item\">Date: "@ + escaped(date)
                + "</span>"@ + (match model_of_history(history) {
                Some(model) => "\n      <span class=\"meta-item\">Model: <code>"@ + escaped(model)
                    + "</code></span>"@,
                None => ""@,
            }) + "\n      <span class=\"meta-item\">Workspace: <code>"@ + escaped(
                if workspace.len() > 0 {
                    workspace
                } else {
                    "N/A"@
                },
            ) + "</code></span>\n      <span class=\"meta-item\">"@ + decimal(
                history.filter(is_user).len(),
            ) + " user messages &middot; "@ + decimal(history.filter(is_assistant).len())
                + " assistant messages</span>"@ + (if exists|k: int|
                0 <= k < history.len() && (#[trigger] history[k]).message.usage is Some {
                "\n      <span class=\"meta-item\">Tokens: "@ + tokens_text(
                    prompt_tokens + completion_tokens,
                ) + " total (prompt: "@ + tokens_text(prompt_tokens) + " &middot; completion: "@
                    + tokens_text(completion_tokens) + ")</span>"@
            } else {
                ""@
            }) + "\n    </div>\n  </header>\n"@) + ((if prompt.len() > 0 {
                "<details class=\"system-prompt\">\n  <summary>System Prompt</summary>\n  <div class=\"system-prompt-content\">\n    "@
                    + markdown_html(prompt) + "\n  </div>\n</details>\n"@
            } else {
                ""@
            }) + "\n"@ + tools_reference_html(
                distinct(history_tools(history)),
                with_tools(Seq::empty(), session_defs(history)),
                described(lines_of(prompt), 0),
            ) + "\n  <main class=\"transcript\">\n"@ + turns_html(history, list)
                + "\n  </main>\n  <footer>\n    <p>Generated by <strong>continue-transcripts</strong></p>\n  </footer>\n</div>\n"@
                + JS@ + "\n</body>\n</html>"@)
        }),
{
    let history = session.history@;
    law_messages_are_counted(history, "user"@);
    law_messages_are_counted(history, "assistant"@);
    let user = "user"@;
    let assistant = "assistant"@;
    assert(is_user =~= (|item: ChatHistoryItem| item.message.role@ == user));
    assert(is_assistant =~= (|item: ChatHistoryItem| item.message.role@ == assistant));
}

/// On the page of a session, the result at `i` in the turn at `k` stands under the name of the
/// tool that the message of the turn calls at `i`.
pub proof fn law_page_shows_results_under_their_calls(
    session: Session,
    source_date: Option<Seq<char>>,
    k: int,
    calls: Vec<ToolCallDelta>,
    i: int,
)
    requires
        0 <= k < session_turns(session.history@).len(),
        ({
            let history = session.history@;
            let turn = session_turns(history)[k];
            &&& history[turn.start].message.role@ == "assistant"@
            &&& history[turn.start].message.tool_calls == Some(calls)
            &&& forall|p: int| 0 <= p < calls@.len() ==> (#[trigger] calls@[p]).function is Some
            &&& 0 <= i < calls@.len()
            &&& turn.start + 1 + i < turn.end
        }),
    ensures
        ({
            let history = session.history@;
            let turn = session_turns(history)[k];
            let function = calls@[i].function->0;
            &&& contains_text(
                page_html(session_page(session, source_date)),
                tool_result_html(
                    history[turn.start + 1 + i],
                    function.name@,
                    function.arguments@,
                ),
            )
            &&& function.name@.len() > 0 ==> contains_text(
                tool_result_html(
                    history[turn.start + 1 + i],
                    function.name@,
                    function.arguments@,
                ),
                "      <summary>Result: "@ + escaped(function.name@)
                    + "</summary>\n      <div class=\"tool-result-content\">\n"@,
            )
        }),
{
    let history = session.history@;
    let list = session_turns(history);
    let turn = list[k];
    let function = calls@[i].function->0;
    let result = tool_result_html(
        history[turn.start + 1 + i],
        function.name@,
        function.arguments@,
    );
    law_every_message_is_in_one_turn(history);
    law_page_shows_every_turn(session, source_date, k);
    law_result_stands_with_its_call(history, turn.start, turn.end, calls, i);
    let running = running_sums(history, list.take(k + 1));
    let model = model_after(history, list.take(k + 1));
    lemma_turn_shows_results(history, turn, running, model, result);
    lemma_contains_transitive(
        page_html(session_page(session, source_date)),
        turn_html(history, turn, running, model),
        result,
    );
    if function.name@.len() > 0 {
        law_tool_result_is_labelled(
            history[turn.start + 1 + i],
            function.name@,
            function.arguments@,
        );
        lemma_result_label(result, function.name@);
    }
}

/// What stands in the results of a turn stands in the turn.
proof fn lemma_turn_shows_results(
    history: Seq<ChatHistoryItem>,
    turn: Turn,
    running: Option<(u64, u64)>,
    model: Option<Seq<char>>,
    pattern: Seq<char>,
)
    requires
        history[turn.start].message.role@ == "assistant"@,
        calls_of(history[turn.start]).len() > 0,
        contains_text(results_html(history, turn.start, turn.end), pattern),
    ensures
        contains_text(turn_html(history, turn, running, model), pattern),
{
    let item = history[turn.start];
    let role = item.message.role@;
    let results = results_html(history, turn.start, turn.end);
    law_tool_results_stand_in_the_tool_group(history, turn, running, model);
    let before = message_start(
        role,
        model_badge(role, model) + token_badge(item.message.usage, running),
        context_items_html(item.context_items@),
        content_html(item.message.content),
    );
    let start = "  <div class=\"assistant-tool-group\">\n"@ + tool_calls_html(calls_of(item));
    lemma_part_contains(start, results, "  </div>\n"@, pattern);
    lemma_part_contains(before, start + results + "  </div>\n"@, "</div>\n"@, pattern);
}

proof fn lemma_result_label(result: Seq<char>, name: Seq<char>)
    requires
        exists|body: Seq<char>|
            result == #[trigger] ("    <details class=\"tool-result-details\">\n"@ + (
            "      <summary>Result: "@ + escaped(name))
                + "</summary>\n      <div class=\"tool-result-content\">\n"@ + body
                + "      </div>\n    </details>\n"@),
    ensures
        contains_text(
            result,
            "      <summary>Result: "@ + escaped(name)
                + "</summary>\n      <div class=\"tool-result-content\">\n"@,
        ),
{
    let body = choose|body: Seq<char>|
        result == #[trigger] ("    <details class=\"tool-result-details\">\n"@ + (
        "      <summary>Result: "@ + escaped(name))
            + "</summary>\n      <div class=\"tool-result-content\">\n"@ + body
            + "      </div>\n    </details>\n"@);
    let start = "    <details class=\"tool-result-details\">\n"@;
    let label = "      <summary>Result: "@ + escaped(name)
        + "</summary>\n      <div class=\"tool-result-content\">\n"@;
    let end = body + "      </div>\n    </details>\n"@;
    lemma_contains_middle(start, label, end);
    assert(start + label + end =~= result);
}

/// On the page of a session an assistant message shows the model that was named last: that of
/// the latest turn, up to its own, whose message names one.
pub proof fn law_page_shows_the_latest_model(
    session: Session,
    source_date: Option<Seq<char>>,
    k: int,
    m: int,
    model: Seq<char>,
)
    requires
        0 <= m <= k < session_turns(session.history@).len(),
        ({
            let history = session.history@;
            let list = session_turns(history);
            &&& history[list[k].start].message.role@ == "assistant"@
            &&& model_of_item(history[list[m].start]) == Some(model)
            &&& model.len() > 0
            &&& forall|j: int|
                m < j <= k ==> model_of_item(history[(#[trigger] list[j]).start]) is None
        }),
    ensures
        contains_text(
            page_html(session_page(session, source_date)),
            "<div class=\"message assistant\">\n  <div class=\"message-header\"><span class=\"role-label\">Assistant</span> <span class=\"model-badge\" title=\"Model\">"@
                + escaped(model) + "</span>"@,
        ),
{
    let history = session.history@;
    let list = session_turns(history);
    let turn = list[k];
    let running = running_sums(history, list.take(k + 1));
    law_model_is_the_latest(history, list, k, m);
    law_page_shows_every_turn(session, source_date, k);
    let shown = turn_html(history, turn, running, Some(model));
    lemma_message_shows_model(
        history[turn.start],
        running,
        model,
        results_html(history, turn.start, turn.end),
    );
    lemma_contains_transitive(
        page_html(session_page(session, source_date)),
        shown,
        "<div class=\"message assistant\">\n  <div class=\"message-header\"><span class=\"role-label\">Assistant</span> <span class=\"model-badge\" title=\"Model\">"@
            + escaped(model) + "</span>"@,
    );
}

proof fn lemma_message_shows_model(
    item: ChatHistoryItem,
    running: Option<(u64, u64)>,
    model: Seq<char>,
    results: Seq<char>,
)
    requires
        item.message.role@ == "assistant"@,
        model.len() > 0,
    ensures
        contains_text(
            message_with_results(item, running, Some(model), results),
            "<div class=\"message assistant\">\n  <div class=\"message-header\"><span class=\"role-label\">Assistant</span> <span class=\"model-badge\" title=\"Model\">"@
                + escaped(model) + "</span>"@,
        ),
{
    law_message_is_framed_by_its_role(
        item,
        running,
        Some(model),
        results,
        "assistant"@,
        "Assistant"@,
    );
    lemma_badge_literals();
    lemma_begins_with_badge(
        "<div class=\"message "@ + "assistant"@ + "\">\n"@
            + "  <div class=\"message-header\"><span class=\"role-label\">"@ + "Assistant"@
            + "</span>"@,
        " <span class=\"model-badge\" title=\"Model\">"@,
        escaped(model),
        "</span>"@,
        token_badge(item.message.usage, running),
        "</div>\n"@,
        context_items_html(item.context_items@),
        content_html(item.message.content),
        tool_group_html(item.message.tool_calls, results),
        "</div>\n"@,
    );
}

proof fn lemma_begins_with_badge(
    opening: Seq<char>,
    badge: Seq<char>,
    model: Seq<char>,
    badge_end: Seq<char>,
    tokens: Seq<char>,
    header_end: Seq<char>,
    context: Seq<char>,
    content: Seq<char>,
    calls: Seq<char>,
    end: Seq<char>,
)
    ensures
        contains_text(
            opening + (badge + model + badge_end) + tokens + header_end + context + content + calls
                + end,
            opening + badge + model + badge_end,
        ),
{
    let none = Seq::<char>::empty();
    let start = opening + badge + model + badge_end;
    let rest = tokens + header_end + context + content + calls + end;
    lemma_contains_middle(none, start, rest);
    assert(none + start + rest =~= opening + (badge + model + badge_end) + tokens + header_end
        + context + content + calls + end);
}

proof fn lemma_badge_literals()
    ensures
        "<div class=\"message assistant\">\n  <div class=\"message-header\"><span class=\"role-label\">Assistant</span> <span class=\"model-badge\" title=\"Model\">"@
            == "<div class=\"message "@ + "assistant"@ + "\">\n"@
            + "  <div class=\"message-header\"><span class=\"role-label\">"@ + "Assistant"@
            + "</span>"@ + " <span class=\"model-badge\" title=\"Model\">"@,
{
    reveal_strlit(
        "<div class=\"message assistant\">\n  <div class=\"message-header\"><span class=\"role-label\">Assistant</span> <span class=\"model-badge\" title=\"Model\">",
    );
    reveal_strlit("<div class=\"message ");
    reveal_strlit("assistant");
    reveal_strlit("\">\n");
    reveal_strlit("  <div class=\"message-header\"><span class=\"role-label\">");
    reveal_strlit("Assistant");
    reveal_strlit("</span>");
    reveal_strlit(" <span class=\"model-badge\" title=\"Model\">");
    assert("<div class=\"message assistant\">\n  <div class=\"message-header\"><span class=\"role-label\">Assistant</span> <span class=\"model-badge\" title=\"Model\">"@
        =~= "<div class=\"message "@ + "assistant"@ + "\">\n"@
        + "  <div class=\"message-header\"><span class=\"role-label\">"@ + "Assistant"@
        + "</span>"@ + " <span class=\"model-badge\" title=\"Model\">"@);
}

} // verus!
