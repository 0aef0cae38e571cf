//! Messages as HTML: their header, context items, content, tool calls and tool results.
use crate::ansi::{ansi_html, ansi_to_html};
use crate::highlight::{highlight_code, highlighted, restyle, restyled};
use crate::html::{escaped, lemma_escaped_concat, push_escaped, wrap_text};
use crate::json::{
    get_member, get_string, json_member, json_node, json_string, lemma_member_named,
    lemma_no_member_named, JsonView,
};
use crate::markdown::{markdown_html, markdown_to_html};
use crate::paths::{file_language, lang_from_filename};
use crate::session::{ChatHistoryItem, ContextItem, MessageContent, ToolCallDelta, Usage};
use crate::text::{
    char_index, chars_of, concatenated, contains_text, decimal, first_index, has_char, is_digit,
    is_white_space, join, joined, lemma_concat_contains, lemma_concatenated_push,
    lemma_decimal_digits, lemma_first_index, lemma_first_index_is, lemma_line_chars,
    lemma_lines_of_joined, lemma_trimmed_empty, lines, lines_of, opt_str, opt_view, push_decimal,
    push_text, same_text, trim, trimmed, trimmed_end, views,
};
use crate::tokens::{format_tokens, tokens_text};
use crate::tool_args::{render_tool_args, tool_args_html};
use vstd::prelude::*;

verus! {

/// What a role is called on the page.
pub open spec fn label_of(role: Seq<char>) -> Seq<char> {
    if role == "user"@ {
        "User"@
    } else if role == "assistant"@ {
        "Assistant"@
    } else if role == "system"@ {
        "System"@
    } else if role == "tool"@ {
        "Tool Result"@
    } else if role == "thinking"@ {
        "Thinking"@
    } else {
        role
    }
}

/// The label of a role. A role that is not known labels itself.
pub fn role_label<'a>(role: &'a str) -> (r: &'a str)
    ensures
        r@ == label_of(role@),
{
    if same_text(role, "user") {
        "User"
    } else if same_text(role, "assistant") {
        "Assistant"
    } else if same_text(role, "system") {
        "System"
    } else if same_text(role, "tool") {
        "Tool Result"
    } else if same_text(role, "thinking") {
        "Thinking"
    } else {
        role
    }
}

/// The style class of a role.
pub open spec fn class_of(role: Seq<char>) -> Seq<char> {
    if role == "user"@ {
        "user"@
    } else if role == "assistant"@ {
        "assistant"@
    } else if role == "system"@ {
        "system"@
    } else if role == "tool"@ {
        "tool-result"@
    } else if role == "thinking"@ {
        "thinking"@
    } else {
        "unknown"@
    }
}

/// The style class of a role.
pub fn role_class<'a>(role: &'a str) -> (r: &'a str)
    ensures
        r@ == class_of(role@),
{
    if same_text(role, "user") {
        "user"
    } else if same_text(role, "assistant") {
        "assistant"
    } else if same_text(role, "system") {
        "system"
    } else if same_text(role, "tool") {
        "tool-result"
    } else if same_text(role, "thinking") {
        "thinking"
    } else {
        "unknown"
    }
}

/// A call of the tool of that name, with the HTML of its arguments.
pub open spec fn tool_call_frame(name: Seq<char>, args: Seq<char>) -> Seq<char> {
    "<div class=\"tool-call\">"@ + "<div class=\"tool-call-header\">Tool Call: <strong>"@
        + escaped(name) + "</strong></div>"@ + args + "</div>"@
}

/// A tool call as HTML. A call without a function is not shown.
pub open spec fn tool_call_html(call: ToolCallDelta) -> Seq<char> {
    match call.function {
        Some(function) => tool_call_frame(
            function.name@,
            if function.arguments@.len() > 0 {
                tool_args_html(function.name@, function.arguments@)
            } else {
                ""@
            },
        ),
        None => ""@,
    }
}

/// Tool calls as HTML.
pub open spec fn tool_calls_html(calls: Seq<ToolCallDelta>) -> Seq<char>
    decreases calls.len(),
{
    if calls.len() == 0 {
        ""@
    } else {
        tool_calls_html(calls.drop_last()) + tool_call_html(calls.last())
    }
}

/// Renders a call of the tool of that name, out of the HTML of its arguments.
pub fn frame_tool_call(name: &str, args: &str) -> (r: String)
    ensures
        r@ == tool_call_frame(name@, args@),
{
    let mut r = "<div class=\"tool-call\">".to_string();
    r.push_str("<div class=\"tool-call-header\">Tool Call: <strong>");
    push_escaped(&mut r, name);
    r.push_str("</strong></div>");
    r.push_str(args);
    r.push_str("</div>");
    r
}

fn render_tool_call(call: &ToolCallDelta) -> (r: String)
    ensures
        r@ == tool_call_html(*call),
{
    match &call.function {
        Some(function) => {
            let args = if !function.arguments.as_str().is_empty() {
                render_tool_args(function.name.as_str(), function.arguments.as_str())
            } else {
                "".to_string()
            };
            frame_tool_call(function.name.as_str(), args.as_str())
        },
        None => "".to_string(),
    }
}

/// Renders tool calls.
pub fn render_tool_calls(tool_calls: &[ToolCallDelta]) -> (r: String)
    ensures
        r@ == tool_calls_html(tool_calls@),
{
    let mut r = "".to_string();
    let mut i: usize = 0;
    assert(tool_calls@.take(0) =~= Seq::empty());
    while i < tool_calls.len()
        invariant
            i <= tool_calls.len(),
            r@ == tool_calls_html(tool_calls@.take(i as int)),
        decreases tool_calls.len() - i,
    {
        assert(tool_calls@.take(i + 1).drop_last() =~= tool_calls@.take(i as int));
        r.push_str(render_tool_call(&tool_calls[i]).as_str());
        i = i + 1;
    }
    assert(tool_calls@.take(i as int) =~= tool_calls@);
    r
}

/// `text`, escaped, between `before` and `after`; nothing if it is empty.
pub open spec fn optional_text(
    before: Seq<char>,
    text: Seq<char>,
    after: Seq<char>,
) -> Seq<char> {
    if text.len() > 0 {
        before + escaped(text) + after
    } else {
        ""@
    }
}

fn wrap_optional_text(before: &str, text: &str, after: &str) -> (r: String)
    ensures
        r@ == optional_text(before@, text@, after@),
{
    if text.is_empty() {
        "".to_string()
    } else {
        wrap_text(before, text, after)
    }
}

/// The highlighted HTML of `code` for a file of that name, with `attribute` in place of
/// its style. There is none without a known file extension.
pub open spec fn highlighted_file(
    name: Seq<char>,
    code: Seq<char>,
    attribute: Seq<char>,
) -> Option<Seq<char>> {
    if file_language(name).len() == 0 {
        None
    } else {
        match highlighted(file_language(name), code) {
            Some(html) => Some(restyled(html, attribute)),
            None => None,
        }
    }
}

fn highlight_file(name: &str, code: &str, attribute: &str) -> (r: Option<String>)
    ensures
        opt_view(r) == highlighted_file(name@, code@, attribute@),
{
    let lang = lang_from_filename(name);
    if lang.is_empty() {
        return None;
    }
    match highlight_code(lang, code) {
        Some(html) => Some(restyle(html, attribute)),
        None => None,
    }
}

/// The content of a context item as HTML: highlighted where its name tells the language.
pub open spec fn context_content_html(item: ContextItem) -> Seq<char> {
    match highlighted_file(
        item.name@,
        item.content@,
        "class=\"highlighted-code context-content\""@,
    ) {
        Some(html) => html,
        None => "<pre class=\"context-content\"><code>"@ + escaped(item.content@)
            + "</code></pre>"@,
    }
}

/// A context item of that name and description, with the HTML of its content.
pub open spec fn context_frame(
    name: Seq<char>,
    description: Seq<char>,
    content: Seq<char>,
) -> Seq<char> {
    "<div class=\"context-item\">"@ + optional_text(
        "<div class=\"context-name\">"@,
        name,
        "</div>"@,
    ) + optional_text("<div class=\"context-desc\">"@, description, "</div>"@) + content
        + "</div>"@
}

/// A context item as HTML.
pub open spec fn context_item_html(item: ContextItem) -> Seq<char> {
    context_frame(
        item.name@,
        item.description@,
        if item.content@.len() > 0 {
            context_content_html(item)
        } else {
            ""@
        },
    )
}

/// Context items as HTML, one after the other.
pub open spec fn context_list_html(items: Seq<ContextItem>) -> Seq<char>
    decreases items.len(),
{
    if items.len() == 0 {
        ""@
    } else {
        context_list_html(items.drop_last()) + context_item_html(items.last())
    }
}

/// The context items of a message as HTML. Without items there is none.
pub open spec fn context_items_html(items: Seq<ContextItem>) -> Seq<char> {
    if items.len() == 0 {
        ""@
    } else {
        "<details class=\"context-items\"><summary>Context Items ("@ + decimal(items.len())
            + ")</summary>"@ + context_list_html(items) + "</details>"@
    }
}

/// Renders a context item of that name and description, out of the HTML of its content.
pub fn frame_context_item(name: &str, description: &str, content: &str) -> (r: String)
    ensures
        r@ == context_frame(name@, description@, content@),
{
    let mut r = "<div class=\"context-item\">".to_string();
    r.push_str(wrap_optional_text("<div class=\"context-name\">", name, "</div>").as_str());
    r.push_str(wrap_optional_text("<div class=\"context-desc\">", description, "</div>").as_str());
    r.push_str(content);
    r.push_str("</div>");
    r
}

fn render_context_item(item: &ContextItem) -> (r: String)
    ensures
        r@ == context_item_html(*item),
{
    let content = if item.content.as_str().is_empty() {
        "".to_string()
    } else {
        match highlight_file(
            item.name.as_str(),
            item.content.as_str(),
            "class=\"highlighted-code context-content\"",
        ) {
            Some(html) => html,
            None => wrap_text(
                "<pre class=\"context-content\"><code>",
                item.content.as_str(),
                "</code></pre>",
            ),
        }
    };
    frame_context_item(item.name.as_str(), item.description.as_str(), content.as_str())
}

/// Renders the context items of a message as a section that opens.
pub fn render_context_items(items: &[ContextItem]) -> (r: String)
    ensures
        r@ == context_items_html(items@),
{
    if items.len() == 0 {
        return "".to_string();
    }
    let mut list = "".to_string();
    let mut i: usize = 0;
    assert(items@.take(0) =~= Seq::empty());
    while i < items.len()
        invariant
            i <= items.len(),
            list@ == context_list_html(items@.take(i as int)),
        decreases items.len() - i,
    {
        assert(items@.take(i + 1).drop_last() =~= items@.take(i as int));
        list.push_str(render_context_item(&items[i]).as_str());
        i = i + 1;
    }
    assert(items@.take(i as int) =~= items@);
    let mut r = "<details class=\"context-items\"><summary>Context Items (".to_string();
    push_decimal(&mut r, items.len() as u64);
    r.push_str(")</summary>");
    r.push_str(list.as_str());
    r.push_str("</details>");
    r
}

/// The model's name beside the label of an assistant message.
pub open spec fn model_badge(role: Seq<char>, model: Option<Seq<char>>) -> Seq<char> {
    match model {
        Some(name) => if role == "assistant"@ {
            optional_text(" <span class=\"model-badge\" title=\"Model\">"@, name, "</span>"@)
        } else {
            ""@
        },
        None => ""@,
    }
}

/// The tokens of the message and of all messages so far.
pub open spec fn running_badge(running: Option<(u64, u64)>) -> Seq<char> {
    match running {
        Some((prompt, completion)) =>
        " <span class=\"token-running\" title=\"Running total — Prompt: "@ + tokens_text(
            prompt as nat,
        ) + " | Completion: "@ + tokens_text(completion as nat) + "\">(cumul. "@ + tokens_text(
            (prompt + completion) as nat,
        ) + ")</span>"@,
        None => ""@,
    }
}

/// The tokens that a message took.
pub open spec fn token_badge(usage: Option<Usage>, running: Option<(u64, u64)>) -> Seq<char> {
    match usage {
        Some(usage) => "<span class=\"token-badge\" title=\"Prompt: "@ + tokens_text(
            usage.prompt_tokens as nat,
        ) + " | Completion: "@ + tokens_text(usage.completion_tokens as nat) + "\">"@ + tokens_text(
            (usage.prompt_tokens + usage.completion_tokens) as nat,
        ) + " tokens</span>"@ + running_badge(running),
        None => ""@,
    }
}

/// Whether the sums of tokens that a message shows are small enough.
pub open spec fn tokens_fit(usage: Option<Usage>, running: Option<(u64, u64)>) -> bool {
    usage matches Some(u) ==> u.prompt_tokens + u.completion_tokens <= u64::MAX && (
    running matches Some(sums) ==> sums.0 + sums.1 <= u64::MAX)
}

fn render_model_badge(role: &str, model: Option<&str>) -> (r: String)
    ensures
        r@ == model_badge(role@, opt_str(model)),
{
    match model {
        Some(name) => {
            if same_text(role, "assistant") {
                wrap_optional_text(
                    " <span class=\"model-badge\" title=\"Model\">",
                    name,
                    "</span>",
                )
            } else {
                "".to_string()
            }
        },
        None => "".to_string(),
    }
}

fn render_running_badge(running: Option<(u64, u64)>) -> (r: String)
    requires
        running matches Some(sums) ==> sums.0 + sums.1 <= u64::MAX,
    ensures
        r@ == running_badge(running),
{
    match running {
        Some((prompt, completion)) => {
            let mut r =
                " <span class=\"token-running\" title=\"Running total — Prompt: ".to_string();
            r.push_str(format_tokens(prompt).as_str());
            r.push_str(" | Completion: ");
            r.push_str(format_tokens(completion).as_str());
            r.push_str("\">(cumul. ");
            r.push_str(format_tokens(prompt + completion).as_str());
            r.push_str(")</span>");
            r
        },
        None => "".to_string(),
    }
}

fn render_token_badge(usage: &Option<Usage>, running: Option<(u64, u64)>) -> (r: String)
    requires
        tokens_fit(*usage, running),
    ensures
        r@ == token_badge(*usage, running),
{
    match usage {
        Some(usage) => {
            let prompt: u64 = usage.prompt_tokens;
            let completion: u64 = usage.completion_tokens;
            let mut r = "<span class=\"token-badge\" title=\"Prompt: ".to_string();
            r.push_str(format_tokens(prompt).as_str());
            r.push_str(" | Completion: ");
            r.push_str(format_tokens(completion).as_str());
            r.push_str("\">");
            r.push_str(format_tokens(prompt + completion).as_str());
            r.push_str(" tokens</span>");
            r.push_str(render_running_badge(running).as_str());
            r
        },
        None => "".to_string(),
    }
}

/// The header of a message: the label of its role with badges. A thinking message begins
/// a section that opens, with the header as its summary.
pub open spec fn header_html(role: Seq<char>, badges: Seq<char>) -> Seq<char> {
    if role == "thinking"@ {
        "  <details class=\"thinking-details\">\n"@
            + "    <summary class=\"message-header\"><span class=\"role-label\">"@ + label_of(role)
            + "</span>"@ + badges + "</summary>\n"@
    } else {
        "  <div class=\"message-header\"><span class=\"role-label\">"@ + label_of(role)
            + "</span>"@ + badges + "</div>\n"@
    }
}

/// The content of a message as HTML. White space only is not shown.
pub open spec fn content_html(content: MessageContent) -> Seq<char> {
    if content.is_blank() {
        ""@
    } else {
        "  <div class=\"message-content\">\n"@ + "    "@ + markdown_html(content.plain_text())
            + "\n"@ + "  </div>\n"@
    }
}

/// The tool calls of a message as HTML, with the HTML of their results below them. Without
/// calls there is none.
pub open spec fn tool_group_html(
    calls: Option<Vec<ToolCallDelta>>,
    results: Seq<char>,
) -> Seq<char> {
    match calls {
        Some(calls) => if calls@.len() > 0 {
            "  <div class=\"assistant-tool-group\">\n"@ + tool_calls_html(calls@) + results
                + "  </div>\n"@
        } else {
            ""@
        },
        None => ""@,
    }
}

/// A message of that role up to its tool calls, with the HTML of its badges, context items
/// and content.
pub open spec fn message_start(
    role: Seq<char>,
    badges: Seq<char>,
    context: Seq<char>,
    content: Seq<char>,
) -> Seq<char> {
    "<div class=\"message "@ + class_of(role) + "\">\n"@ + header_html(role, badges) + context
        + content
}

/// A message of that role, with the HTML of its badges, context items, content and tool
/// calls.
pub open spec fn message_frame(
    role: Seq<char>,
    badges: Seq<char>,
    context: Seq<char>,
    content: Seq<char>,
    calls: Seq<char>,
) -> Seq<char> {
    message_start(role, badges, context, content) + calls + (if role == "thinking"@ {
        "  </details>\n"@
    } else {
        ""@
    }) + "</div>\n"@
}

/// A message as HTML, with the HTML of the results of the tools that it calls.
pub open spec fn message_with_results(
    item: ChatHistoryItem,
    running: Option<(u64, u64)>,
    model: Option<Seq<char>>,
    results: Seq<char>,
) -> Seq<char> {
    let role = item.message.role@;
    message_frame(
        role,
        model_badge(role, model) + token_badge(item.message.usage, running),
        context_items_html(item.context_items@),
        content_html(item.message.content),
        tool_group_html(item.message.tool_calls, results),
    )
}

/// A message as HTML.
pub open spec fn message_html(
    item: ChatHistoryItem,
    running: Option<(u64, u64)>,
    model: Option<Seq<char>>,
) -> Seq<char> {
    message_with_results(item, running, model, ""@)
}

fn render_header(role: &str, badges: &str) -> (r: String)
    ensures
        r@ == header_html(role@, badges@),
{
    if same_text(role, "thinking") {
        let mut r = "  <details class=\"thinking-details\">\n".to_string();
        r.push_str("    <summary class=\"message-header\"><span class=\"role-label\">");
        r.push_str(role_label(role));
        r.push_str("</span>");
        r.push_str(badges);
        r.push_str("</summary>\n");
        r
    } else {
        let mut r = "  <div class=\"message-header\"><span class=\"role-label\">".to_string();
        r.push_str(role_label(role));
        r.push_str("</span>");
        r.push_str(badges);
        r.push_str("</div>\n");
        r
    }
}

fn render_content(content: &MessageContent) -> (r: String)
    ensures
        r@ == content_html(*content),
{
    if content.is_empty() {
        return "".to_string();
    }
    let mut r = "  <div class=\"message-content\">\n".to_string();
    r.push_str("    ");
    r.push_str(markdown_to_html(content.text().as_str()).as_str());
    r.push_str("\n");
    r.push_str("  </div>\n");
    r
}

fn render_tool_group(calls: &Option<Vec<ToolCallDelta>>, results: &str) -> (r: String)
    ensures
        r@ == tool_group_html(*calls, results@),
{
    match calls {
        Some(calls) => {
            if calls.len() > 0 {
                let mut r = "  <div class=\"assistant-tool-group\">\n".to_string();
                r.push_str(render_tool_calls(calls.as_slice()).as_str());
                r.push_str(results);
                r.push_str("  </div>\n");
                r
            } else {
                "".to_string()
            }
        },
        None => "".to_string(),
    }
}

/// Renders a message of that role, out of the HTML of its badges, context items, content and
/// tool calls.
pub fn frame_message(
    role: &str,
    badges: &str,
    context: &str,
    content: &str,
    calls: &str,
) -> (r: String)
    ensures
        r@ == message_frame(role@, badges@, context@, content@, calls@),
{
    let mut r = "<div class=\"message ".to_string();
    r.push_str(role_class(role));
    r.push_str("\">\n");
    r.push_str(render_header(role, badges).as_str());
    r.push_str(context);
    r.push_str(content);
    r.push_str(calls);
    r.push_str(
        if same_text(role, "thinking") {
            "  </details>\n"
        } else {
            ""
        },
    );
    r.push_str("</div>\n");
    r
}

/// Renders a message with the results of the tools that it calls, which are given as HTML
/// and stand below the calls.
///
/// `running_tokens` are the prompt and the completion tokens of all messages up to and
/// including this one; they are shown if the message has token counts of its own.
/// `model_name` is shown on assistant messages.
pub fn render_message_with_results(
    item: &ChatHistoryItem,
    running_tokens: Option<(u64, u64)>,
    model_name: Option<&str>,
    results: &str,
) -> (r: String)
    requires
        tokens_fit(item.message.usage, running_tokens),
    ensures
        r@ == message_with_results(*item, running_tokens, opt_str(model_name), results@),
{
    let message = &item.message;
    let role = message.role.as_str();
    let mut badges = render_model_badge(role, model_name);
    badges.push_str(render_token_badge(&message.usage, running_tokens).as_str());
    let context = render_context_items(item.context_items.as_slice());
    let content = render_content(&message.content);
    let calls = render_tool_group(&message.tool_calls, results);
    frame_message(role, badges.as_str(), context.as_str(), content.as_str(), calls.as_str())
}

/// Renders a single message, without the results of the tools that it calls.
pub fn render_message(
    item: &ChatHistoryItem,
    running_tokens: Option<(u64, u64)>,
    model_name: Option<&str>,
) -> (r: String)
    requires
        tokens_fit(item.message.usage, running_tokens),
    ensures
        r@ == message_html(*item, running_tokens, opt_str(model_name)),
{
    render_message_with_results(item, running_tokens, model_name, "")
}

/// Whether a text holds nothing but the digits from 0 to 9.
pub open spec fn all_digits(s: Seq<char>) -> bool {
    forall|i: int| 0 <= i < s.len() ==> is_digit(#[trigger] s[i])
}

/// Whether a text is a number with white space round it.
pub open spec fn is_line_number(s: Seq<char>) -> bool {
    trimmed(s).len() > 0 && all_digits(trimmed(s))
}

/// A line without the line number, and the tab after it, that it begins with.
pub open spec fn without_line_number(line: Seq<char>) -> Seq<char> {
    let tab = first_index(line, '\t');
    if tab < line.len() && is_line_number(line.take(tab)) {
        line.skip(tab + 1)
    } else {
        line
    }
}

/// The lines of a text, each without its line number.
pub open spec fn without_line_numbers(text: Seq<char>) -> Seq<char> {
    joined(lines_of(text).map_values(|line: Seq<char>| without_line_number(line)), "\n"@)
}

fn has_digits_only(text: &str) -> (r: bool)
    ensures
        r == all_digits(text@),
{
    let v = chars_of(text);
    let mut i: usize = 0;
    while i < v.len()
        invariant
            v@ == text@,
            i <= v.len(),
            forall|k: int| 0 <= k < i ==> is_digit(#[trigger] text@[k]),
        decreases v.len() - i,
    {
        if !('0' <= v[i] && v[i] <= '9') {
            return false;
        }
        i = i + 1;
    }
    true
}

fn strip_line_number<'a>(line: &'a str) -> (r: &'a str)
    ensures
        r@ == without_line_number(line@),
{
    let v = chars_of(line);
    let n: usize = v.len();
    let tab: usize = char_index(&v, '\t', 0);
    assert(line@.skip(0) =~= line@);
    if tab < n {
        let prefix = line.substring_char(0, tab);
        assert(line@.subrange(0, tab as int) =~= line@.take(tab as int));
        let number = trim(prefix);
        if !number.is_empty() && has_digits_only(number) {
            assert(line@.subrange(tab + 1, n as int) =~= line@.skip(tab + 1));
            return line.substring_char(tab + 1, n);
        }
    }
    line
}

/// Strips the line numbers, each followed by a tab, that the lines of a text begin with.
pub fn strip_line_numbers(text: &str) -> (r: String)
    ensures
        r@ == without_line_numbers(text@),
{
    let all = lines(text);
    let ghost stripped = lines_of(text@).map_values(|line: Seq<char>| without_line_number(line));
    let mut out: Vec<String> = Vec::new();
    let mut i: usize = 0;
    assert(views(out@) =~= stripped.take(0));
    while i < all.len()
        invariant
            stripped == views(all@).map_values(|line: Seq<char>| without_line_number(line)),
            i <= all.len(),
            views(out@) == stripped.take(i as int),
        decreases all.len() - i,
    {
        push_text(&mut out, strip_line_number(all[i].as_str()));
        assert(stripped.take(i + 1) =~= stripped.take(i as int).push(stripped[i as int]));
        i = i + 1;
    }
    assert(stripped.take(i as int) =~= stripped);
    join(&out, "\n")
}

/// The path of the file that the arguments of a read name.
pub open spec fn read_path(tool_args: Seq<char>) -> Option<Seq<char>> {
    match json_member(tool_args, "file_path"@) {
        Some(path) => json_string(path),
        None => match json_member(tool_args, "filepath"@) {
            Some(path) => json_string(path),
            None => None,
        },
    }
}

/// The highlighted content of the file at `path`, without its line numbers.
pub open spec fn read_result_html(path: Seq<char>, content: Seq<char>) -> Option<Seq<char>> {
    highlighted_file(
        path,
        without_line_numbers(content),
        "class=\"highlighted-code tool-result-pre\""@,
    )
}

/// The highlighted result of a read.
pub open spec fn highlighted_read(tool_args: Seq<char>, content: Seq<char>) -> Option<Seq<char>> {
    match read_path(tool_args) {
        Some(path) => read_result_html(path, content),
        None => None,
    }
}

/// Highlights the content of the file at `path`, without its line numbers.
pub fn highlight_read_content(path: &str, content: &str) -> (r: Option<String>)
    ensures
        opt_view(r) == read_result_html(path@, content@),
{
    highlight_file(
        path,
        strip_line_numbers(content).as_str(),
        "class=\"highlighted-code tool-result-pre\"",
    )
}

/// Attempts to syntax-highlight the result of a read. The path of the file is taken from
/// the JSON arguments of the call.
pub fn try_highlight_read_result(tool_args: &str, content: &str) -> (r: Option<String>)
    ensures
        opt_view(r) == highlighted_read(tool_args@, content@),
{
    let member = match get_member(tool_args, "file_path") {
        Some(member) => member,
        None => match get_member(tool_args, "filepath") {
            Some(member) => member,
            None => return None,
        },
    };
    match get_string(member.as_str()) {
        Some(path) => highlight_read_content(path.as_str(), content),
        None => None,
    }
}

/// What a tool result is called.
pub open spec fn result_label(tool_name: Seq<char>) -> Seq<char> {
    if tool_name.len() == 0 {
        "Tool Result"@
    } else {
        "Result: "@ + tool_name
    }
}

/// The highlighted HTML of a tool result, if it is that of a read.
pub open spec fn highlighted_result(
    text: Seq<char>,
    tool_name: Seq<char>,
    tool_args: Seq<char>,
) -> Option<Seq<char>> {
    if tool_name == "Read"@ || tool_name == "read_file"@ {
        highlighted_read(tool_args, text)
    } else {
        None
    }
}

/// The text of a tool result as HTML: with its colors if it holds escape sequences, else
/// highlighted if it is a file that was read, else as it is.
pub open spec fn result_text_html(
    text: Seq<char>,
    tool_name: Seq<char>,
    tool_args: Seq<char>,
) -> Seq<char> {
    if text.len() == 0 {
        ""@
    } else if text.contains('\u{1b}') {
        "        <pre class=\"tool-result-pre\"><code>"@ + ansi_html(text) + "</code></pre>\n"@
    } else {
        match highlighted_result(text, tool_name, tool_args) {
            Some(html) => "        "@ + html + "\n"@,
            None => "        <pre class=\"tool-result-pre\"><code>"@ + escaped(text)
                + "</code></pre>\n"@,
        }
    }
}

/// A tool result with that label, and the HTML of its text.
pub open spec fn result_frame(label: Seq<char>, text: Seq<char>) -> Seq<char> {
    "    <details class=\"tool-result-details\">\n"@ + "      <summary>"@ + escaped(label)
        + "</summary>\n"@ + "      <div class=\"tool-result-content\">\n"@ + text
        + "      </div>\n"@ + "    </details>\n"@
}

/// A tool result as HTML.
pub open spec fn tool_result_html(
    item: ChatHistoryItem,
    tool_name: Seq<char>,
    tool_args: Seq<char>,
) -> Seq<char> {
    result_frame(
        result_label(tool_name),
        result_text_html(item.message.content.plain_text(), tool_name, tool_args),
    )
}

fn render_result_text(text: &str, tool_name: &str, tool_args: &str) -> (r: String)
    ensures
        r@ == result_text_html(text@, tool_name@, tool_args@),
{
    if text.is_empty() {
        return "".to_string();
    }
    if has_char(text, '\u{1b}') {
        let mut r = "        <pre class=\"tool-result-pre\"><code>".to_string();
        r.push_str(ansi_to_html(text).as_str());
        r.push_str("</code></pre>\n");
        return r;
    }
    let html = if same_text(tool_name, "Read") || same_text(tool_name, "read_file") {
        try_highlight_read_result(tool_args, text)
    } else {
        None
    };
    match html {
        Some(html) => {
            let mut r = "        ".to_string();
            r.push_str(html.as_str());
            r.push_str("\n");
            r
        },
        None => wrap_text(
            "        <pre class=\"tool-result-pre\"><code>",
            text,
            "</code></pre>\n",
        ),
    }
}

/// Renders a tool result with that label, out of the HTML of its text.
pub fn frame_tool_result(label: &str, text: &str) -> (r: String)
    ensures
        r@ == result_frame(label@, text@),
{
    let mut r = "    <details class=\"tool-result-details\">\n".to_string();
    r.push_str("      <summary>");
    push_escaped(&mut r, label);
    r.push_str("</summary>\n");
    r.push_str("      <div class=\"tool-result-content\">\n");
    r.push_str(text);
    r.push_str("      </div>\n");
    r.push_str("    </details>\n");
    r
}

/// Renders a tool result as a section that opens. `tool_name` and `tool_args` are the name
/// and the JSON arguments of the call that it answers, where they are known.
pub fn render_tool_result_inline(
    item: &ChatHistoryItem,
    tool_name: &str,
    tool_args: &str,
) -> (r: String)
    ensures
        r@ == tool_result_html(*item, tool_name@, tool_args@),
{
    let content = item.message.content.text();
    let text = render_result_text(content.as_str(), tool_name, tool_args);
    if tool_name.is_empty() {
        frame_tool_result("Tool Result", text.as_str())
    } else {
        let mut label = "Result: ".to_string();
        label.push_str(tool_name);
        frame_tool_result(label.as_str(), text.as_str())
    }
}

/// The model is shown on assistant messages only.
pub proof fn law_model_is_shown_on_assistant_messages(
    item: ChatHistoryItem,
    running: Option<(u64, u64)>,
    model: Option<Seq<char>>,
)
    requires
        item.message.role@ != "assistant"@,
    ensures
        message_html(item, running, model) == message_html(item, running, None),
{
}

/// Every tool call is shown.
pub proof fn law_every_tool_call_is_shown(calls: Seq<ToolCallDelta>, k: int)
    requires
        0 <= k < calls.len(),
    ensures
        contains_text(tool_calls_html(calls), tool_call_html(calls[k])),
    decreases calls.len(),
{
    let before = tool_calls_html(calls.drop_last());
    let last = tool_call_html(calls.last());
    if k < calls.len() - 1 {
        law_every_tool_call_is_shown(calls.drop_last(), k);
    }
    lemma_concat_contains(before, last, tool_call_html(calls[k]));
}

/// Every context item is shown.
pub proof fn law_every_context_item_is_shown(items: Seq<ContextItem>, k: int)
    requires
        0 <= k < items.len(),
    ensures
        contains_text(context_list_html(items), context_item_html(items[k])),
    decreases items.len(),
{
    let before = context_list_html(items.drop_last());
    let last = context_item_html(items.last());
    if k < items.len() - 1 {
        law_every_context_item_is_shown(items.drop_last(), k);
    }
    lemma_concat_contains(before, last, context_item_html(items[k]));
}

proof fn lemma_trimmed_number(pad: Seq<char>, number: Seq<char>)
    requires
        forall|i: int| 0 <= i < pad.len() ==> is_white_space(#[trigger] pad[i]),
        number.len() > 0,
        all_digits(number),
    ensures
        trimmed(pad + number) == number,
    decreases pad.len(),
{
    let s = pad + number;
    if pad.len() == 0 {
        assert(s =~= number);
        assert(is_digit(number[0]));
        assert(is_digit(number[number.len() - 1]));
    } else {
        assert(s.skip(1) =~= pad.skip(1) + number);
        lemma_trimmed_number(pad.skip(1), number);
    }
}

/// A line number with white space before it and a tab after it is removed from a line, and
/// nothing else is.
pub proof fn law_line_number_is_removed(pad: Seq<char>, number: Seq<char>, line: Seq<char>)
    requires
        forall|i: int|
            0 <= i < pad.len() ==> is_white_space(#[trigger] pad[i]) && pad[i] != '\t',
        number.len() > 0,
        all_digits(number),
    ensures
        without_line_number(pad + number + seq!['\t'] + line) == line,
{
    let s = pad + number + seq!['\t'] + line;
    let n = (pad + number).len() as int;
    assert forall|k: int| 0 <= k < n implies s[k] != '\t' by {
        if k >= pad.len() {
            assert(s[k] == number[k - pad.len()]);
        } else {
            assert(s[k] == pad[k]);
        }
    }
    lemma_first_index_is(s, '\t', n);
    assert(s.take(n) =~= pad + number);
    assert(s.skip(n + 1) =~= line);
    lemma_trimmed_number(pad, number);
}

/// Spaces.
pub open spec fn spaces(n: nat) -> Seq<char> {
    Seq::new(n, |i: int| ' ')
}

/// The spaces before a line number: it ends in the sixth column, if it is not longer.
pub open spec fn number_pad(n: nat) -> Seq<char> {
    spaces(if decimal(n).len() < 6 {
        (6 - decimal(n).len()) as nat
    } else {
        0
    })
}

/// Lines with their numbers, from 1 on, and a tab before each.
pub open spec fn numbered_lines(list: Seq<Seq<char>>) -> Seq<Seq<char>> {
    Seq::new(
        list.len(),
        |i: int|
            number_pad((i + 1) as nat) + decimal((i + 1) as nat) + seq!['\t'] + list[i],
    )
}

/// A text with line numbers.
pub open spec fn numbered(text: Seq<char>) -> Seq<char> {
    joined(numbered_lines(lines_of(text)), "\n"@)
}

/// Whether a line of a text before the last ends in a carriage return.
pub open spec fn has_stray_return(text: Seq<char>) -> bool {
    exists|k: int|
        0 <= k < lines_of(text).len() - 1 && (#[trigger] lines_of(text)[k]).len() > 0
            && lines_of(text)[k].last() == '\r'
}

proof fn lemma_numbered_line(list: Seq<Seq<char>>, k: int)
    requires
        0 <= k < list.len(),
        !list[k].contains('\n'),
    ensures
        numbered_lines(list)[k].len() > 0,
        !numbered_lines(list)[k].contains('\n'),
        numbered_lines(list)[k].last() == '\r' ==> list[k].len() > 0 && list[k].last() == '\r',
        without_line_number(numbered_lines(list)[k]) == list[k],
{
    let n = (k + 1) as nat;
    let pad = number_pad(n);
    let line = numbered_lines(list)[k];
    lemma_decimal_digits(n);
    assert(line == pad + decimal(n) + seq!['\t'] + list[k]);
    assert forall|i: int| 0 <= i < line.len() implies #[trigger] line[i] != '\n' by {
        let m = pad.len() + decimal(n).len();
        if i < pad.len() {
            assert(line[i] == pad[i]);
        } else if i < m {
            assert(line[i] == decimal(n)[i - pad.len()]);
        } else if i > m {
            assert(line[i] == list[k][i - m - 1]);
            assert(list[k].contains(list[k][i - m - 1]));
        }
    }
    if list[k].len() > 0 {
        assert(line.last() == list[k].last());
    } else {
        assert(line.last() == '\t');
    }
    law_line_number_is_removed(pad, decimal(n), list[k]);
}

/// Numbering the lines of a text and removing the numbers gives the lines back.
pub proof fn law_line_numbers_are_removed(text: Seq<char>)
    requires
        !has_stray_return(text),
    ensures
        without_line_numbers(numbered(text)) == joined(lines_of(text), "\n"@),
{
    let list = lines_of(text);
    let with = numbered_lines(list);
    assert forall|k: int| 0 <= k < with.len() implies (#[trigger] with[k]).len() > 0
        && !with[k].contains('\n') && (k < with.len() - 1 ==> with[k].last() != '\r')
        && without_line_number(with[k]) == list[k] by {
        lemma_line_chars(text, k);
        lemma_numbered_line(list, k);
    }
    lemma_lines_of_joined(with);
    assert(with.map_values(|line: Seq<char>| without_line_number(line)) =~= list);
}

/// Line numbers do not matter: a text without tabs is highlighted in the same way with line
/// numbers and without.
pub proof fn law_line_numbers_do_not_matter(tool_args: Seq<char>, text: Seq<char>)
    requires
        !text.contains('\t'),
        !has_stray_return(text),
    ensures
        highlighted_read(tool_args, numbered(text)) == highlighted_read(tool_args, text),
{
    let list = lines_of(text);
    law_line_numbers_are_removed(text);
    assert forall|k: int| 0 <= k < list.len() implies without_line_number(#[trigger] list[k])
        == list[k] by {
        lemma_line_chars(text, k);
        lemma_first_index(list[k], '\t');
        if list[k].contains('\t') {
            let i = choose|i: int| 0 <= i < list[k].len() && list[k][i] == '\t';
            assert(text.contains(list[k][i]));
        }
    }
    assert(list.map_values(|line: Seq<char>| without_line_number(line)) =~= list);
}

/// A message stands in a block of the class of its role, under a header with the label of the
/// role, its badges, and then its context, its content and its tool calls, in that order. The
/// name of the model is shown on assistant messages, if there is one.
pub proof fn law_message_is_framed_by_its_role(
    item: ChatHistoryItem,
    running: Option<(u64, u64)>,
    model: Option<Seq<char>>,
    results: Seq<char>,
    class: Seq<char>,
    label: Seq<char>,
)
    requires
        ({
            let role = item.message.role@;
            ||| role == "user"@ && class == "user"@ && label == "User"@
            ||| role == "assistant"@ && class == "assistant"@ && label == "Assistant"@
            ||| role == "system"@ && class == "system"@ && label == "System"@
            ||| role == "tool"@ && class == "tool-result"@ && label == "Tool Result"@
            ||| role != "user"@ && role != "assistant"@ && role != "system"@ && role != "tool"@
                && role != "thinking"@ && class == "unknown"@ && label == role
        }),
    ensures
        message_with_results(item, running, model, results) == "<div class=\"message "@ + class
            + "\">\n"@ + "  <div class=\"message-header\"><span class=\"role-label\">"@ + label
            + "</span>"@ + (if item.message.role@ == "assistant"@ && (model matches Some(name)
            && name.len() > 0) {
            " <span class=\"model-badge\" title=\"Model\">"@ + escaped(model->0) + "</span>"@
        } else {
            Seq::empty()
        }) + token_badge(item.message.usage, running) + "</div>\n"@ + context_items_html(
            item.context_items@,
        ) + content_html(item.message.content) + tool_group_html(item.message.tool_calls, results)
            + "</div>\n"@,
{
    let role = item.message.role@;
    let name_badge = model_badge(role, model);
    let tokens = token_badge(item.message.usage, running);
    lemma_roles_differ();
    assert(class_of(role) == class);
    assert(label_of(role) == label);
    assert(role != "thinking"@);
    reveal_strlit("");
    assert(""@ =~= Seq::<char>::empty());
    lemma_frame_parts(
        "<div class=\"message "@ + class + "\">\n"@,
        "  <div class=\"message-header\"><span class=\"role-label\">"@,
        label,
        "</span>"@,
        name_badge,
        tokens,
        "</div>\n"@,
        context_items_html(item.context_items@),
        content_html(item.message.content),
        tool_group_html(item.message.tool_calls, results),
        "</div>\n"@,
    );
}

proof fn lemma_frame_parts(
    opening: Seq<char>,
    header: Seq<char>,
    label: Seq<char>,
    span: Seq<char>,
    model: Seq<char>,
    tokens: Seq<char>,
    header_end: Seq<char>,
    context: Seq<char>,
    content: Seq<char>,
    calls: Seq<char>,
    end: Seq<char>,
)
    ensures
        (opening + (header + label + span + (model + tokens) + header_end) + context + content)
            + calls + Seq::<char>::empty() + end == opening + header + label + span + model
            + tokens + header_end + context + content + calls + end,
{
    assert((opening + (header + label + span + (model + tokens) + header_end) + context + content)
        + calls + Seq::<char>::empty() + end =~= opening + header + label + span + model + tokens
        + header_end + context + content + calls + end);
}

proof fn lemma_roles_differ()
    ensures
        "user"@ != "assistant"@,
        "user"@ != "system"@,
        "user"@ != "tool"@,
        "user"@ != "thinking"@,
        "assistant"@ != "system"@,
        "assistant"@ != "tool"@,
        "assistant"@ != "thinking"@,
        "system"@ != "tool"@,
        "system"@ != "thinking"@,
        "tool"@ != "thinking"@,
{
    reveal_strlit("user");
    reveal_strlit("assistant");
    reveal_strlit("system");
    reveal_strlit("tool");
    reveal_strlit("thinking");
    assert("user"@.len() == 4 && "assistant"@.len() == 9 && "system"@.len() == 6 && "tool"@.len()
        == 4 && "thinking"@.len() == 8);
    assert("user"@[0] == 'u' && "tool"@[0] == 't');
}

/// A thinking message is a section that opens, closed at first, with the header as its summary.
pub proof fn law_thinking_is_collapsed(
    item: ChatHistoryItem,
    running: Option<(u64, u64)>,
    model: Option<Seq<char>>,
)
    requires
        item.message.role@ == "thinking"@,
    ensures
        message_html(item, running, model) == "<div class=\"message thinking\">\n"@
            + "  <details class=\"thinking-details\">\n"@
            + "    <summary class=\"message-header\"><span class=\"role-label\">Thinking</span>"@
            + token_badge(item.message.usage, running) + "</summary>\n"@ + context_items_html(
            item.context_items@,
        ) + content_html(item.message.content) + tool_group_html(item.message.tool_calls, ""@)
            + "  </details>\n"@ + "</div>\n"@,
{
    lemma_roles_differ();
    reveal_strlit("");
    reveal_strlit("thinking");
    reveal_strlit("Thinking");
    reveal_strlit("</span>");
    reveal_strlit("\">\n");
    reveal_strlit("<div class=\"message ");
    reveal_strlit("<div class=\"message thinking\">\n");
    reveal_strlit("    <summary class=\"message-header\"><span class=\"role-label\">");
    reveal_strlit("    <summary class=\"message-header\"><span class=\"role-label\">Thinking</span>");
    let start = "<div class=\"message "@ + "thinking"@ + "\">\n"@;
    assert(start =~= "<div class=\"message thinking\">\n"@);
    let summary = "    <summary class=\"message-header\"><span class=\"role-label\">"@
        + "Thinking"@ + "</span>"@;
    assert(summary
        =~= "    <summary class=\"message-header\"><span class=\"role-label\">Thinking</span>"@);
    let role = item.message.role@;
    let badge = token_badge(item.message.usage, running);
    assert(model_badge(role, model) =~= Seq::empty());
    assert(model_badge(role, model) + badge =~= badge);
    assert(header_html(role, badge) =~= "  <details class=\"thinking-details\">\n"@ + summary
        + badge + "</summary>\n"@);
    let context = context_items_html(item.context_items@);
    let content = content_html(item.message.content);
    let calls = tool_group_html(item.message.tool_calls, ""@);
    assert(message_html(item, running, model) == start + header_html(role, badge) + context
        + content + calls + "  </details>\n"@ + "</div>\n"@);
    assert(message_html(item, running, model) =~= start + "  <details class=\"thinking-details\">\n"@
        + summary + badge + "</summary>\n"@ + context + content + calls + "  </details>\n"@
        + "</div>\n"@);
}

/// A message with token counts shows its prompt tokens, its completion tokens and their sum, and
/// beside them the same of all messages so far. One without shows none.
pub proof fn law_tokens_are_shown(usage: Option<Usage>, running: Option<(u64, u64)>)
    ensures
        token_badge(usage, running) == (match usage {
            Some(u) => "<span class=\"token-badge\" title=\"Prompt: "@ + tokens_text(
                u.prompt_tokens as nat,
            ) + " | Completion: "@ + tokens_text(u.completion_tokens as nat) + "\">"@ + tokens_text(
                (u.prompt_tokens + u.completion_tokens) as nat,
            ) + " tokens</span>"@ + (match running {
                Some(sums) =>
                " <span class=\"token-running\" title=\"Running total — Prompt: "@ + tokens_text(
                    sums.0 as nat,
                ) + " | Completion: "@ + tokens_text(sums.1 as nat) + "\">(cumul. "@ + tokens_text(
                    (sums.0 + sums.1) as nat,
                ) + ")</span>"@,
                None => Seq::empty(),
            }),
            None => Seq::empty(),
        }),
{
    reveal_strlit("");
    assert(""@ =~= Seq::<char>::empty());
}

/// The content of a message is its text as Markdown, whether it is one text or in parts. White
/// space only is not shown.
pub proof fn law_content_is_markdown(content: MessageContent)
    ensures
        content_html(content) == (if content.is_blank() {
            Seq::empty()
        } else {
            "  <div class=\"message-content\">\n    "@ + markdown_html(content.plain_text())
                + "\n  </div>\n"@
        }),
        content matches MessageContent::Text(text) ==> content.plain_text() == text@,
{
    reveal_strlit("");
    assert(""@ =~= Seq::<char>::empty());
    reveal_strlit("  <div class=\"message-content\">\n");
    reveal_strlit("    ");
    reveal_strlit("  <div class=\"message-content\">\n    ");
    reveal_strlit("\n");
    reveal_strlit("  </div>\n");
    reveal_strlit("\n  </div>\n");
    let start = "  <div class=\"message-content\">\n"@ + "    "@;
    let end = "\n"@ + "  </div>\n"@;
    assert(start =~= "  <div class=\"message-content\">\n    "@);
    assert(end =~= "\n  </div>\n"@);
    let md = markdown_html(content.plain_text());
    assert(start + md + "\n"@ + "  </div>\n"@ =~= start + md + end);
}

/// The tool calls of a message are shown in order, each with the name of its function and its
/// arguments, and the results stand behind them in the same group.
pub proof fn law_tool_calls_are_shown_in_order(calls: Vec<ToolCallDelta>, results: Seq<char>)
    ensures
        tool_group_html(Some(calls), results) == (if calls@.len() > 0 {
            "  <div class=\"assistant-tool-group\">\n"@ + concatenated(
                calls@.map_values(
                    |call: ToolCallDelta|
                        match call.function {
                            Some(function) =>
                            "<div class=\"tool-call\"><div class=\"tool-call-header\">Tool Call: <strong>"@
                                + escaped(function.name@) + "</strong></div>"@ + (
                            if function.arguments@.len() > 0 {
                                tool_args_html(function.name@, function.arguments@)
                            } else {
                                Seq::empty()
                            }) + "</div>"@,
                            None => Seq::empty(),
                        },
                ),
            ) + results + "  </div>\n"@
        } else {
            Seq::empty()
        }),
{
    reveal_strlit("");
    assert(""@ =~= Seq::<char>::empty());
    let shown = |call: ToolCallDelta|
        match call.function {
            Some(function) =>
            "<div class=\"tool-call\"><div class=\"tool-call-header\">Tool Call: <strong>"@
                + escaped(function.name@) + "</strong></div>"@ + (
            if function.arguments@.len() > 0 {
                tool_args_html(function.name@, function.arguments@)
            } else {
                Seq::empty()
            }) + "</div>"@,
            None => Seq::empty(),
        };
    lemma_tool_calls(calls@);
    let framed = |call: ToolCallDelta| tool_call_html(call);
    assert forall|i: int| 0 <= i < calls@.len() implies framed(#[trigger] calls@[i]) == shown(
        calls@[i],
    ) by {
        lemma_call_start();
    }
    assert(calls@.map_values(framed) =~= calls@.map_values(shown));
}

proof fn lemma_call_start()
    ensures
        "<div class=\"tool-call\">"@ + "<div class=\"tool-call-header\">Tool Call: <strong>"@
            == "<div class=\"tool-call\"><div class=\"tool-call-header\">Tool Call: <strong>"@,
        ""@ == Seq::<char>::empty(),
{
    reveal_strlit("");
    reveal_strlit("<div class=\"tool-call\">");
    reveal_strlit("<div class=\"tool-call-header\">Tool Call: <strong>");
    reveal_strlit("<div class=\"tool-call\"><div class=\"tool-call-header\">Tool Call: <strong>");
    assert("<div class=\"tool-call\">"@ + "<div class=\"tool-call-header\">Tool Call: <strong>"@
        =~= "<div class=\"tool-call\"><div class=\"tool-call-header\">Tool Call: <strong>"@);
    assert(""@ =~= Seq::<char>::empty());
}

proof fn lemma_tool_calls(calls: Seq<ToolCallDelta>)
    ensures
        tool_calls_html(calls) == concatenated(
            calls.map_values(|call: ToolCallDelta| tool_call_html(call)),
        ),
    decreases calls.len(),
{
    let framed = |call: ToolCallDelta| tool_call_html(call);
    if calls.len() > 0 {
        lemma_tool_calls(calls.drop_last());
        let before = calls.drop_last().map_values(framed);
        lemma_concatenated_push(before, framed(calls.last()));
        assert(calls.map_values(framed) =~= before.push(framed(calls.last())));
    } else {
        reveal_strlit("");
        assert(tool_calls_html(calls) =~= concatenated(calls.map_values(framed)));
    }
}

/// A tool result is a section that opens, labelled with the name of the tool that it answers. Its
/// text is shown with its colours if it holds escape sequences, highlighted if it is a file
/// that was read, and else as it is.
pub proof fn law_tool_result_is_labelled(
    item: ChatHistoryItem,
    tool_name: Seq<char>,
    tool_args: Seq<char>,
)
    ensures
        ({
            let text = item.message.content.plain_text();
            let is_read = tool_name == "Read"@ || tool_name == "read_file"@;
            tool_result_html(item, tool_name, tool_args)
                == "    <details class=\"tool-result-details\">\n"@ + (if tool_name.len() > 0 {
                "      <summary>Result: "@ + escaped(tool_name)
            } else {
                "      <summary>Tool Result"@
            }) + "</summary>\n      <div class=\"tool-result-content\">\n"@ + (if text.len() == 0 {
                Seq::empty()
            } else if text.contains('\u{1b}') {
                "        <pre class=\"tool-result-pre\"><code>"@ + ansi_html(text)
                    + "</code></pre>\n"@
            } else if is_read && highlighted_read(tool_args, text) is Some {
                "        "@ + highlighted_read(tool_args, text)->0 + "\n"@
            } else {
                "        <pre class=\"tool-result-pre\"><code>"@ + escaped(text)
                    + "</code></pre>\n"@
            }) + "      </div>\n    </details>\n"@
        }),
{
    reveal_strlit("");
    assert(""@ =~= Seq::<char>::empty());
    reveal_strlit("Result: ");
    reveal_strlit("Tool Result");
    reveal_strlit("      <summary>");
    reveal_strlit("      <summary>Result: ");
    reveal_strlit("      <summary>Tool Result");
    reveal_strlit("</summary>\n");
    reveal_strlit("      <div class=\"tool-result-content\">\n");
    reveal_strlit("</summary>\n      <div class=\"tool-result-content\">\n");
    reveal_strlit("      </div>\n");
    reveal_strlit("    </details>\n");
    reveal_strlit("      </div>\n    </details>\n");
    let text = result_text_html(item.message.content.plain_text(), tool_name, tool_args);
    let label = result_label(tool_name);
    lemma_plain_escaped("Result: "@);
    lemma_plain_escaped("Tool Result"@);
    lemma_escaped_concat("Result: "@, tool_name);
    let middle = "</summary>\n"@ + "      <div class=\"tool-result-content\">\n"@;
    assert(middle =~= "</summary>\n      <div class=\"tool-result-content\">\n"@);
    let end = "      </div>\n"@ + "    </details>\n"@;
    assert(end =~= "      </div>\n    </details>\n"@);
    let start = "      <summary>"@ + escaped(label);
    assert("      <summary>"@ + "Result: "@ =~= "      <summary>Result: "@);
    assert("      <summary>"@ + "Tool Result"@ =~= "      <summary>Tool Result"@);
    if tool_name.len() > 0 {
        assert(start =~= "      <summary>Result: "@ + escaped(tool_name));
    } else {
        assert(start =~= "      <summary>Tool Result"@);
    }
    assert(tool_result_html(item, tool_name, tool_args)
        =~= "    <details class=\"tool-result-details\">\n"@ + start + middle + text + end);
}

proof fn lemma_plain_escaped(s: Seq<char>)
    requires
        forall|i: int|
            0 <= i < s.len() ==> #[trigger] s[i] != '&' && s[i] != '<' && s[i] != '>',
    ensures
        escaped(s) == s,
    decreases s.len(),
{
    if s.len() > 0 {
        assert(s[s.len() - 1] != '&');
        lemma_plain_escaped(s.drop_last());
        assert(escaped(s) =~= s);
    } else {
        assert(escaped(s) =~= s);
    }
}

/// The result of a read is highlighted in the language of the file that the arguments name,
/// under `file_path` or else under `filepath`, without its line numbers.
pub proof fn law_read_result_is_highlighted(
    tool_args: Seq<char>,
    members: Seq<(Seq<char>, Seq<char>)>,
    i: int,
    path: Seq<char>,
    content: Seq<char>,
)
    requires
        json_node(tool_args) == Some(JsonView::Object(members)),
        0 <= i < members.len(),
        json_node(members[i].1) == Some(JsonView::Text(path)),
        forall|k: int| 0 <= k < i ==> (#[trigger] members[k]).0 != members[i].0,
        members[i].0 == "file_path"@ || (members[i].0 == "filepath"@ && forall|k: int|
            0 <= k < members.len() ==> (#[trigger] members[k]).0 != "file_path"@),
        file_language(path).len() > 0,
    ensures
        match highlighted(file_language(path), without_line_numbers(content)) {
            Some(html) => highlighted_read(tool_args, content) == Some(
                restyled(html, "class=\"highlighted-code tool-result-pre\""@),
            ),
            None => highlighted_read(tool_args, content) is None,
        },
{
    reveal_strlit("file_path");
    reveal_strlit("filepath");
    assert("file_path"@.len() != "filepath"@.len());
    lemma_member_named(members, i, members[i].0);
    if members[i].0 == "filepath"@ {
        lemma_no_member_named(members, "file_path"@);
    }
}

/// The context items of a message are shown in order, below their number, each with its name, its
/// description and its content.
pub proof fn law_context_items_are_shown_in_order(items: Seq<ContextItem>)
    ensures
        items.len() == 0 ==> context_items_html(items).len() == 0,
        items.len() > 0 ==> context_items_html(items)
            == "<details class=\"context-items\"><summary>Context Items ("@ + decimal(items.len())
            + ")</summary>"@ + concatenated(
            items.map_values(
                |item: ContextItem|
                    "<div class=\"context-item\">"@ + (if item.name@.len() > 0 {
                        "<div class=\"context-name\">"@ + escaped(item.name@) + "</div>"@
                    } else {
                        ""@
                    }) + (if item.description@.len() > 0 {
                        "<div class=\"context-desc\">"@ + escaped(item.description@) + "</div>"@
                    } else {
                        ""@
                    }) + (if item.content@.len() == 0 {
                        ""@
                    } else if file_language(item.name@).len() > 0 && highlighted(
                        file_language(item.name@),
                        item.content@,
                    ) is Some {
                        restyled(
                            highlighted(file_language(item.name@), item.content@)->0,
                            "class=\"highlighted-code context-content\""@,
                        )
                    } else {
                        "<pre class=\"context-content\"><code>"@ + escaped(item.content@)
                            + "</code></pre>"@
                    }) + "</div>"@,
            ),
        ) + "</details>"@,
{
    reveal_strlit("");
    let shown = |item: ContextItem|
        "<div class=\"context-item\">"@ + (if item.name@.len() > 0 {
            "<div class=\"context-name\">"@ + escaped(item.name@) + "</div>"@
        } else {
            ""@
        }) + (if item.description@.len() > 0 {
            "<div class=\"context-desc\">"@ + escaped(item.description@) + "</div>"@
        } else {
            ""@
        }) + (if item.content@.len() == 0 {
            ""@
        } else if file_language(item.name@).len() > 0 && highlighted(
            file_language(item.name@),
            item.content@,
        ) is Some {
            restyled(
                highlighted(file_language(item.name@), item.content@)->0,
                "class=\"highlighted-code context-content\""@,
            )
        } else {
            "<pre class=\"context-content\"><code>"@ + escaped(item.content@) + "</code></pre>"@
        }) + "</div>"@;
    lemma_context_list(items);
    let framed = |item: ContextItem| context_item_html(item);
    assert forall|i: int| 0 <= i < items.len() implies framed(#[trigger] items[i]) == shown(
        items[i],
    ) by {}
    assert(items.map_values(framed) =~= items.map_values(shown));
}

proof fn lemma_context_list(items: Seq<ContextItem>)
    ensures
        context_list_html(items) == concatenated(
            items.map_values(|item: ContextItem| context_item_html(item)),
        ),
    decreases items.len(),
{
    let framed = |item: ContextItem| context_item_html(item);
    if items.len() > 0 {
        lemma_context_list(items.drop_last());
        let before = items.drop_last().map_values(framed);
        lemma_concatenated_push(before, framed(items.last()));
        assert(items.map_values(framed) =~= before.push(framed(items.last())));
    } else {
        reveal_strlit("");
        assert(context_list_html(items) =~= concatenated(items.map_values(framed)));
    }
}

/// A line is kept if it has no tab, or if what stands before its first tab holds a character that
/// is neither a digit nor white space, or nothing but white space.
pub proof fn law_other_lines_are_kept(line: Seq<char>, tab: int, i: int)
    requires
        0 <= tab <= line.len(),
        tab < line.len() ==> line[tab] == '\t',
        forall|k: int| 0 <= k < tab ==> line[k] != '\t',
        tab < line.len() ==> (0 <= i < tab && !is_white_space(line[i]) && !('0' <= line[i] <= '9'))
            || (forall|k: int| 0 <= k < tab ==> is_white_space(#[trigger] line[k])),
    ensures
        without_line_number(line) == line,
{
    lemma_first_index_is(line, '\t', tab);
    if tab < line.len() {
        let prefix = line.take(tab);
        if forall|k: int| 0 <= k < tab ==> is_white_space(#[trigger] line[k]) {
            assert forall|k: int| 0 <= k < prefix.len() implies is_white_space(
                #[trigger] prefix[k],
            ) by {
                assert(prefix[k] == line[k]);
            }
            lemma_trimmed_empty(prefix);
        } else {
            assert(prefix[i] == line[i]);
            lemma_trimmed_keeps(prefix, i);
            let k = choose|k: int|
                0 <= k < trimmed(prefix).len() && trimmed(prefix)[k] == prefix[i];
            assert(!is_digit(trimmed(prefix)[k]));
        }
    }
}

proof fn lemma_trimmed_keeps(s: Seq<char>, i: int)
    requires
        0 <= i < s.len(),
        !is_white_space(s[i]),
    ensures
        exists|k: int| 0 <= k < trimmed(s).len() && #[trigger] trimmed(s)[k] == s[i],
    decreases s.len(),
{
    if is_white_space(s[0]) {
        assert(s.skip(1)[i - 1] == s[i]);
        lemma_trimmed_keeps(s.skip(1), i - 1);
        assert(trimmed(s) == trimmed(s.skip(1)));
    } else {
        lemma_trimmed_end_keeps_char(s, i);
        assert(trimmed(s) == trimmed_end(s));
        assert(trimmed(s)[i] == s[i]);
    }
}

proof fn lemma_trimmed_end_keeps_char(s: Seq<char>, i: int)
    requires
        0 <= i < s.len(),
        !is_white_space(s[i]),
    ensures
        i < trimmed_end(s).len(),
        trimmed_end(s)[i] == s[i],
    decreases s.len(),
{
    if is_white_space(s.last()) {
        lemma_trimmed_end_keeps_char(s.drop_last(), i);
    }
}

/// The result of a read is not highlighted if its arguments name no file, if the file has no
/// language, or if `file_path` is there and is no string.
pub proof fn law_other_reads_are_not_highlighted(
    tool_args: Seq<char>,
    members: Seq<(Seq<char>, Seq<char>)>,
    i: int,
    content: Seq<char>,
)
    requires
        json_node(tool_args) matches Some(JsonView::Object(found)) ==> {
            &&& found == members
            &&& 0 <= i <= members.len()
            &&& forall|k: int| 0 <= k < i ==> (#[trigger] members[k]).0 != "file_path"@
            &&& i < members.len() ==> members[i].0 == "file_path"@ && match json_node(
                members[i].1,
            ) {
                Some(JsonView::Text(path)) => file_language(path).len() == 0,
                _ => true,
            }
            &&& i == members.len() ==> forall|k: int|
                0 <= k < members.len() ==> (#[trigger] members[k]).0 != "filepath"@
        },
    ensures
        highlighted_read(tool_args, content) is None,
{
    if let Some(JsonView::Object(found)) = json_node(tool_args) {
        if i < members.len() {
            lemma_member_named(members, i, "file_path"@);
        } else {
            lemma_no_member_named(members, "file_path"@);
            lemma_no_member_named(members, "filepath"@);
        }
    }
}

} // verus!
