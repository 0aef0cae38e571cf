//! Chat sessions, and what is extracted from them.
use crate::text::{
    concatenated, is_white_space, lemma_concatenated_push, lemma_trimmed_empty, list_has, opt_view,
    push_text, same_text, trim, trimmed, views,
};
use vstd::prelude::*;

verus! {

/// A chat session.
pub struct Session {
    pub session_id: String,
    pub title: String,
    pub workspace_directory: String,
    pub history: Vec<ChatHistoryItem>,
    pub date_created: Option<String>,
}

/// A message with what belongs to it.
pub struct ChatHistoryItem {
    pub message: ChatMessage,
    pub context_items: Vec<ContextItem>,
    pub prompt_logs: Option<Vec<PromptLog>>,
    pub tool_call_states: Option<Vec<ToolCallState>>,
}

/// A request that was sent to a model.
pub struct PromptLog {
    pub model_title: String,
    pub completion_options: Option<CompletionOptions>,
    pub prompt: String,
}

/// The options of a request.
pub struct CompletionOptions {
    pub model: String,
    pub tools: Option<Vec<ToolDef>>,
}

/// The state of a tool call.
pub struct ToolCallState {
    pub tool: Option<ToolDef>,
}

/// The definition of a tool.
pub struct ToolDef {
    pub function: Option<ToolFunction>,
    pub system_message_description: Option<SystemMessageDescription>,
}

/// The function of a tool. `parameters` is a JSON Schema in JSON notation.
pub struct ToolFunction {
    pub name: String,
    pub description: String,
    pub parameters: Option<String>,
}

/// How a tool is described in the system message.
pub struct SystemMessageDescription {
    pub prefix: String,
}

/// A message.
pub struct ChatMessage {
    pub role: String,
    pub content: MessageContent,
    pub tool_calls: Option<Vec<ToolCallDelta>>,
    pub usage: Option<Usage>,
}

/// The tokens that a message took.
pub struct Usage {
    pub completion_tokens: u64,
    pub prompt_tokens: u64,
}

/// The content of a message: a plain string or a list of parts.
pub enum MessageContent {
    Text(String),
    Parts(Vec<MessagePart>),
}

/// A part of a message.
pub enum MessagePart {
    Text { text: String },
    ImageUrl {},
    Unknown,
}

/// A tool call.
pub struct ToolCallDelta {
    pub function: Option<ToolCallFunction>,
}

/// The function that a tool call calls. `arguments` is in JSON notation.
pub struct ToolCallFunction {
    pub name: String,
    pub arguments: String,
}

/// A file or a piece of code that is attached to a message.
pub struct ContextItem {
    pub name: String,
    pub description: String,
    pub content: String,
}

impl Default for MessageContent {
    fn default() -> (r: Self)
        ensures
            r.plain_text() == Seq::<char>::empty(),
            r is Text,
    {
        MessageContent::Text(String::new())
    }
}

/// The text of a part, if it is one.
pub open spec fn part_text(part: MessagePart) -> Seq<char> {
    match part {
        MessagePart::Text { text } => text@,
        _ => ""@,
    }
}

/// The texts of the parts, one after the other.
pub open spec fn parts_text(parts: Seq<MessagePart>) -> Seq<char>
    decreases parts.len(),
{
    if parts.len() == 0 {
        Seq::empty()
    } else {
        parts_text(parts.drop_last()) + part_text(parts.last())
    }
}

/// Whether a part is a text of white space only.
pub open spec fn part_is_blank(part: MessagePart) -> bool {
    match part {
        MessagePart::Text { text } => trimmed(text@).len() == 0,
        _ => false,
    }
}

impl MessageContent {
    /// The text of the content.
    pub open spec fn plain_text(self) -> Seq<char> {
        match self {
            MessageContent::Text(s) => s@,
            MessageContent::Parts(parts) => parts_text(parts@),
        }
    }

    /// Whether the content is white space only. An image is not.
    pub open spec fn is_blank(self) -> bool {
        match self {
            MessageContent::Text(s) => trimmed(s@).len() == 0,
            MessageContent::Parts(parts) => forall|i: int|
                0 <= i < parts@.len() ==> part_is_blank(#[trigger] parts@[i]),
        }
    }

    /// The text of the content: the string, or the texts of the parts.
    pub fn text(&self) -> (r: String)
        ensures
            r@ == self.plain_text(),
    {
        match self {
            MessageContent::Text(s) => s.clone(),
            MessageContent::Parts(parts) => {
                let mut r = String::new();
                let mut i: usize = 0;
                assert(parts@.take(0) =~= Seq::empty());
                while i < parts.len()
                    invariant
                        i <= parts.len(),
                        r@ == parts_text(parts@.take(i as int)),
                    decreases parts.len() - i,
                {
                    assert(parts@.take(i + 1).drop_last() =~= parts@.take(i as int));
                    match &parts[i] {
                        MessagePart::Text { text } => r.push_str(text.as_str()),
                        _ => r.push_str(""),
                    }
                    i = i + 1;
                }
                assert(parts@.take(i as int) =~= parts@);
                r
            },
        }
    }

    /// Whether the content is white space only.
    pub fn is_empty(&self) -> (r: bool)
        ensures
            r == self.is_blank(),
    {
        match self {
            MessageContent::Text(s) => trim(s.as_str()).is_empty(),
            MessageContent::Parts(parts) => {
                let mut i: usize = 0;
                while i < parts.len()
                    invariant
                        *self == MessageContent::Parts(*parts),
                        i <= parts.len(),
                        forall|k: int| 0 <= k < i ==> part_is_blank(#[trigger] parts@[k]),
                    decreases parts.len() - i,
                {
                    let blank = match &parts[i] {
                        MessagePart::Text { text } => trim(text.as_str()).is_empty(),
                        _ => false,
                    };
                    if !blank {
                        assert(!part_is_blank(self->Parts_0@[i as int]));
                        return false;
                    }
                    i = i + 1;
                }
                true
            },
        }
    }
}

/// The model that a request was sent to: its title, else the model of its options.
pub open spec fn log_model(log: PromptLog) -> Option<Seq<char>> {
    if log.model_title@.len() > 0 {
        Some(log.model_title@)
    } else {
        match log.completion_options {
            Some(options) => if options.model@.len() > 0 {
                Some(options.model@)
            } else {
                None
            },
            None => None,
        }
    }
}

/// The model of the first request that has one.
pub open spec fn logs_model(logs: Seq<PromptLog>) -> Option<Seq<char>>
    decreases logs.len(),
{
    if logs.len() == 0 {
        None
    } else if log_model(logs[0]) is Some {
        log_model(logs[0])
    } else {
        logs_model(logs.skip(1))
    }
}

/// The model of an item.
pub open spec fn model_of_item(item: ChatHistoryItem) -> Option<Seq<char>> {
    match item.prompt_logs {
        Some(logs) => logs_model(logs@),
        None => None,
    }
}

/// The model of the first item that has one.
pub open spec fn model_of_history(history: Seq<ChatHistoryItem>) -> Option<Seq<char>>
    decreases history.len(),
{
    if history.len() == 0 {
        None
    } else if model_of_item(history[0]) is Some {
        model_of_item(history[0])
    } else {
        model_of_history(history.skip(1))
    }
}

/// Extracts the model's title from an item's prompt logs.
pub fn item_model<'a>(item: &'a ChatHistoryItem) -> (r: Option<&'a str>)
    ensures
        match r {
            Some(model) => model_of_item(*item) == Some(model@),
            None => model_of_item(*item) is None,
        },
{
    match &item.prompt_logs {
        None => None,
        Some(logs) => {
            let ghost all = logs@;
            let mut i: usize = 0;
            assert(all.skip(0) =~= all);
            while i < logs.len()
                invariant
                    logs@ == all,
                    i <= logs.len(),
                    model_of_item(*item) == logs_model(all.skip(i as int)),
                decreases logs.len() - i,
            {
                let log = &logs[i];
                assert(all.skip(i as int)[0] == *log);
                assert(all.skip(i as int).skip(1) =~= all.skip(i + 1));
                if !log.model_title.as_str().is_empty() {
                    return Some(log.model_title.as_str());
                }
                if let Some(options) = &log.completion_options {
                    if !options.model.as_str().is_empty() {
                        return Some(options.model.as_str());
                    }
                }
                i = i + 1;
            }
            None
        },
    }
}

/// Extracts the model's name from the session history: the first that a prompt log holds.
pub fn extract_model(session: &Session) -> (r: Option<String>)
    ensures
        opt_view(r) == model_of_history(session.history@),
{
    let ghost all = session.history@;
    let mut i: usize = 0;
    assert(all.skip(0) =~= all);
    while i < session.history.len()
        invariant
            all == session.history@,
            i <= session.history.len(),
            model_of_history(all) == model_of_history(all.skip(i as int)),
        decreases session.history.len() - i,
    {
        assert(all.skip(i as int)[0] == all[i as int]);
        assert(all.skip(i as int).skip(1) =~= all.skip(i + 1));
        if let Some(model) = item_model(&session.history[i]) {
            return Some(model.to_string());
        }
        i = i + 1;
    }
    None
}

/// Whether an item is a system message that holds some text.
pub open spec fn is_system_prompt(item: ChatHistoryItem) -> bool {
    item.message.role@ == "system"@ && item.message.content.plain_text().len() > 0
}

/// The index of the first system message with text, from `start` on.
pub open spec fn prompt_message(history: Seq<ChatHistoryItem>, start: int) -> Option<int>
    decreases history.len() - start,
{
    if start < 0 || start >= history.len() {
        None
    } else if is_system_prompt(history[start]) {
        Some(start)
    } else {
        prompt_message(history, start + 1)
    }
}

/// The first prompt, from `start` on, that is not empty.
pub open spec fn logs_prompt(logs: Seq<PromptLog>, start: int) -> Option<Seq<char>>
    decreases logs.len() - start,
{
    if start < 0 || start >= logs.len() {
        None
    } else if logs[start].prompt@.len() > 0 {
        Some(logs[start].prompt@)
    } else {
        logs_prompt(logs, start + 1)
    }
}

/// The first prompt of an item's prompt logs that is not empty.
pub open spec fn item_prompt(item: ChatHistoryItem) -> Option<Seq<char>> {
    match item.prompt_logs {
        Some(logs) => logs_prompt(logs@, 0),
        None => None,
    }
}

/// The first prompt in the prompt logs, of the items from `start` on, that is not empty.
pub open spec fn logged_prompt(history: Seq<ChatHistoryItem>, start: int) -> Option<Seq<char>>
    decreases history.len() - start,
{
    if start < 0 || start >= history.len() {
        None
    } else if item_prompt(history[start]) is Some {
        item_prompt(history[start])
    } else {
        logged_prompt(history, start + 1)
    }
}

/// The system prompt of a history, with the index of the message that holds it: the
/// first system message with text, else the first prompt that was logged.
pub open spec fn system_prompt(history: Seq<ChatHistoryItem>) -> (Seq<char>, Option<int>) {
    match prompt_message(history, 0) {
        Some(i) => (history[i].message.content.plain_text(), Some(i)),
        None => match logged_prompt(history, 0) {
            Some(prompt) => (prompt, None),
            None => (Seq::empty(), None),
        },
    }
}

/// An index as a mathematical integer.
pub open spec fn opt_index(index: Option<usize>) -> Option<int> {
    match index {
        Some(i) => Some(i as int),
        None => None,
    }
}

fn first_logged_prompt(item: &ChatHistoryItem) -> (r: Option<String>)
    ensures
        opt_view(r) == item_prompt(*item),
{
    match &item.prompt_logs {
        None => None,
        Some(logs) => {
            let mut i: usize = 0;
            while i < logs.len()
                invariant
                    i <= logs.len(),
                    item_prompt(*item) == logs_prompt(logs@, i as int),
                decreases logs.len() - i,
            {
                if !logs[i].prompt.as_str().is_empty() {
                    return Some(logs[i].prompt.clone());
                }
                i = i + 1;
            }
            None
        },
    }
}

/// Extracts the system prompt, with the index of the message that holds it.
///
/// A system message in the history is preferred. Without one, the first prompt in the
/// prompt logs is taken, which may hold the whole conversation.
pub fn extract_system_prompt(session: &Session) -> (r: (String, Option<usize>))
    ensures
        r.0@ == system_prompt(session.history@).0,
        opt_index(r.1) == system_prompt(session.history@).1,
{
    let ghost all = session.history@;
    let mut i: usize = 0;
    while i < session.history.len()
        invariant
            all == session.history@,
            i <= session.history.len(),
            prompt_message(all, 0) == prompt_message(all, i as int),
        decreases session.history.len() - i,
    {
        let message = &session.history[i].message;
        if same_text(message.role.as_str(), "system") {
            let text = message.content.text();
            if !text.as_str().is_empty() {
                return (text, Some(i));
            }
        }
        i = i + 1;
    }
    let mut j: usize = 0;
    while j < session.history.len()
        invariant
            all == session.history@,
            j <= session.history.len(),
            prompt_message(all, 0) is None,
            logged_prompt(all, 0) == logged_prompt(all, j as int),
        decreases session.history.len() - j,
    {
        if let Some(prompt) = first_logged_prompt(&session.history[j]) {
            return (prompt, None);
        }
        j = j + 1;
    }
    (String::new(), None)
}

proof fn lemma_prompt_message(history: Seq<ChatHistoryItem>, start: int)
    requires
        0 <= start <= history.len(),
    ensures
        match prompt_message(history, start) {
            Some(i) => start <= i < history.len() && is_system_prompt(history[i]) && forall|k: int|
                start <= k < i ==> !is_system_prompt(#[trigger] history[k]),
            None => forall|k: int|
                start <= k < history.len() ==> !is_system_prompt(#[trigger] history[k]),
        },
    decreases history.len() - start,
{
    if start < history.len() && !is_system_prompt(history[start]) {
        lemma_prompt_message(history, start + 1);
    }
}

/// The system prompt is taken from the first system message that holds text, and from
/// no message if there is none.
pub proof fn law_system_prompt_is_the_first_system_message(history: Seq<ChatHistoryItem>)
    ensures
        match system_prompt(history).1 {
            Some(i) => 0 <= i < history.len() && is_system_prompt(history[i])
                && system_prompt(history).0 == history[i].message.content.plain_text()
                && forall|k: int| 0 <= k < i ==> !is_system_prompt(#[trigger] history[k]),
            None => forall|k: int|
                0 <= k < history.len() ==> !is_system_prompt(#[trigger] history[k]),
        },
{
    lemma_prompt_message(history, 0);
}

/// The name of the tool that is called, if there is one.
pub open spec fn called_tool(call: ToolCallDelta) -> Option<Seq<char>> {
    match call.function {
        Some(function) => if function.name@.len() > 0 {
            Some(function.name@)
        } else {
            None
        },
        None => None,
    }
}

/// The names of the tools that are called, in order.
pub open spec fn called_tools(calls: Seq<ToolCallDelta>) -> Seq<Seq<char>>
    decreases calls.len(),
{
    if calls.len() == 0 {
        Seq::empty()
    } else {
        match called_tool(calls.last()) {
            Some(name) => called_tools(calls.drop_last()).push(name),
            None => called_tools(calls.drop_last()),
        }
    }
}

/// The names of the tools that a message calls, in order.
pub open spec fn message_tools(message: ChatMessage) -> Seq<Seq<char>> {
    match message.tool_calls {
        Some(calls) => called_tools(calls@),
        None => Seq::empty(),
    }
}

/// The names of the tools that are called in a history, in order.
pub open spec fn history_tools(history: Seq<ChatHistoryItem>) -> Seq<Seq<char>>
    decreases history.len(),
{
    if history.len() == 0 {
        Seq::empty()
    } else {
        history_tools(history.drop_last()) + message_tools(history.last().message)
    }
}

/// `names` with `name` at the end, unless it is there already.
pub open spec fn with_name(names: Seq<Seq<char>>, name: Seq<char>) -> Seq<Seq<char>> {
    if names.contains(name) {
        names
    } else {
        names.push(name)
    }
}

/// The first occurrences of the names in a list, in order.
pub open spec fn distinct(names: Seq<Seq<char>>) -> Seq<Seq<char>>
    decreases names.len(),
{
    if names.len() == 0 {
        Seq::empty()
    } else {
        with_name(distinct(names.drop_last()), names.last())
    }
}

fn add_name(names: &mut Vec<String>, name: &str)
    ensures
        views(final(names)@) == with_name(views(old(names)@), name@),
{
    if !list_has(names, name) {
        push_text(names, name);
    }
}

/// Collects the names of all tools that are called in the session, each once.
pub fn collect_tool_names(history: &[ChatHistoryItem]) -> (r: Vec<String>)
    ensures
        views(r@) == distinct(history_tools(history@)),
{
    let mut names: Vec<String> = Vec::new();
    let mut i: usize = 0;
    assert(history@.take(0) =~= Seq::empty());
    assert(views(names@) =~= Seq::empty());
    while i < history.len()
        invariant
            i <= history.len(),
            views(names@) == distinct(history_tools(history@.take(i as int))),
        decreases history.len() - i,
    {
        let ghost before = history_tools(history@.take(i as int));
        assert(history@.take(i + 1).drop_last() =~= history@.take(i as int));
        match &history[i].message.tool_calls {
            None => {
                assert(before + Seq::<Seq<char>>::empty() =~= before);
            },
            Some(calls) => {
                let mut j: usize = 0;
                assert(calls@.take(0) =~= Seq::empty());
                assert(before + called_tools(calls@.take(0)) =~= before);
                while j < calls.len()
                    invariant
                        j <= calls.len(),
                        views(names@) == distinct(before + called_tools(calls@.take(j as int))),
                    decreases calls.len() - j,
                {
                    let ghost seen = called_tools(calls@.take(j as int));
                    assert(calls@.take(j + 1).drop_last() =~= calls@.take(j as int));
                    if let Some(function) = &calls[j].function {
                        if !function.name.as_str().is_empty() {
                            add_name(&mut names, function.name.as_str());
                            assert((before + seen.push(function.name@)).drop_last() =~= before
                                + seen);
                        }
                    }
                    j = j + 1;
                }
                assert(calls@.take(j as int) =~= calls@);
            },
        }
        i = i + 1;
    }
    assert(history@.take(i as int) =~= history@);
    names
}

proof fn lemma_distinct(names: Seq<Seq<char>>)
    ensures
        distinct(names).no_duplicates(),
        forall|name: Seq<char>| distinct(names).contains(name) <==> names.contains(name),
    decreases names.len(),
{
    if names.len() > 0 {
        let start = names.drop_last();
        let name = names.last();
        lemma_distinct(start);
        let d = distinct(start);
        assert(names =~= start.push(name));
        assert forall|other: Seq<char>|
            distinct(names).contains(other) <==> names.contains(other) by {
            if names.contains(other) {
                let k = names.index_of(other);
                if k < start.len() {
                    assert(start[k] == other);
                    assert(start.contains(other));
                    assert(d.contains(other));
                    let m = d.index_of(other);
                    assert(distinct(names)[m] == other);
                } else if !d.contains(name) {
                    assert(distinct(names)[d.len() as int] == other);
                } else {
                    assert(distinct(names) == d);
                }
            }
            if distinct(names).contains(other) {
                let k = distinct(names).index_of(other);
                if k < d.len() {
                    assert(d[k] == other);
                    assert(d.contains(other));
                    assert(start.contains(other));
                    let m = start.index_of(other);
                    assert(names[m] == other);
                } else {
                    assert(names[start.len() as int] == other);
                }
            }
        }
    }
}

proof fn lemma_distinct_prefix(names: Seq<Seq<char>>, n: int)
    requires
        0 <= n <= names.len(),
    ensures
        distinct(names.take(n)).is_prefix_of(distinct(names)),
    decreases names.len() - n,
{
    if n < names.len() {
        lemma_distinct_prefix(names, n + 1);
        assert(names.take(n + 1).drop_last() =~= names.take(n));
        let a = distinct(names.take(n));
        let b = distinct(names.take(n + 1));
        assert(a =~= b.take(a.len() as int));
        assert(a =~= distinct(names).take(a.len() as int));
    } else {
        assert(names.take(n) =~= names);
    }
}

/// The list of the tools of a session holds the name of each tool that is called, once,
/// and holds no other name. What is called first comes first: the list of the first
/// messages begins the list of all of them.
pub proof fn law_tool_names_are_distinct(history: Seq<ChatHistoryItem>, n: int)
    requires
        0 <= n <= history.len(),
    ensures
        distinct(history_tools(history)).no_duplicates(),
        forall|name: Seq<char>|
            distinct(history_tools(history)).contains(name) <==> history_tools(history).contains(
                name,
            ),
        distinct(history_tools(history.take(n))).is_prefix_of(distinct(history_tools(history))),
    decreases history.len() - n,
{
    let called = history_tools(history);
    lemma_distinct(called);
    lemma_history_prefix(history, n);
    let m = history_tools(history.take(n)).len() as int;
    assert(called.take(m) =~= history_tools(history.take(n)));
    lemma_distinct_prefix(called, m);
}

proof fn lemma_history_prefix(history: Seq<ChatHistoryItem>, n: int)
    requires
        0 <= n <= history.len(),
    ensures
        history_tools(history.take(n)).is_prefix_of(history_tools(history)),
    decreases history.len() - n,
{
    if n < history.len() {
        lemma_history_prefix(history, n + 1);
        assert(history.take(n + 1).drop_last() =~= history.take(n));
        let a = history_tools(history.take(n));
        let b = history_tools(history.take(n + 1));
        assert(a =~= b.take(a.len() as int));
        assert(a =~= history_tools(history).take(a.len() as int));
    } else {
        assert(history.take(n) =~= history);
    }
}

/// An item names the model of its first prompt log that has one: the title of the model, or
/// else the model in the options of the request. Without one it names none.
pub proof fn law_item_names_its_first_model(item: ChatHistoryItem, logs: Vec<PromptLog>, i: int)
    requires
        item.prompt_logs == Some(logs),
        0 <= i <= logs@.len(),
        forall|j: int|
            0 <= j < i ==> (#[trigger] logs@[j]).model_title@.len() == 0 && (
            logs@[j].completion_options matches Some(options) ==> options.model@.len() == 0),
    ensures
        i < logs@.len() && logs@[i].model_title@.len() > 0 ==> model_of_item(item) == Some(
            logs@[i].model_title@,
        ),
        i < logs@.len() && logs@[i].model_title@.len() == 0 ==> (
        logs@[i].completion_options matches Some(options) ==> options.model@.len() > 0
            ==> model_of_item(item) == Some(options.model@)),
        i == logs@.len() ==> model_of_item(item) is None,
{
    lemma_logs_model(logs@, i);
}

proof fn lemma_logs_model(logs: Seq<PromptLog>, i: int)
    requires
        0 <= i <= logs.len(),
        forall|j: int|
            0 <= j < i ==> (#[trigger] logs[j]).model_title@.len() == 0 && (
            logs[j].completion_options matches Some(options) ==> options.model@.len() == 0),
    ensures
        logs_model(logs) == logs_model(logs.skip(i)),
    decreases i,
{
    if i == 0 {
        assert(logs.skip(0) =~= logs);
    } else {
        let rest = logs.skip(1);
        assert(logs[0].model_title@.len() == 0);
        assert forall|j: int| 0 <= j < i - 1 implies (#[trigger] rest[j]).model_title@.len() == 0
            && (rest[j].completion_options matches Some(options) ==> options.model@.len()
            == 0) by {
            assert(rest[j] == logs[j + 1]);
        }
        lemma_logs_model(rest, i - 1);
        assert(rest.skip(i - 1) =~= logs.skip(i));
    }
}

/// The model of a session is that of the first message that names one.
pub proof fn law_session_has_its_first_model(history: Seq<ChatHistoryItem>, i: int)
    requires
        0 <= i <= history.len(),
        forall|j: int| 0 <= j < i ==> model_of_item(#[trigger] history[j]) is None,
        i < history.len() ==> model_of_item(history[i]) is Some,
    ensures
        model_of_history(history) == (if i < history.len() {
            model_of_item(history[i])
        } else {
            None
        }),
    decreases i,
{
    if i > 0 {
        let rest = history.skip(1);
        assert(model_of_item(history[0]) is None);
        assert forall|j: int| 0 <= j < i - 1 implies model_of_item(
            #[trigger] rest[j],
        ) is None by {
            assert(rest[j] == history[j + 1]);
        }
        law_session_has_its_first_model(rest, i - 1);
    }
}

/// The first message of the role `system` that holds text is the system prompt, whatever the
/// prompt logs hold.
pub proof fn law_system_message_is_preferred(history: Seq<ChatHistoryItem>, i: int)
    requires
        0 <= i < history.len(),
        history[i].message.role@ == "system"@,
        history[i].message.content.plain_text().len() > 0,
        forall|k: int|
            0 <= k < i ==> (#[trigger] history[k]).message.role@ != "system"@
                || history[k].message.content.plain_text().len() == 0,
    ensures
        system_prompt(history) == (history[i].message.content.plain_text(), Some(i)),
{
    lemma_prompt_message(history, 0);
    assert(is_system_prompt(history[i]));
}

/// Without a system message that holds text, the first prompt in the prompt logs that is not
/// empty is the system prompt, and no message is taken for it. Without one there is none.
pub proof fn law_logged_prompt_is_the_fallback(
    history: Seq<ChatHistoryItem>,
    i: int,
    logs: Vec<PromptLog>,
    j: int,
)
    requires
        forall|k: int|
            0 <= k < history.len() ==> (#[trigger] history[k]).message.role@ != "system"@
                || history[k].message.content.plain_text().len() == 0,
        0 <= i <= history.len(),
        forall|k: int|
            0 <= k < i ==> ((#[trigger] history[k]).prompt_logs matches Some(earlier) ==> forall|
                m: int,
            |
                0 <= m < earlier@.len() ==> (#[trigger] earlier@[m]).prompt@.len() == 0),
        i < history.len() ==> {
            &&& history[i].prompt_logs == Some(logs)
            &&& 0 <= j < logs@.len()
            &&& logs@[j].prompt@.len() > 0
            &&& forall|m: int| 0 <= m < j ==> (#[trigger] logs@[m]).prompt@.len() == 0
        },
    ensures
        system_prompt(history).1 is None,
        system_prompt(history).0 == (if i < history.len() {
            logs@[j].prompt@
        } else {
            Seq::empty()
        }),
{
    lemma_prompt_message(history, 0);
    if i < history.len() {
        lemma_logs_prompt(logs@, 0, j);
    }
    lemma_logged_prompt(history, 0, i);
}

proof fn lemma_logs_prompt(logs: Seq<PromptLog>, start: int, j: int)
    requires
        0 <= start <= j <= logs.len(),
        forall|m: int| start <= m < j ==> (#[trigger] logs[m]).prompt@.len() == 0,
        j < logs.len() ==> logs[j].prompt@.len() > 0,
    ensures
        logs_prompt(logs, start) == (if j < logs.len() {
            Some(logs[j].prompt@)
        } else {
            None
        }),
    decreases j - start,
{
    if start < j {
        lemma_logs_prompt(logs, start + 1, j);
    }
}

proof fn lemma_logged_prompt(history: Seq<ChatHistoryItem>, start: int, i: int)
    requires
        0 <= start <= i <= history.len(),
        forall|k: int|
            start <= k < i ==> ((#[trigger] history[k]).prompt_logs matches Some(earlier)
                ==> forall|m: int|
                0 <= m < earlier@.len() ==> (#[trigger] earlier@[m]).prompt@.len() == 0),
        i < history.len() ==> item_prompt(history[i]) is Some,
    ensures
        logged_prompt(history, start) == (if i < history.len() {
            item_prompt(history[i])
        } else {
            None
        }),
    decreases i - start,
{
    if start < i {
        if let Some(earlier) = history[start].prompt_logs {
            lemma_logs_prompt(earlier@, 0, earlier@.len() as int);
        }
        assert(item_prompt(history[start]) is None);
        lemma_logged_prompt(history, start + 1, i);
    }
}

/// The text of a message in parts is that of its text parts, one after the other.
pub proof fn law_text_of_parts(parts: Vec<MessagePart>)
    ensures
        MessageContent::Parts(parts).plain_text() == concatenated(
            parts@.map_values(
                |part: MessagePart|
                    match part {
                        MessagePart::Text { text } => text@,
                        _ => Seq::empty(),
                    },
            ),
        ),
{
    lemma_parts_text(parts@);
}

proof fn lemma_parts_text(parts: Seq<MessagePart>)
    ensures
        parts_text(parts) == concatenated(
            parts.map_values(
                |part: MessagePart|
                    match part {
                        MessagePart::Text { text } => text@,
                        _ => Seq::empty(),
                    },
            ),
        ),
    decreases parts.len(),
{
    let text_of = |part: MessagePart|
        match part {
            MessagePart::Text { text } => text@,
            _ => Seq::<char>::empty(),
        };
    if parts.len() > 0 {
        reveal_strlit("");
        assert(""@ =~= Seq::<char>::empty());
        lemma_parts_text(parts.drop_last());
        let before = parts.drop_last().map_values(text_of);
        lemma_concatenated_push(before, text_of(parts.last()));
        assert(parts.map_values(text_of) =~= before.push(text_of(parts.last())));
    } else {
        assert(parts_text(parts) =~= concatenated(parts.map_values(text_of)));
    }
}

/// A message is blank exactly if it is made of white space: the characters of its text, or those
/// of all of its parts, which are then texts.
pub proof fn law_blank_is_white_space(content: MessageContent)
    ensures
        content.is_blank() <==> match content {
            MessageContent::Text(text) => forall|i: int|
                0 <= i < text@.len() ==> is_white_space(#[trigger] text@[i]),
            MessageContent::Parts(parts) => forall|k: int|
                0 <= k < parts@.len() ==> (#[trigger] parts@[k] matches MessagePart::Text { text }
                    && forall|i: int| 0 <= i < text@.len() ==> is_white_space(#[trigger] text@[i])),
        },
{
    match content {
        MessageContent::Text(text) => {
            lemma_trimmed_empty(text@);
        },
        MessageContent::Parts(parts) => {
            assert forall|k: int| 0 <= k < parts@.len() implies part_is_blank(
                #[trigger] parts@[k],
            ) == (parts@[k] matches MessagePart::Text { text } && forall|i: int|
                0 <= i < text@.len() ==> is_white_space(#[trigger] text@[i])) by {
                if let MessagePart::Text { text } = parts@[k] {
                    lemma_trimmed_empty(text@);
                }
            }
        },
    }
}

/// The tools of a session are those that its messages call by name.
pub proof fn law_tools_are_those_called(history: Seq<ChatHistoryItem>, name: Seq<char>)
    ensures
        distinct(history_tools(history)).contains(name) <==> name.len() > 0 && exists|
            i: int,
            j: int,
        |
            0 <= i < history.len() && #[trigger] calls_tool(history[i], j, name),
{
    lemma_distinct(history_tools(history));
    lemma_history_tools(history, name);
}

/// Whether the tool call at `j` of a message calls the function of that name.
pub open spec fn calls_tool(item: ChatHistoryItem, j: int, name: Seq<char>) -> bool {
    item.message.tool_calls matches Some(calls) && 0 <= j < calls@.len() && (
    calls@[j].function matches Some(function) && function.name@ == name)
}

proof fn lemma_called_tools(calls: Seq<ToolCallDelta>, name: Seq<char>)
    ensures
        called_tools(calls).contains(name) <==> name.len() > 0 && exists|j: int|
            0 <= j < calls.len() && ((#[trigger] calls[j]).function matches Some(function)
                && function.name@ == name),
    decreases calls.len(),
{
    if calls.len() > 0 {
        let rest = calls.drop_last();
        let n = calls.len() - 1;
        lemma_called_tools(rest, name);
        let names = called_tools(calls);
        let before = called_tools(rest);
        if names.contains(name) {
            let k = choose|k: int| 0 <= k < names.len() && names[k] == name;
            if k < before.len() {
                assert(before[k] == name);
                let j = choose|j: int|
                    0 <= j < rest.len() && ((#[trigger] rest[j]).function matches Some(function)
                        && function.name@ == name);
                assert(calls[j] == rest[j]);
            } else {
                assert(calls[n].function is Some);
            }
        }
        if name.len() > 0 && exists|j: int|
            0 <= j < calls.len() && ((#[trigger] calls[j]).function matches Some(function)
                && function.name@ == name) {
            let j = choose|j: int|
                0 <= j < calls.len() && ((#[trigger] calls[j]).function matches Some(function)
                    && function.name@ == name);
            if j < n {
                assert(rest[j] == calls[j]);
                let k = choose|k: int| 0 <= k < before.len() && before[k] == name;
                assert(names[k] == name);
            } else {
                assert(names[before.len() as int] == name);
            }
        }
    }
}

proof fn lemma_history_tools(history: Seq<ChatHistoryItem>, name: Seq<char>)
    ensures
        history_tools(history).contains(name) <==> name.len() > 0 && exists|i: int, j: int|
            0 <= i < history.len() && #[trigger] calls_tool(history[i], j, name),
    decreases history.len(),
{
    if history.len() > 0 {
        let rest = history.drop_last();
        let n = history.len() - 1;
        let last = message_tools(history[n].message);
        let before = history_tools(rest);
        let names = history_tools(history);
        lemma_history_tools(rest, name);
        if let Some(calls) = history[n].message.tool_calls {
            lemma_called_tools(calls@, name);
        }
        if names.contains(name) {
            let k = choose|k: int| 0 <= k < names.len() && names[k] == name;
            if k < before.len() {
                assert(before[k] == name);
                let (i, j) = choose|i: int, j: int|
                    0 <= i < rest.len() && #[trigger] calls_tool(rest[i], j, name);
                assert(calls_tool(history[i], j, name));
            } else {
                assert(last[k - before.len()] == name);
                assert(last.contains(name));
                let calls = history[n].message.tool_calls->0;
                let j = choose|j: int|
                    0 <= j < calls@.len() && ((
                    #[trigger] calls@[j]).function matches Some(function) && function.name@
                        == name);
                assert(calls_tool(history[n], j, name));
            }
        }
        if name.len() > 0 && exists|i: int, j: int|
            0 <= i < history.len() && #[trigger] calls_tool(history[i], j, name) {
            let (i, j) = choose|i: int, j: int|
                0 <= i < history.len() && #[trigger] calls_tool(history[i], j, name);
            if i < n {
                assert(calls_tool(rest[i], j, name));
                let k = choose|k: int| 0 <= k < before.len() && before[k] == name;
                assert(names[k] == name);
            } else {
                let calls = history[n].message.tool_calls->0;
                assert(calls@[j].function is Some);
                assert(last.contains(name));
                let k = choose|k: int| 0 <= k < last.len() && last[k] == name;
                assert(names[before.len() + k] == name);
            }
        }
    }
}

/// The tools of a message are listed in the order of its calls: those of the first calls begin the
/// list.
pub proof fn law_called_tools_keep_their_order(calls: Seq<ToolCallDelta>, n: int)
    requires
        0 <= n <= calls.len(),
    ensures
        called_tools(calls.take(n)).is_prefix_of(called_tools(calls)),
    decreases calls.len() - n,
{
    if n < calls.len() {
        law_called_tools_keep_their_order(calls, n + 1);
        assert(calls.take(n + 1).drop_last() =~= calls.take(n));
        let (a, b) = (called_tools(calls.take(n)), called_tools(calls.take(n + 1)));
        assert(a =~= b.take(a.len() as int));
        assert(a =~= called_tools(calls).take(a.len() as int));
    } else {
        assert(calls.take(n) =~= calls);
    }
}

} // verus!
