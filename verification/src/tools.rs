//! The tools that a session defines.
use crate::session::{
    ChatHistoryItem, PromptLog, Session, ToolCallState, ToolDef,
};
use crate::text::{opt_view, same_text};
use vstd::prelude::*;

verus! {

/// What a session tells of a tool. `parameters` is a JSON Schema in JSON notation.
pub struct ExtractedTool {
    pub name: String,
    pub description: String,
    pub system_message_prefix: String,
    pub parameters: Option<String>,
}

/// What a session tells of a tool, as sequences of characters.
pub struct ToolView {
    pub name: Seq<char>,
    pub description: Seq<char>,
    pub system_message_prefix: Seq<char>,
    pub parameters: Option<Seq<char>>,
}

impl View for ExtractedTool {
    type V = ToolView;

    open spec fn view(&self) -> ToolView {
        ToolView {
            name: self.name@,
            description: self.description@,
            system_message_prefix: self.system_message_prefix@,
            parameters: opt_view(self.parameters),
        }
    }
}

/// The views of a list of tools.
pub open spec fn tool_views(tools: Seq<ExtractedTool>) -> Seq<ToolView> {
    tools.map_values(|tool: ExtractedTool| tool@)
}

/// What a definition tells of a tool, if it names one.
pub open spec fn defined_tool(def: ToolDef) -> Option<ToolView> {
    match def.function {
        Some(function) => if function.name@.len() > 0 {
            Some(
                ToolView {
                    name: function.name@,
                    description: function.description@,
                    system_message_prefix: match def.system_message_description {
                        Some(description) => description.prefix@,
                        None => Seq::empty(),
                    },
                    parameters: opt_view(function.parameters),
                },
            )
        } else {
            None
        },
        None => None,
    }
}

/// Whether a tool of that name is in the list.
pub open spec fn is_listed(tools: Seq<ToolView>, name: Seq<char>) -> bool {
    exists|k: int| 0 <= k < tools.len() && #[trigger] tools[k].name == name
}

/// `tools` with the tool that `def` defines, unless one of its name is there already.
pub open spec fn with_tool(tools: Seq<ToolView>, def: ToolDef) -> Seq<ToolView> {
    match defined_tool(def) {
        Some(tool) => if is_listed(tools, tool.name) {
            tools
        } else {
            tools.push(tool)
        },
        None => tools,
    }
}

/// `tools` with the tools of a list of definitions, the first of each name.
pub open spec fn with_tools(tools: Seq<ToolView>, defs: Seq<ToolDef>) -> Seq<ToolView>
    decreases defs.len(),
{
    if defs.len() == 0 {
        tools
    } else {
        with_tool(with_tools(tools, defs.drop_last()), defs.last())
    }
}

/// The definitions in the states of tool calls, in order.
pub open spec fn state_defs(states: Seq<ToolCallState>) -> Seq<ToolDef>
    decreases states.len(),
{
    if states.len() == 0 {
        Seq::empty()
    } else {
        match states.last().tool {
            Some(def) => state_defs(states.drop_last()).push(def),
            None => state_defs(states.drop_last()),
        }
    }
}

/// The definitions in the options of a request.
pub open spec fn log_defs(log: PromptLog) -> Seq<ToolDef> {
    match log.completion_options {
        Some(options) => match options.tools {
            Some(tools) => tools@,
            None => Seq::empty(),
        },
        None => Seq::empty(),
    }
}

/// The definitions in the options of a list of requests, in order.
pub open spec fn logs_defs(logs: Seq<PromptLog>) -> Seq<ToolDef>
    decreases logs.len(),
{
    if logs.len() == 0 {
        Seq::empty()
    } else {
        logs_defs(logs.drop_last()) + log_defs(logs.last())
    }
}

/// The definitions in the tool call states of a history, in order.
pub open spec fn call_defs(history: Seq<ChatHistoryItem>) -> Seq<ToolDef>
    decreases history.len(),
{
    if history.len() == 0 {
        Seq::empty()
    } else {
        call_defs(history.drop_last()) + match history.last().tool_call_states {
            Some(states) => state_defs(states@),
            None => Seq::empty(),
        }
    }
}

/// The definitions in the prompt logs of a history, in order.
pub open spec fn option_defs(history: Seq<ChatHistoryItem>) -> Seq<ToolDef>
    decreases history.len(),
{
    if history.len() == 0 {
        Seq::empty()
    } else {
        option_defs(history.drop_last()) + match history.last().prompt_logs {
            Some(logs) => logs_defs(logs@),
            None => Seq::empty(),
        }
    }
}

/// All definitions of a session: those in tool call states, then those in prompt logs.
pub open spec fn session_defs(history: Seq<ChatHistoryItem>) -> Seq<ToolDef> {
    call_defs(history) + option_defs(history)
}

proof fn lemma_with_tools_concat(tools: Seq<ToolView>, a: Seq<ToolDef>, b: Seq<ToolDef>)
    ensures
        with_tools(tools, a + b) == with_tools(with_tools(tools, a), b),
    decreases b.len(),
{
    if b.len() == 0 {
        assert(a + b =~= a);
    } else {
        lemma_with_tools_concat(tools, a, b.drop_last());
        assert((a + b).drop_last() =~= a + b.drop_last());
    }
}

fn copy_text(text: &Option<String>) -> (r: Option<String>)
    ensures
        opt_view(r) == opt_view(*text),
{
    match text {
        Some(s) => Some(s.clone()),
        None => None,
    }
}

fn has_tool(tools: &Vec<ExtractedTool>, name: &str) -> (r: bool)
    ensures
        r == is_listed(tool_views(tools@), name@),
{
    let mut i: usize = 0;
    while i < tools.len()
        invariant
            i <= tools.len(),
            forall|k: int| 0 <= k < i ==> #[trigger] tool_views(tools@)[k].name != name@,
        decreases tools.len() - i,
    {
        if same_text(tools[i].name.as_str(), name) {
            assert(tool_views(tools@)[i as int].name == name@);
            return true;
        }
        i = i + 1;
    }
    false
}

fn add_tool(tools: &mut Vec<ExtractedTool>, def: &ToolDef)
    ensures
        tool_views(final(tools)@) == with_tool(tool_views(old(tools)@), *def),
{
    if let Some(function) = &def.function {
        if !function.name.as_str().is_empty() && !has_tool(tools, function.name.as_str()) {
            let prefix = match &def.system_message_description {
                Some(description) => description.prefix.clone(),
                None => String::new(),
            };
            let tool = ExtractedTool {
                name: function.name.clone(),
                description: function.description.clone(),
                system_message_prefix: prefix,
                parameters: copy_text(&function.parameters),
            };
            assert(tool_views(tools@.push(tool)) =~= tool_views(tools@).push(tool@));
            tools.push(tool);
        }
    }
}

fn add_tools(tools: &mut Vec<ExtractedTool>, defs: &Vec<ToolDef>)
    ensures
        tool_views(final(tools)@) == with_tools(tool_views(old(tools)@), defs@),
{
    let mut i: usize = 0;
    assert(defs@.take(0) =~= Seq::empty());
    while i < defs.len()
        invariant
            i <= defs.len(),
            tool_views(tools@) == with_tools(tool_views(old(tools)@), defs@.take(i as int)),
        decreases defs.len() - i,
    {
        assert(defs@.take(i + 1).drop_last() =~= defs@.take(i as int));
        add_tool(tools, &defs[i]);
        i = i + 1;
    }
    assert(defs@.take(i as int) =~= defs@);
}

fn add_state_tools(tools: &mut Vec<ExtractedTool>, states: &Vec<ToolCallState>)
    ensures
        tool_views(final(tools)@) == with_tools(tool_views(old(tools)@), state_defs(states@)),
{
    let mut i: usize = 0;
    assert(states@.take(0) =~= Seq::empty());
    while i < states.len()
        invariant
            i <= states.len(),
            tool_views(tools@) == with_tools(
                tool_views(old(tools)@),
                state_defs(states@.take(i as int)),
            ),
        decreases states.len() - i,
    {
        let ghost before = state_defs(states@.take(i as int));
        assert(states@.take(i + 1).drop_last() =~= states@.take(i as int));
        if let Some(def) = &states[i].tool {
            assert(before.push(*def).drop_last() =~= before);
            add_tool(tools, def);
        }
        i = i + 1;
    }
    assert(states@.take(i as int) =~= states@);
}

fn add_log_tools(tools: &mut Vec<ExtractedTool>, logs: &Vec<PromptLog>)
    ensures
        tool_views(final(tools)@) == with_tools(tool_views(old(tools)@), logs_defs(logs@)),
{
    let mut i: usize = 0;
    assert(logs@.take(0) =~= Seq::empty());
    while i < logs.len()
        invariant
            i <= logs.len(),
            tool_views(tools@) == with_tools(
                tool_views(old(tools)@),
                logs_defs(logs@.take(i as int)),
            ),
        decreases logs.len() - i,
    {
        assert(logs@.take(i + 1).drop_last() =~= logs@.take(i as int));
        proof {
            lemma_with_tools_concat(
                tool_views(old(tools)@),
                logs_defs(logs@.take(i as int)),
                log_defs(logs@[i as int]),
            );
        }
        if let Some(options) = &logs[i].completion_options {
            if let Some(defs) = &options.tools {
                add_tools(tools, defs);
            }
        }
        i = i + 1;
    }
    assert(logs@.take(i as int) =~= logs@);
}

/// Extracts the tools that are defined in the session, the first of each name: those in
/// the states of tool calls, then those in the options of prompt logs.
pub fn extract_tool_defs(session: &Session) -> (r: Vec<ExtractedTool>)
    ensures
        tool_views(r@) == with_tools(Seq::empty(), session_defs(session.history@)),
{
    let ghost all = session.history@;
    let ghost none = Seq::<ToolView>::empty();
    let mut tools: Vec<ExtractedTool> = Vec::new();
    assert(tool_views(tools@) =~= none);
    let mut i: usize = 0;
    assert(all.take(0) =~= Seq::empty());
    while i < session.history.len()
        invariant
            all == session.history@,
            i <= session.history.len(),
            tool_views(tools@) == with_tools(none, call_defs(all.take(i as int))),
        decreases session.history.len() - i,
    {
        let ghost before = call_defs(all.take(i as int));
        assert(all.take(i + 1).drop_last() =~= all.take(i as int));
        match &session.history[i].tool_call_states {
            Some(states) => {
                proof {
                    lemma_with_tools_concat(none, before, state_defs(states@));
                }
                add_state_tools(&mut tools, states);
            },
            None => {
                assert(before + Seq::<ToolDef>::empty() =~= before);
            },
        }
        i = i + 1;
    }
    assert(all.take(i as int) =~= all);
    let ghost calls = tool_views(tools@);
    let mut j: usize = 0;
    while j < session.history.len()
        invariant
            all == session.history@,
            j <= session.history.len(),
            tool_views(tools@) == with_tools(calls, option_defs(all.take(j as int))),
        decreases session.history.len() - j,
    {
        let ghost before = option_defs(all.take(j as int));
        assert(all.take(j + 1).drop_last() =~= all.take(j as int));
        match &session.history[j].prompt_logs {
            Some(logs) => {
                proof {
                    lemma_with_tools_concat(calls, before, logs_defs(logs@));
                }
                add_log_tools(&mut tools, logs);
            },
            None => {
                assert(before + Seq::<ToolDef>::empty() =~= before);
            },
        }
        j = j + 1;
    }
    assert(all.take(j as int) =~= all);
    proof {
        lemma_with_tools_concat(none, call_defs(all), option_defs(all));
    }
    tools
}

/// Whether the definition at `k` defines `tool` and none before it has that name.
pub open spec fn is_first_definition(defs: Seq<ToolDef>, k: int, tool: ToolView) -> bool {
    &&& 0 <= k < defs.len()
    &&& defined_tool(defs[k]) == Some(tool)
    &&& forall|m: int|
        0 <= m < k ==> !((#[trigger] defined_tool(defs[m])) matches Some(other) && other.name
            == tool.name)
}

/// No two extracted tools have the same name, and a tool is extracted if and only if it
/// is the first one defined under its name.
pub proof fn law_tools_are_first_definitions(defs: Seq<ToolDef>)
    ensures
        forall|i: int, j: int|
            0 <= i < j < with_tools(Seq::empty(), defs).len() ==> (#[trigger] with_tools(
                Seq::empty(),
                defs,
            )[i]).name != (#[trigger] with_tools(Seq::empty(), defs)[j]).name,
        forall|tool: ToolView|
            with_tools(Seq::empty(), defs).contains(tool) <==> exists|k: int|
                is_first_definition(defs, k, tool),
    decreases defs.len(),
{
    let tools = with_tools(Seq::empty(), defs);
    if defs.len() == 0 {
    } else {
        let start = defs.drop_last();
        let before = with_tools(Seq::empty(), start);
        law_tools_are_first_definitions(start);
        let last = defs.len() - 1;
        assert(forall|m: int| 0 <= m < last ==> #[trigger] defs[m] == start[m]);
        assert forall|tool: ToolView| tools.contains(tool) implies exists|k: int|
            is_first_definition(defs, k, tool) by {
            let p = tools.index_of(tool);
            if p < before.len() {
                assert(before[p] == tool);
                assert(before.contains(tool));
                let k = choose|k: int| is_first_definition(start, k, tool);
                assert(is_first_definition(start, k, tool));
                assert(is_first_definition(defs, k, tool));
            } else {
                assert(defined_tool(defs[last]) == Some(tool));
                assert forall|m: int| 0 <= m < last implies !((#[trigger] defined_tool(
                    defs[m],
                )) matches Some(other) && other.name == tool.name) by {
                    if let Some(other) = defined_tool(defs[m]) {
                        if other.name == tool.name {
                            lemma_defined_is_listed(start, m);
                        }
                    }
                }
                assert(is_first_definition(defs, last, tool));
            }
        }
        assert forall|tool: ToolView, k: int| #[trigger] is_first_definition(
            defs,
            k,
            tool,
        ) implies tools.contains(tool) by {
            if k < last {
                assert(is_first_definition(start, k, tool));
                assert(before.contains(tool));
                let p = before.index_of(tool);
                assert(tools[p] == tool);
            } else {
                if is_listed(before, tool.name) {
                    let p = choose|p: int|
                        0 <= p < before.len() && #[trigger] before[p].name == tool.name;
                    assert(before.contains(before[p]));
                    let m = choose|m: int| is_first_definition(start, m, before[p]);
                    assert(is_first_definition(start, m, before[p]));
                    assert(defined_tool(defs[m]) == Some(before[p]));
                }
                assert(tools[before.len() as int] == tool);
            }
        }
    }
}

proof fn lemma_defined_is_listed(defs: Seq<ToolDef>, m: int)
    requires
        0 <= m < defs.len(),
        defined_tool(defs[m]) is Some,
    ensures
        is_listed(with_tools(Seq::empty(), defs), defined_tool(defs[m])->0.name),
    decreases defs.len(),
{
    let name = defined_tool(defs[m])->0.name;
    let before = with_tools(Seq::empty(), defs.drop_last());
    let tools = with_tools(Seq::empty(), defs);
    if m < defs.len() - 1 {
        lemma_defined_is_listed(defs.drop_last(), m);
        let k = choose|k: int| 0 <= k < before.len() && #[trigger] before[k].name == name;
        assert(tools[k].name == name);
    } else if !is_listed(before, name) {
        assert(tools[before.len() as int].name == name);
    }
}

/// A definition tells the name, the description and the parameters of its function, and the
/// prefix for the system message. One without a name tells nothing.
pub proof fn law_definition_tells_of_its_function(def: ToolDef)
    ensures
        match def.function {
            Some(function) => if function.name@.len() > 0 {
                defined_tool(def) matches Some(tool) && {
                    &&& tool.name == function.name@
                    &&& tool.description == function.description@
                    &&& match function.parameters {
                        Some(schema) => tool.parameters == Some(schema@),
                        None => tool.parameters is None,
                    }
                    &&& match def.system_message_description {
                        Some(description) => tool.system_message_prefix == description.prefix@,
                        None => tool.system_message_prefix.len() == 0,
                    }
                }
            } else {
                defined_tool(def) is None
            },
            None => defined_tool(def) is None,
        },
{
}

/// Whether a state of a tool call of an item holds a definition.
pub open spec fn is_in_states(item: ChatHistoryItem, j: int, def: ToolDef) -> bool {
    item.tool_call_states matches Some(states) && 0 <= j < states@.len() && states@[j].tool == Some(
        def,
    )
}

/// Whether the options of a request of an item hold a definition.
pub open spec fn is_in_logs(item: ChatHistoryItem, j: int, k: int, def: ToolDef) -> bool {
    item.prompt_logs matches Some(logs) && 0 <= j < logs@.len() && (
    logs@[j].completion_options matches Some(options) && (options.tools matches Some(tools) && 0
        <= k < tools@.len() && tools@[k] == def))
}

proof fn lemma_state_defs(states: Seq<ToolCallState>, def: ToolDef)
    ensures
        state_defs(states).contains(def) <==> exists|j: int|
            0 <= j < states.len() && (#[trigger] states[j]).tool == Some(def),
    decreases states.len(),
{
    if states.len() > 0 {
        let n = states.len() - 1;
        let rest = states.drop_last();
        let (before, all) = (state_defs(rest), state_defs(states));
        lemma_state_defs(rest, def);
        if all.contains(def) {
            let k = choose|k: int| 0 <= k < all.len() && all[k] == def;
            if k < before.len() {
                assert(before[k] == def);
                let j = choose|j: int|
                    0 <= j < rest.len() && (#[trigger] rest[j]).tool == Some(def);
                assert(states[j].tool == Some(def));
            } else {
                assert(states[n].tool == Some(def));
            }
        }
        if exists|j: int| 0 <= j < states.len() && (#[trigger] states[j]).tool == Some(def) {
            let j = choose|j: int|
                0 <= j < states.len() && (#[trigger] states[j]).tool == Some(def);
            if j < n {
                assert(rest[j].tool == Some(def));
                let k = choose|k: int| 0 <= k < before.len() && before[k] == def;
                assert(all[k] == def);
            } else {
                assert(all[before.len() as int] == def);
            }
        }
    }
}

proof fn lemma_contains_concat(a: Seq<ToolDef>, b: Seq<ToolDef>, def: ToolDef)
    ensures
        (a + b).contains(def) <==> a.contains(def) || b.contains(def),
{
    let all = a + b;
    if all.contains(def) {
        let k = choose|k: int| 0 <= k < all.len() && all[k] == def;
        if k < a.len() {
            assert(a[k] == def);
        } else {
            assert(b[k - a.len()] == def);
        }
    }
    if a.contains(def) {
        let k = choose|k: int| 0 <= k < a.len() && a[k] == def;
        assert(all[k] == def);
    }
    if b.contains(def) {
        let k = choose|k: int| 0 <= k < b.len() && b[k] == def;
        assert(all[a.len() + k] == def);
    }
}

proof fn lemma_call_defs(history: Seq<ChatHistoryItem>, def: ToolDef)
    ensures
        call_defs(history).contains(def) <==> exists|i: int, j: int|
            0 <= i < history.len() && #[trigger] is_in_states(history[i], j, def),
    decreases history.len(),
{
    if history.len() > 0 {
        let n = history.len() - 1;
        let rest = history.drop_last();
        let last = match history[n].tool_call_states {
            Some(states) => state_defs(states@),
            None => Seq::empty(),
        };
        lemma_call_defs(rest, def);
        lemma_contains_concat(call_defs(rest), last, def);
        if let Some(states) = history[n].tool_call_states {
            lemma_state_defs(states@, def);
        }
        if call_defs(history).contains(def) {
            if call_defs(rest).contains(def) {
                let (i, j) = choose|i: int, j: int|
                    0 <= i < rest.len() && #[trigger] is_in_states(rest[i], j, def);
                assert(is_in_states(history[i], j, def));
            } else {
                let states = history[n].tool_call_states->0;
                let j = choose|j: int|
                    0 <= j < states@.len() && (#[trigger] states@[j]).tool == Some(def);
                assert(is_in_states(history[n], j, def));
            }
        }
        if exists|i: int, j: int|
            0 <= i < history.len() && #[trigger] is_in_states(history[i], j, def) {
            let (i, j) = choose|i: int, j: int|
                0 <= i < history.len() && #[trigger] is_in_states(history[i], j, def);
            if i < n {
                assert(is_in_states(rest[i], j, def));
            } else {
                let states = history[n].tool_call_states->0;
                assert(states@[j].tool == Some(def));
            }
        }
    }
}

proof fn lemma_logs_defs(logs: Seq<PromptLog>, def: ToolDef)
    ensures
        logs_defs(logs).contains(def) <==> exists|j: int|
            0 <= j < logs.len() && log_defs(#[trigger] logs[j]).contains(def),
    decreases logs.len(),
{
    if logs.len() > 0 {
        let n = logs.len() - 1;
        let rest = logs.drop_last();
        lemma_logs_defs(rest, def);
        lemma_contains_concat(logs_defs(rest), log_defs(logs[n]), def);
        if logs_defs(logs).contains(def) {
            if logs_defs(rest).contains(def) {
                let j = choose|j: int|
                    0 <= j < rest.len() && log_defs(#[trigger] rest[j]).contains(def);
                assert(logs[j] == rest[j]);
            } else {
                assert(log_defs(logs[n]).contains(def));
            }
        }
        if exists|j: int| 0 <= j < logs.len() && log_defs(#[trigger] logs[j]).contains(def) {
            let j = choose|j: int|
                0 <= j < logs.len() && log_defs(#[trigger] logs[j]).contains(def);
            if j < n {
                assert(rest[j] == logs[j]);
            }
        }
    }
}

proof fn lemma_option_defs(history: Seq<ChatHistoryItem>, def: ToolDef)
    ensures
        option_defs(history).contains(def) <==> exists|i: int, j: int, k: int|
            0 <= i < history.len() && #[trigger] is_in_logs(history[i], j, k, def),
    decreases history.len(),
{
    if history.len() > 0 {
        let n = history.len() - 1;
        let rest = history.drop_last();
        let last = match history[n].prompt_logs {
            Some(logs) => logs_defs(logs@),
            None => Seq::empty(),
        };
        lemma_option_defs(rest, def);
        lemma_contains_concat(option_defs(rest), last, def);
        if let Some(logs) = history[n].prompt_logs {
            lemma_logs_defs(logs@, def);
        }
        if option_defs(history).contains(def) {
            if option_defs(rest).contains(def) {
                let (i, j, k) = choose|i: int, j: int, k: int|
                    0 <= i < rest.len() && #[trigger] is_in_logs(rest[i], j, k, def);
                assert(is_in_logs(history[i], j, k, def));
            } else {
                let logs = history[n].prompt_logs->0;
                let j = choose|j: int|
                    0 <= j < logs@.len() && log_defs(#[trigger] logs@[j]).contains(def);
                let defs = log_defs(logs@[j]);
                let k = choose|k: int| 0 <= k < defs.len() && defs[k] == def;
                assert(is_in_logs(history[n], j, k, def));
            }
        }
        if exists|i: int, j: int, k: int|
            0 <= i < history.len() && #[trigger] is_in_logs(history[i], j, k, def) {
            let (i, j, k) = choose|i: int, j: int, k: int|
                0 <= i < history.len() && #[trigger] is_in_logs(history[i], j, k, def);
            if i < n {
                assert(is_in_logs(rest[i], j, k, def));
            } else {
                let logs = history[n].prompt_logs->0;
                assert(log_defs(logs@[j])[k] == def);
                assert(log_defs(logs@[j]).contains(def));
            }
        }
    }
}

/// The definitions of a session are those in the states of its tool calls and those in the
/// options of its requests.
pub proof fn law_definitions_are_those_of_the_session(history: Seq<ChatHistoryItem>, def: ToolDef)
    ensures
        session_defs(history).contains(def) <==> ((exists|i: int, j: int|
            0 <= i < history.len() && #[trigger] is_in_states(history[i], j, def)) || (exists|
            i: int,
            j: int,
            k: int,
        |
            0 <= i < history.len() && #[trigger] is_in_logs(history[i], j, k, def))),
        call_defs(history).contains(def) <==> exists|i: int, j: int|
            0 <= i < history.len() && #[trigger] is_in_states(history[i], j, def),
{
    lemma_call_defs(history, def);
    lemma_option_defs(history, def);
    lemma_contains_concat(call_defs(history), option_defs(history), def);
}

/// What is defined first comes first: the definitions of the first messages begin those of all
/// of them.
pub proof fn law_definitions_keep_their_order(history: Seq<ChatHistoryItem>, n: int)
    requires
        0 <= n <= history.len(),
    ensures
        call_defs(history.take(n)).is_prefix_of(call_defs(history)),
        option_defs(history.take(n)).is_prefix_of(option_defs(history)),
    decreases history.len() - n,
{
    if n < history.len() {
        law_definitions_keep_their_order(history, n + 1);
        assert(history.take(n + 1).drop_last() =~= history.take(n));
        let (a, b) = (call_defs(history.take(n)), call_defs(history.take(n + 1)));
        assert(a =~= b.take(a.len() as int));
        assert(a =~= call_defs(history).take(a.len() as int));
        let (c, d) = (option_defs(history.take(n)), option_defs(history.take(n + 1)));
        assert(c =~= d.take(c.len() as int));
        assert(c =~= option_defs(history).take(c.len() as int));
    } else {
        assert(history.take(n) =~= history);
    }
}

/// A tool that the state of a tool call defines is extracted as it is defined there, first,
/// whatever the options of requests tell of it.
pub proof fn law_states_of_calls_are_preferred(
    history: Seq<ChatHistoryItem>,
    k: int,
    tool: ToolView,
)
    requires
        is_first_definition(call_defs(history), k, tool),
    ensures
        with_tools(Seq::empty(), session_defs(history)).contains(tool),
{
    let (calls, all) = (call_defs(history), session_defs(history));
    law_tools_are_first_definitions(all);
    assert(all[k] == calls[k]);
    assert forall|m: int| 0 <= m < k implies !((#[trigger] defined_tool(all[m])) matches Some(
        other,
    ) && other.name == tool.name) by {
        assert(all[m] == calls[m]);
        assert(!(defined_tool(calls[m]) matches Some(other) && other.name == tool.name));
    }
    assert(is_first_definition(all, k, tool));
}

/// Within a message, too, what is defined first comes first.
pub proof fn law_definitions_of_a_message_keep_their_order(
    states: Seq<ToolCallState>,
    logs: Seq<PromptLog>,
    n: int,
)
    requires
        0 <= n,
    ensures
        n <= states.len() ==> state_defs(states.take(n)).is_prefix_of(state_defs(states)),
        n <= logs.len() ==> logs_defs(logs.take(n)).is_prefix_of(logs_defs(logs)),
    decreases states.len() + logs.len() - n,
{
    if n < states.len() || n < logs.len() {
        law_definitions_of_a_message_keep_their_order(states, logs, n + 1);
    }
    if n < states.len() {
        assert(states.take(n + 1).drop_last() =~= states.take(n));
        let (a, b) = (state_defs(states.take(n)), state_defs(states.take(n + 1)));
        assert(a =~= b.take(a.len() as int));
        assert(a =~= state_defs(states).take(a.len() as int));
    } else if n == states.len() {
        assert(states.take(n) =~= states);
    }
    if n < logs.len() {
        assert(logs.take(n + 1).drop_last() =~= logs.take(n));
        let (c, d) = (logs_defs(logs.take(n)), logs_defs(logs.take(n + 1)));
        assert(c =~= d.take(c.len() as int));
        assert(c =~= logs_defs(logs).take(c.len() as int));
    } else if n == logs.len() {
        assert(logs.take(n) =~= logs);
    }
}

} // verus!
