//! The transcript of a session: its messages in turns, each with the results of the
//! tools that it calls.
use crate::message::{
    content_html, context_items_html, message_html, message_start, message_with_results,
    model_badge, render_message, render_message_with_results, render_tool_result_inline,
    token_badge, tokens_fit, tool_calls_html, tool_group_html, tool_result_html,
};
use crate::session::{
    item_model, law_system_prompt_is_the_first_system_message, model_of_item, opt_index,
    system_prompt, ChatHistoryItem, ToolCallDelta,
};
use crate::text::{
    concatenated, contains_text, lemma_concat_contains, lemma_concatenated_push, opt_view,
    same_text,
};
use vstd::prelude::*;

verus! {

/// A turn: the message at `start`, and the tool results from there up to `end`.
pub struct Turn {
    pub start: int,
    pub end: int,
}

/// The tool calls of an item.
pub open spec fn calls_of(item: ChatHistoryItem) -> Seq<ToolCallDelta> {
    match item.message.tool_calls {
        Some(calls) => calls@,
        None => Seq::empty(),
    }
}

/// The index of the first message, from `start` on, that is not a tool result.
pub open spec fn results_end(history: Seq<ChatHistoryItem>, start: int) -> int
    decreases history.len() - start,
{
    if start < 0 || start >= history.len() || history[start].message.role@ != "tool"@ {
        start
    } else {
        results_end(history, start + 1)
    }
}

/// The end of the turn that begins at `start`: an assistant message that calls tools is
/// followed by their results, any other message stands alone.
pub open spec fn turn_end(history: Seq<ChatHistoryItem>, start: int) -> int {
    if history[start].message.role@ == "assistant"@ && calls_of(history[start]).len() > 0 {
        results_end(history, start + 1)
    } else {
        start + 1
    }
}

/// The results of a turn end after it starts and not after the last message.
pub proof fn lemma_results_end(history: Seq<ChatHistoryItem>, start: int)
    requires
        0 <= start <= history.len(),
    ensures
        start <= results_end(history, start) <= history.len(),
        forall|k: int|
            start <= k < results_end(history, start) ==> (#[trigger] history[k]).message.role@
                == "tool"@,
    decreases history.len() - start,
{
    if start < history.len() && history[start].message.role@ == "tool"@ {
        lemma_results_end(history, start + 1);
    }
}

/// The turns from `start` on, without the message at `skip`.
pub open spec fn turns(history: Seq<ChatHistoryItem>, skip: Option<int>, start: int) -> Seq<Turn>
    decreases history.len() - start,
{
    if start < 0 || start >= history.len() {
        Seq::empty()
    } else if skip == Some(start) {
        turns(history, skip, start + 1)
    } else {
        proof {
            lemma_results_end(history, start + 1);
        }
        seq![Turn { start, end: turn_end(history, start) }] + turns(
            history,
            skip,
            turn_end(history, start),
        )
    }
}

/// The prompt tokens of the messages that turns start with.
pub open spec fn prompt_sum(history: Seq<ChatHistoryItem>, list: Seq<Turn>) -> nat
    decreases list.len(),
{
    if list.len() == 0 {
        0
    } else {
        prompt_sum(history, list.drop_last()) + match history[list.last().start].message.usage {
            Some(usage) => usage.prompt_tokens as nat,
            None => 0,
        }
    }
}

/// The completion tokens of the messages that turns start with.
pub open spec fn completion_sum(history: Seq<ChatHistoryItem>, list: Seq<Turn>) -> nat
    decreases list.len(),
{
    if list.len() == 0 {
        0
    } else {
        completion_sum(history, list.drop_last())
            + match history[list.last().start].message.usage {
            Some(usage) => usage.completion_tokens as nat,
            None => 0,
        }
    }
}

/// The number of turns that start with a message of that role.
pub open spec fn count_role(
    history: Seq<ChatHistoryItem>,
    list: Seq<Turn>,
    role: Seq<char>,
) -> nat
    decreases list.len(),
{
    if list.len() == 0 {
        0
    } else {
        count_role(history, list.drop_last(), role) + if history[list.last().start].message.role@
            == role {
            1nat
        } else {
            0
        }
    }
}

/// The model that was named last.
pub open spec fn model_after(history: Seq<ChatHistoryItem>, list: Seq<Turn>) -> Option<Seq<char>>
    decreases list.len(),
{
    if list.len() == 0 {
        None
    } else if model_of_item(history[list.last().start]) is Some {
        model_of_item(history[list.last().start])
    } else {
        model_after(history, list.drop_last())
    }
}

/// The running sums of tokens that the last turn shows: none without token counts of its own.
pub open spec fn running_sums(history: Seq<ChatHistoryItem>, list: Seq<Turn>) -> Option<
    (u64, u64),
> {
    if history[list.last().start].message.usage is Some {
        Some((prompt_sum(history, list) as u64, completion_sum(history, list) as u64))
    } else {
        None
    }
}

/// The names and the arguments of the functions that are called.
pub open spec fn called_functions(calls: Seq<ToolCallDelta>) -> Seq<(Seq<char>, Seq<char>)>
    decreases calls.len(),
{
    if calls.len() == 0 {
        Seq::empty()
    } else {
        match calls.last().function {
            Some(function) => called_functions(calls.drop_last()).push(
                (function.name@, function.arguments@),
            ),
            None => called_functions(calls.drop_last()),
        }
    }
}

/// The function that the tool result at index `k` answers.
pub open spec fn answered(calls: Seq<ToolCallDelta>, k: int) -> (Seq<char>, Seq<char>) {
    if 0 <= k < called_functions(calls).len() {
        called_functions(calls)[k]
    } else {
        (""@, ""@)
    }
}

/// The tool results up to `end` of the turn that begins at `start`.
pub open spec fn results_html(history: Seq<ChatHistoryItem>, start: int, end: int) -> Seq<char>
    decreases end - start,
{
    if end <= start + 1 {
        ""@
    } else {
        let call = answered(calls_of(history[start]), end - start - 2);
        results_html(history, start, end - 1) + tool_result_html(history[end - 1], call.0, call.1)
    }
}

/// A turn as HTML. A tool result that answers no message stands alone.
pub open spec fn turn_html(
    history: Seq<ChatHistoryItem>,
    turn: Turn,
    running: Option<(u64, u64)>,
    model: Option<Seq<char>>,
) -> Seq<char> {
    let item = history[turn.start];
    let role = item.message.role@;
    if role == "assistant"@ {
        message_with_results(
            item,
            running,
            model,
            results_html(history, turn.start, turn.end),
        )
    } else if role == "tool"@ {
        "<div class=\"message tool-result\">\n"@ + tool_result_html(item, ""@, ""@) + "</div>\n"@
    } else {
        message_html(item, running, None)
    }
}

/// Turns as HTML, one after the other.
pub open spec fn turns_html(history: Seq<ChatHistoryItem>, list: Seq<Turn>) -> Seq<char>
    decreases list.len(),
{
    if list.len() == 0 {
        ""@
    } else {
        turns_html(history, list.drop_last()) + turn_html(
            history,
            list.last(),
            running_sums(history, list),
            model_after(history, list),
        )
    }
}

/// The messages of a session as HTML, with what was counted on the way.
pub struct Transcript {
    pub html: String,
    pub user_count: u64,
    pub assistant_count: u64,
    pub prompt_tokens: u64,
    pub completion_tokens: u64,
}

/// The names and the arguments of the functions that an item calls.
fn list_functions(calls: &Vec<ToolCallDelta>) -> (r: Vec<(String, String)>)
    ensures
        r@.len() == called_functions(calls@).len(),
        forall|k: int|
            0 <= k < r@.len() ==> (#[trigger] r@[k]).0@ == called_functions(calls@)[k].0 && r@[k].1@
                == called_functions(calls@)[k].1,
{
    let mut r: Vec<(String, String)> = Vec::new();
    let mut i: usize = 0;
    assert(calls@.take(0) =~= Seq::empty());
    while i < calls.len()
        invariant
            i <= calls.len(),
            r@.len() == called_functions(calls@.take(i as int)).len(),
            forall|k: int|
                0 <= k < r@.len() ==> (#[trigger] r@[k]).0@ == called_functions(
                    calls@.take(i as int),
                )[k].0 && r@[k].1@ == called_functions(calls@.take(i as int))[k].1,
        decreases calls.len() - i,
    {
        assert(calls@.take(i + 1).drop_last() =~= calls@.take(i as int));
        if let Some(function) = &calls[i].function {
            r.push((function.name.clone(), function.arguments.clone()));
        }
        i = i + 1;
    }
    assert(calls@.take(i as int) =~= calls@);
    r
}

/// Renders the tool results of a turn.
fn render_results(history: &Vec<ChatHistoryItem>, start: usize, end: usize) -> (r: String)
    requires
        start < end <= history.len(),
    ensures
        r@ == results_html(history@, start as int, end as int),
{
    let empty: Vec<ToolCallDelta> = Vec::new();
    let functions = match &history[start].message.tool_calls {
        Some(calls) => list_functions(calls),
        None => list_functions(&empty),
    };
    let ghost calls = calls_of(history@[start as int]);
    assert(empty@ =~= Seq::empty());
    let mut r = "".to_string();
    let mut j: usize = start + 1;
    while j < end
        invariant
            start < j <= end <= history.len(),
            calls == calls_of(history@[start as int]),
            functions@.len() == called_functions(calls).len(),
            forall|k: int|
                0 <= k < functions@.len() ==> (#[trigger] functions@[k]).0@ == called_functions(
                    calls,
                )[k].0 && functions@[k].1@ == called_functions(calls)[k].1,
            r@ == results_html(history@, start as int, j as int),
        decreases end - j,
    {
        let k: usize = j - start - 1;
        let html = if k < functions.len() {
            render_tool_result_inline(
                &history[j],
                functions[k].0.as_str(),
                functions[k].1.as_str(),
            )
        } else {
            render_tool_result_inline(&history[j], "", "")
        };
        r.push_str(html.as_str());
        j = j + 1;
    }
    r
}

/// Renders a turn.
fn render_turn(
    history: &Vec<ChatHistoryItem>,
    start: usize,
    end: usize,
    running: Option<(u64, u64)>,
    model: &Option<String>,
) -> (r: String)
    requires
        start < end <= history.len(),
        tokens_fit(history@[start as int].message.usage, running),
    ensures
        r@ == turn_html(
            history@,
            Turn { start: start as int, end: end as int },
            running,
            opt_view(*model),
        ),
{
    let item = &history[start];
    let role = item.message.role.as_str();
    if same_text(role, "assistant") {
        let results = render_results(history, start, end);
        match model {
            Some(name) => render_message_with_results(
                item,
                running,
                Some(name.as_str()),
                results.as_str(),
            ),
            None => render_message_with_results(item, running, None, results.as_str()),
        }
    } else if same_text(role, "tool") {
        let mut r = "<div class=\"message tool-result\">\n".to_string();
        r.push_str(render_tool_result_inline(item, "", "").as_str());
        r.push_str("</div>\n");
        r
    } else {
        render_message(item, running, None)
    }
}

/// The end of the turn that begins at `start`.
fn find_turn_end(history: &Vec<ChatHistoryItem>, start: usize) -> (r: usize)
    requires
        start < history.len(),
    ensures
        r == turn_end(history@, start as int),
        start < r <= history.len(),
{
    let message = &history[start].message;
    let calls = match &message.tool_calls {
        Some(calls) => calls.len() > 0,
        None => false,
    };
    let mut end: usize = start + 1;
    if same_text(message.role.as_str(), "assistant") && calls {
        while end < history.len() && same_text(history[end].message.role.as_str(), "tool")
            invariant
                start < end <= history.len(),
                results_end(history@, start + 1) == results_end(history@, end as int),
            decreases history.len() - end,
        {
            end = end + 1;
        }
    }
    end
}

proof fn lemma_sums_grow(history: Seq<ChatHistoryItem>, a: Seq<Turn>, b: Seq<Turn>)
    ensures
        prompt_sum(history, a) <= prompt_sum(history, a + b),
        completion_sum(history, a) <= completion_sum(history, a + b),
    decreases b.len(),
{
    if b.len() == 0 {
        assert(a + b =~= a);
    } else {
        lemma_sums_grow(history, a, b.drop_last());
        assert((a + b).drop_last() =~= a + b.drop_last());
    }
}

/// Whether the sum of all tokens that a transcript shows fits in 64 bits.
pub fn sums_fit(history: &Vec<ChatHistoryItem>, skip: Option<usize>) -> (r: bool)
    ensures
        r == (prompt_sum(history@, turns(history@, opt_index(skip), 0)) + completion_sum(
            history@,
            turns(history@, opt_index(skip), 0),
        ) <= u64::MAX),
{
    let ghost h = history@;
    let ghost skipped = opt_index(skip);
    let ghost all = turns(h, skipped, 0);
    let ghost mut done = Seq::<Turn>::empty();
    let mut total: u64 = 0;
    let mut i: usize = 0;
    assert(done + all =~= all);
    while i < history.len()
        invariant
            h == history@,
            skipped == opt_index(skip),
            all == turns(h, skipped, 0),
            i <= h.len(),
            done + turns(h, skipped, i as int) == all,
            total == prompt_sum(h, done) + completion_sum(h, done),
        decreases h.len() - i,
    {
        let skip_this = match skip {
            Some(k) => k == i,
            None => false,
        };
        if skip_this {
            i = i + 1;
        } else {
            let end = find_turn_end(history, i);
            let ghost turn = Turn { start: i as int, end: end as int };
            let ghost now = done.push(turn);
            proof {
                let rest = turns(h, skipped, end as int);
                assert(now + rest =~= done + (seq![turn] + rest));
                assert(now.drop_last() =~= done);
                lemma_sums_grow(h, now, rest);
            }
            if let Some(usage) = &history[i].message.usage {
                total = match total.checked_add(usage.prompt_tokens) {
                    Some(sum) => sum,
                    None => return false,
                };
                total = match total.checked_add(usage.completion_tokens) {
                    Some(sum) => sum,
                    None => return false,
                };
            }
            i = end;
            proof {
                done = now;
            }
        }
    }
    assert(done =~= all);
    true
}

/// Renders the messages of a history, without the one at `skip`.
pub fn render_transcript(history: &Vec<ChatHistoryItem>, skip: Option<usize>) -> (r: Transcript)
    requires
        prompt_sum(history@, turns(history@, opt_index(skip), 0)) + completion_sum(
            history@,
            turns(history@, opt_index(skip), 0),
        ) <= u64::MAX,
    ensures
        r.html@ == turns_html(history@, turns(history@, opt_index(skip), 0)),
        r.user_count == count_role(history@, turns(history@, opt_index(skip), 0), "user"@),
        r.assistant_count == count_role(
            history@,
            turns(history@, opt_index(skip), 0),
            "assistant"@,
        ),
        r.prompt_tokens == prompt_sum(history@, turns(history@, opt_index(skip), 0)),
        r.completion_tokens == completion_sum(history@, turns(history@, opt_index(skip), 0)),
{
    let ghost h = history@;
    let ghost skipped = opt_index(skip);
    let ghost all = turns(h, skipped, 0);
    let ghost mut done = Seq::<Turn>::empty();
    let mut html = "".to_string();
    let mut users: u64 = 0;
    let mut assistants: u64 = 0;
    let mut prompt: u64 = 0;
    let mut completion: u64 = 0;
    let mut model: Option<String> = None;
    let mut i: usize = 0;
    assert(done + all =~= all);
    while i < history.len()
        invariant
            h == history@,
            skipped == opt_index(skip),
            all == turns(h, skipped, 0),
            i <= h.len(),
            done + turns(h, skipped, i as int) == all,
            prompt_sum(h, all) + completion_sum(h, all) <= u64::MAX,
            html@ == turns_html(h, done),
            users == count_role(h, done, "user"@),
            assistants == count_role(h, done, "assistant"@),
            users <= i,
            assistants <= i,
            prompt == prompt_sum(h, done),
            completion == completion_sum(h, done),
            opt_view(model) == model_after(h, done),
        decreases h.len() - i,
    {
        let skip_this = match skip {
            Some(k) => k == i,
            None => false,
        };
        if skip_this {
            i = i + 1;
        } else {
            let item = &history[i];
            let end = find_turn_end(history, i);
            let ghost turn = Turn { start: i as int, end: end as int };
            let ghost now = done.push(turn);
            proof {
                let rest = turns(h, skipped, end as int);
                assert(now + rest =~= done + (seq![turn] + rest));
                assert(now.drop_last() =~= done);
                lemma_sums_grow(h, now, rest);
            }
            if let Some(name) = item_model(item) {
                model = Some(name.to_string());
            }
            let mut running: Option<(u64, u64)> = None;
            if let Some(usage) = &item.message.usage {
                prompt = prompt + usage.prompt_tokens;
                completion = completion + usage.completion_tokens;
                running = Some((prompt, completion));
            }
            if same_text(item.message.role.as_str(), "user") {
                users = users + 1;
            }
            if same_text(item.message.role.as_str(), "assistant") {
                assistants = assistants + 1;
            }
            html.push_str(render_turn(history, i, end, running, &model).as_str());
            i = end;
            proof {
                done = now;
            }
        }
    }
    assert(done =~= all);
    Transcript {
        html,
        user_count: users,
        assistant_count: assistants,
        prompt_tokens: prompt,
        completion_tokens: completion,
    }
}

/// Whether the message at `i` belongs to a turn.
pub open spec fn is_in_turn(turn: Turn, i: int) -> bool {
    turn.start <= i < turn.end
}

proof fn lemma_turns(history: Seq<ChatHistoryItem>, skip: Option<int>, start: int)
    requires
        0 <= start <= history.len(),
        skip matches Some(k) ==> 0 <= k < history.len() && history[k].message.role@ != "tool"@,
    ensures
        ({
            let list = turns(history, skip, start);
            &&& forall|k: int|
                0 <= k < list.len() ==> start <= (#[trigger] list[k]).start < list[k].end
                    <= history.len() && list[k].end == turn_end(history, list[k].start)
            &&& forall|k: int, m: int|
                0 <= k < m < list.len() ==> (#[trigger] list[k]).end <= (#[trigger] list[m]).start
            &&& forall|i: int|
                start <= i < history.len() && skip != Some(i) ==> exists|k: int|
                    0 <= k < list.len() && is_in_turn(#[trigger] list[k], i)
            &&& forall|k: int, i: int|
                0 <= k < list.len() && #[trigger] is_in_turn(list[k], i) ==> skip != Some(i) && (i
                    == list[k].start || history[i].message.role@ == "tool"@)
        }),
    decreases history.len() - start,
{
    let list = turns(history, skip, start);
    if start >= history.len() {
        assert(list.len() == 0);
    } else if skip == Some(start) {
        lemma_turns(history, skip, start + 1);
        assert(list == turns(history, skip, start + 1));
    } else {
        lemma_results_end(history, start + 1);
        let end = turn_end(history, start);
        lemma_turns(history, skip, end);
        let rest = turns(history, skip, end);
        assert(list[0] == (Turn { start, end }));
        assert(forall|k: int| 1 <= k < list.len() ==> #[trigger] list[k] == rest[k - 1]);
        assert forall|k: int| 0 <= k < list.len() implies start <= (#[trigger] list[k]).start
            < list[k].end <= history.len() && list[k].end == turn_end(history, list[k].start) by {
            if k > 0 {
                assert(list[k] == rest[k - 1]);
            }
        }
        assert forall|k: int, m: int| 0 <= k < m < list.len() implies (#[trigger] list[k]).end <= (
        #[trigger] list[m]).start by {
            assert(list[m] == rest[m - 1]);
            if k > 0 {
                assert(list[k] == rest[k - 1]);
            }
        }
        assert forall|i: int| start <= i < history.len() && skip != Some(i) implies exists|k: int|
            0 <= k < list.len() && is_in_turn(#[trigger] list[k], i) by {
            if i < end {
                assert(is_in_turn(list[0], i));
            } else {
                let k = choose|k: int| 0 <= k < rest.len() && is_in_turn(#[trigger] rest[k], i);
                assert(list[k + 1] == rest[k]);
            }
        }
        assert forall|k: int, i: int|
            0 <= k < list.len() && #[trigger] is_in_turn(list[k], i) implies skip != Some(i) && (i
            == list[k].start || history[i].message.role@ == "tool"@) by {
            if k > 0 {
                assert(is_in_turn(rest[k - 1], i));
            }
        }
    }
}

/// The turns of a session follow one another, and every message but the one that holds the
/// system prompt belongs to exactly one of them. In a turn, only tool results follow the
/// first message.
pub proof fn law_every_message_is_in_one_turn(history: Seq<ChatHistoryItem>)
    ensures
        ({
            let prompt = system_prompt(history).1;
            let list = turns(history, prompt, 0);
            &&& forall|k: int|
                0 <= k < list.len() ==> 0 <= (#[trigger] list[k]).start < list[k].end
                    <= history.len()
            &&& forall|k: int, m: int|
                0 <= k < m < list.len() ==> (#[trigger] list[k]).end <= (#[trigger] list[m]).start
            &&& forall|i: int|
                0 <= i < history.len() && prompt != Some(i) ==> exists|k: int|
                    0 <= k < list.len() && is_in_turn(#[trigger] list[k], i)
            &&& forall|k: int, i: int|
                0 <= k < list.len() && #[trigger] is_in_turn(list[k], i) ==> prompt != Some(i) && (
                i == list[k].start || history[i].message.role@ == "tool"@)
        }),
{
    reveal_strlit("system");
    reveal_strlit("tool");
    assert("system"@.len() != "tool"@.len());
    law_system_prompt_is_the_first_system_message(history);
    lemma_turns(history, system_prompt(history).1, 0);
}

/// The results of the tools that an assistant message calls stand in the group of its tool
/// calls: behind the calls, and before the end of the group.
pub proof fn law_tool_results_stand_in_the_tool_group(
    history: Seq<ChatHistoryItem>,
    turn: Turn,
    running: Option<(u64, u64)>,
    model: Option<Seq<char>>,
)
    requires
        history[turn.start].message.role@ == "assistant"@,
        calls_of(history[turn.start]).len() > 0,
    ensures
        ({
            let item = history[turn.start];
            let role = item.message.role@;
            let group = "  <div class=\"assistant-tool-group\">\n"@ + tool_calls_html(
                calls_of(item),
            ) + results_html(history, turn.start, turn.end) + "  </div>\n"@;
            turn_html(history, turn, running, model) == message_start(
                role,
                model_badge(role, model) + token_badge(item.message.usage, running),
                context_items_html(item.context_items@),
                content_html(item.message.content),
            ) + group + "</div>\n"@
        }),
{
    reveal_strlit("assistant");
    reveal_strlit("thinking");
    reveal_strlit("");
    assert("assistant"@.len() != "thinking"@.len());
    let item = history[turn.start];
    let role = item.message.role@;
    let before = message_start(
        role,
        model_badge(role, model) + token_badge(item.message.usage, running),
        context_items_html(item.context_items@),
        content_html(item.message.content),
    );
    let group = tool_group_html(
        item.message.tool_calls,
        results_html(history, turn.start, turn.end),
    );
    assert(before + group + ""@ =~= before + group);
}

/// The HTML of each turn stands in the HTML of all of them.
pub proof fn lemma_turns_hold_turn(history: Seq<ChatHistoryItem>, list: Seq<Turn>, k: int)
    requires
        0 <= k < list.len(),
    ensures
        contains_text(
            turns_html(history, list),
            turn_html(
                history,
                list[k],
                running_sums(history, list.take(k + 1)),
                model_after(history, list.take(k + 1)),
            ),
        ),
    decreases list.len(),
{
    let before = turns_html(history, list.drop_last());
    let last = turn_html(
        history,
        list.last(),
        running_sums(history, list),
        model_after(history, list),
    );
    if k < list.len() - 1 {
        lemma_turns_hold_turn(history, list.drop_last(), k);
        assert(list.drop_last().take(k + 1) =~= list.take(k + 1));
    } else {
        assert(list.take(k + 1) =~= list);
    }
    lemma_concat_contains(
        before,
        last,
        turn_html(
            history,
            list[k],
            running_sums(history, list.take(k + 1)),
            model_after(history, list.take(k + 1)),
        ),
    );
}

/// Whether `positions` are the places, in order, of the tool calls that call a function.
pub open spec fn are_function_calls(calls: Seq<ToolCallDelta>, positions: Seq<int>) -> bool {
    &&& forall|i: int|
        0 <= i < positions.len() ==> 0 <= #[trigger] positions[i] < calls.len()
            && calls[positions[i]].function is Some
    &&& forall|i: int, j: int|
        0 <= i < j < positions.len() ==> #[trigger] positions[i] < #[trigger] positions[j]
    &&& forall|p: int|
        0 <= p < calls.len() && (#[trigger] calls[p]).function is Some ==> positions.contains(p)
}

proof fn lemma_called_functions(calls: Seq<ToolCallDelta>, positions: Seq<int>)
    requires
        are_function_calls(calls, positions),
    ensures
        called_functions(calls).len() == positions.len(),
        forall|i: int|
            0 <= i < positions.len() ==> #[trigger] called_functions(calls)[i] == (
                calls[positions[i]].function->0.name@,
                calls[positions[i]].function->0.arguments@,
            ),
    decreases calls.len(),
{
    if calls.len() == 0 {
        if positions.len() > 0 {
            assert(0 <= positions[0] < calls.len());
        }
    } else {
        let n = calls.len() - 1;
        let rest = calls.drop_last();
        if calls[n].function is Some {
            assert(positions.contains(n));
            let j = choose|j: int| 0 <= j < positions.len() && positions[j] == n;
            assert(j == positions.len() - 1) by {
                if j < positions.len() - 1 {
                    assert(positions[j] < positions[positions.len() - 1]);
                    assert(positions[positions.len() - 1] < calls.len());
                }
            }
            let fewer = positions.drop_last();
            assert(are_function_calls(rest, fewer)) by {
                assert forall|i: int| 0 <= i < fewer.len() implies 0 <= #[trigger] fewer[i]
                    < rest.len() && rest[fewer[i]].function is Some by {
                    assert(positions[i] < positions[j]);
                    assert(fewer[i] == positions[i]);
                }
                assert forall|p: int| 0 <= p < rest.len() && (
                #[trigger] rest[p]).function is Some implies fewer.contains(p) by {
                    assert(calls[p].function is Some);
                    let i = choose|i: int| 0 <= i < positions.len() && positions[i] == p;
                    assert(fewer[i] == p);
                }
            }
            lemma_called_functions(rest, fewer);
            assert forall|i: int| 0 <= i < positions.len() implies #[trigger] called_functions(
                calls,
            )[i] == (
                calls[positions[i]].function->0.name@,
                calls[positions[i]].function->0.arguments@,
            ) by {
                if i < j {
                    assert(called_functions(rest)[i] == called_functions(calls)[i]);
                    assert(fewer[i] == positions[i]);
                    assert(positions[i] < positions[j]);
                }
            }
        } else {
            assert(are_function_calls(rest, positions)) by {
                assert forall|i: int| 0 <= i < positions.len() implies 0
                    <= #[trigger] positions[i] < rest.len() && rest[positions[i]].function
                    is Some by {
                    assert(positions[i] != n);
                }
                assert forall|p: int| 0 <= p < rest.len() && (
                #[trigger] rest[p]).function is Some implies positions.contains(p) by {
                    assert(calls[p].function is Some);
                }
            }
            lemma_called_functions(rest, positions);
            assert forall|i: int| 0 <= i < positions.len() implies #[trigger] called_functions(
                calls,
            )[i] == (
                calls[positions[i]].function->0.name@,
                calls[positions[i]].function->0.arguments@,
            ) by {
                assert(called_functions(rest)[i] == called_functions(calls)[i]);
                assert(rest[positions[i]] == calls[positions[i]]);
            }
        }
    }
}

/// The tool results of a turn answer the calls of its message in order: the first result is
/// rendered with the name and the arguments of the first function that is called, the second
/// with those of the second, and so on. Results beyond the calls are rendered without a name.
pub proof fn law_results_answer_the_calls_in_order(
    history: Seq<ChatHistoryItem>,
    start: int,
    end: int,
    calls: Vec<ToolCallDelta>,
    positions: Seq<int>,
)
    requires
        0 <= start < end <= history.len(),
        history[start].message.tool_calls == Some(calls),
        are_function_calls(calls@, positions),
    ensures
        results_html(history, start, end) == concatenated(
            Seq::new(
                (end - start - 1) as nat,
                |i: int|
                    if i < positions.len() {
                        tool_result_html(
                            history[start + 1 + i],
                            calls@[positions[i]].function->0.name@,
                            calls@[positions[i]].function->0.arguments@,
                        )
                    } else {
                        tool_result_html(history[start + 1 + i], ""@, ""@)
                    },
            ),
        ),
    decreases end - start,
{
    let shown = |i: int|
        if i < positions.len() {
            tool_result_html(
                history[start + 1 + i],
                calls@[positions[i]].function->0.name@,
                calls@[positions[i]].function->0.arguments@,
            )
        } else {
            tool_result_html(history[start + 1 + i], ""@, ""@)
        };
    let all = Seq::new((end - start - 1) as nat, shown);
    if end == start + 1 {
        reveal_strlit("");
        assert(concatenated(all) =~= ""@);
    } else {
        law_results_answer_the_calls_in_order(history, start, end - 1, calls, positions);
        let before = Seq::new((end - start - 2) as nat, shown);
        lemma_called_functions(calls@, positions);
        let k = end - start - 2;
        lemma_concatenated_push(before, all[k]);
        assert(all =~= before.push(all[k]));
        if k < positions.len() {
            assert(called_functions(calls@)[k] == (
                calls@[positions[k]].function->0.name@,
                calls@[positions[k]].function->0.arguments@,
            ));
        }
        assert(all[k] == tool_result_html(
            history[end - 1],
            answered(calls@, k).0,
            answered(calls@, k).1,
        ));
    }
}

/// In a turn whose message calls a function with each of its tool calls, the result at `i`
/// stands with the name and the arguments of the call at `i`.
pub proof fn law_result_stands_with_its_call(
    history: Seq<ChatHistoryItem>,
    start: int,
    end: int,
    calls: Vec<ToolCallDelta>,
    i: int,
)
    requires
        0 <= start < end <= history.len(),
        history[start].message.tool_calls == Some(calls),
        forall|p: int| 0 <= p < calls@.len() ==> (#[trigger] calls@[p]).function is Some,
        0 <= i < calls@.len(),
        i < end - start - 1,
    ensures
        contains_text(
            results_html(history, start, end),
            tool_result_html(
                history[start + 1 + i],
                calls@[i].function->0.name@,
                calls@[i].function->0.arguments@,
            ),
        ),
    decreases end - start,
{
    let positions = Seq::new(calls@.len(), |p: int| p);
    assert forall|p: int| 0 <= p < calls@.len() && (
    #[trigger] calls@[p]).function is Some implies positions.contains(p) by {
        assert(positions[p] == p);
    }
    lemma_called_functions(calls@, positions);
    let before = results_html(history, start, end - 1);
    let k = end - start - 2;
    let call = answered(calls@, k);
    let last = tool_result_html(history[end - 1], call.0, call.1);
    let wanted = tool_result_html(
        history[start + 1 + i],
        calls@[i].function->0.name@,
        calls@[i].function->0.arguments@,
    );
    if i < k {
        law_result_stands_with_its_call(history, start, end - 1, calls, i);
    } else {
        assert(positions[i] == i);
        assert(called_functions(calls@)[i] == (
            calls@[i].function->0.name@,
            calls@[i].function->0.arguments@,
        ));
        assert(wanted == last);
    }
    lemma_concat_contains(before, last, wanted);
}

/// The model that is shown with a turn is the one that was named last: that of the latest turn,
/// up to this one, whose message names a model. Without one no model is shown.
pub proof fn law_model_is_the_latest(
    history: Seq<ChatHistoryItem>,
    list: Seq<Turn>,
    k: int,
    m: int,
)
    requires
        -1 <= m <= k < list.len(),
        0 <= k,
        0 <= m ==> model_of_item(history[list[m].start]) is Some,
        forall|j: int|
            m < j <= k ==> model_of_item(history[(#[trigger] list[j]).start]) is None,
    ensures
        0 <= m ==> model_after(history, list.take(k + 1)) == model_of_item(
            history[list[m].start],
        ),
        m == -1 ==> model_after(history, list.take(k + 1)) is None,
    decreases k,
{
    let now = list.take(k + 1);
    assert(now.last() == list[k]);
    if m < k {
        assert(now.drop_last() =~= list.take(k));
        if k > 0 {
            law_model_is_the_latest(history, list, k - 1, m);
        } else {
            assert(list.take(0).len() == 0);
        }
    }
}

/// The tokens of a session are added up turn by turn, prompt and completion tokens each for
/// themselves. A message without token counts adds none and shows no sums.
pub proof fn law_tokens_add_up(history: Seq<ChatHistoryItem>, list: Seq<Turn>, k: int)
    requires
        0 <= k < list.len(),
    ensures
        prompt_sum(history, list.take(0)) == 0,
        completion_sum(history, list.take(0)) == 0,
        match history[list[k].start].message.usage {
            Some(usage) => {
                let prompt = prompt_sum(history, list.take(k)) + usage.prompt_tokens;
                let completion = completion_sum(history, list.take(k)) + usage.completion_tokens;
                &&& prompt_sum(history, list.take(k + 1)) == prompt
                &&& completion_sum(history, list.take(k + 1)) == completion
                &&& prompt <= u64::MAX && completion <= u64::MAX ==> running_sums(
                    history,
                    list.take(k + 1),
                ) == Some((prompt as u64, completion as u64))
            },
            None => {
                &&& prompt_sum(history, list.take(k + 1)) == prompt_sum(history, list.take(k))
                &&& completion_sum(history, list.take(k + 1)) == completion_sum(
                    history,
                    list.take(k),
                )
                &&& running_sums(history, list.take(k + 1)) is None
            },
        },
{
    assert(list.take(k + 1).drop_last() =~= list.take(k));
    assert(list.take(k + 1).last() == list[k]);
    assert(list.take(0).len() == 0);
}

/// An assistant message that calls tools takes all tool results that follow it into its turn.
/// Any other message is a turn of its own.
pub proof fn law_turns_take_all_results(history: Seq<ChatHistoryItem>, k: int)
    requires
        0 <= k < turns(history, system_prompt(history).1, 0).len(),
    ensures
        ({
            let turn = turns(history, system_prompt(history).1, 0)[k];
            let message = history[turn.start].message;
            if message.role@ == "assistant"@ && (message.tool_calls matches Some(calls)
                && calls@.len() > 0) {
                &&& forall|i: int|
                    turn.start < i < turn.end ==> (#[trigger] history[i]).message.role@ == "tool"@
                &&& turn.end < history.len() ==> history[turn.end].message.role@ != "tool"@
            } else {
                turn.end == turn.start + 1
            }
        }),
{
    reveal_strlit("system");
    reveal_strlit("tool");
    assert("system"@.len() != "tool"@.len());
    law_system_prompt_is_the_first_system_message(history);
    lemma_turns(history, system_prompt(history).1, 0);
    let turn = turns(history, system_prompt(history).1, 0)[k];
    lemma_results_end(history, turn.start + 1);
    lemma_results_stop(history, turn.start + 1);
}

proof fn lemma_results_stop(history: Seq<ChatHistoryItem>, start: int)
    requires
        0 <= start <= history.len(),
    ensures
        results_end(history, start) < history.len() ==> history[results_end(
            history,
            start,
        )].message.role@ != "tool"@,
    decreases history.len() - start,
{
    if start < history.len() && history[start].message.role@ == "tool"@ {
        lemma_results_stop(history, start + 1);
    }
}

proof fn lemma_count_front(
    history: Seq<ChatHistoryItem>,
    turn: Turn,
    rest: Seq<Turn>,
    role: Seq<char>,
)
    ensures
        count_role(history, seq![turn] + rest, role) == count_role(history, rest, role) + (
        if history[turn.start].message.role@ == role {
            1int
        } else {
            0
        }),
    decreases rest.len(),
{
    let all = seq![turn] + rest;
    if rest.len() == 0 {
        assert(all.drop_last() =~= rest);
    } else {
        lemma_count_front(history, turn, rest.drop_last(), role);
        assert(all.drop_last() =~= seq![turn] + rest.drop_last());
        assert(all.last() == rest.last());
    }
}

proof fn lemma_no_tools_counted(items: Seq<ChatHistoryItem>, role: Seq<char>)
    requires
        forall|i: int| 0 <= i < items.len() ==> (#[trigger] items[i]).message.role@ != role,
    ensures
        items.filter(|item: ChatHistoryItem| item.message.role@ == role).len() == 0,
    decreases items.len(),
{
    reveal(Seq::filter);
    if items.len() > 0 {
        assert(items[items.len() - 1].message.role@ != role);
        lemma_no_tools_counted(items.drop_last(), role);
    }
}

proof fn lemma_count_turns(
    history: Seq<ChatHistoryItem>,
    skip: Option<int>,
    start: int,
    role: Seq<char>,
)
    requires
        0 <= start <= history.len(),
        role != "tool"@,
        skip matches Some(k) ==> 0 <= k < history.len() && history[k].message.role@ != role,
    ensures
        count_role(history, turns(history, skip, start), role) == history.skip(start).filter(
            |item: ChatHistoryItem| item.message.role@ == role,
        ).len(),
    decreases history.len() - start,
{
    let is_role = |item: ChatHistoryItem| item.message.role@ == role;
    reveal(Seq::filter);
    if start >= history.len() {
        assert(history.skip(start).len() == 0);
    } else {
        let end = if skip == Some(start) {
            start + 1
        } else {
            turn_end(history, start)
        };
        lemma_results_end(history, start + 1);
        lemma_count_turns(history, skip, end, role);
        let first = seq![history[start]];
        let results = history.subrange(start + 1, end);
        let rest = history.skip(end);
        assert forall|i: int| 0 <= i < results.len() implies (
        #[trigger] results[i]).message.role@ != role by {
            assert(results[i] == history[start + 1 + i]);
        }
        lemma_no_tools_counted(results, role);
        assert(history.skip(start) =~= first + results + rest);
        Seq::filter_distributes_over_add(first + results, rest, is_role);
        Seq::filter_distributes_over_add(first, results, is_role);
        assert(first.drop_last() =~= Seq::empty());
        assert(first.drop_last().filter(is_role).len() == 0);
        if skip != Some(start) {
            lemma_count_front(
                history,
                Turn { start, end },
                turns(history, skip, end),
                role,
            );
        }
    }
}

/// The user messages and the assistant messages that are counted are those of the history.
pub proof fn law_messages_are_counted(history: Seq<ChatHistoryItem>, role: Seq<char>)
    requires
        role == "user"@ || role == "assistant"@,
    ensures
        count_role(history, turns(history, system_prompt(history).1, 0), role) == history.filter(
            |item: ChatHistoryItem| item.message.role@ == role,
        ).len(),
{
    reveal_strlit("user");
    reveal_strlit("assistant");
    reveal_strlit("tool");
    reveal_strlit("system");
    assert("user"@[0] == 'u' && "tool"@[0] == 't');
    assert("assistant"@.len() == 9);
    assert("system"@.len() == 6);
    law_system_prompt_is_the_first_system_message(history);
    assert(history.skip(0) =~= history);
    lemma_count_turns(history, system_prompt(history).1, 0, role);
}

/// A tool result that answers no message, and a message of any role but the assistant's, are
/// turns of their own. The model is shown with assistant messages only.
pub proof fn law_turns_are_rendered_by_role(
    history: Seq<ChatHistoryItem>,
    turn: Turn,
    running: Option<(u64, u64)>,
    model: Option<Seq<char>>,
)
    ensures
        ({
            let item = history[turn.start];
            let html = turn_html(history, turn, running, model);
            &&& item.message.role@ == "tool"@ ==> html == "<div class=\"message tool-result\">\n"@
                + tool_result_html(item, ""@, ""@) + "</div>\n"@
            &&& item.message.role@ != "tool"@ && item.message.role@ != "assistant"@ ==> html
                == message_html(item, running, None)
            &&& item.message.role@ == "assistant"@ && turn.end == turn.start + 1 ==> html
                == message_html(item, running, model)
        }),
{
    reveal_strlit("tool");
    reveal_strlit("assistant");
    assert("tool"@.len() != "assistant"@.len());
}

/// The turns of a session are rendered in order, each with the sums of tokens and the model up to
/// it.
pub proof fn law_turns_are_rendered_in_order(history: Seq<ChatHistoryItem>, list: Seq<Turn>)
    ensures
        turns_html(history, list) == concatenated(
            Seq::new(
                list.len(),
                |k: int|
                    turn_html(
                        history,
                        list[k],
                        running_sums(history, list.take(k + 1)),
                        model_after(history, list.take(k + 1)),
                    ),
            ),
        ),
    decreases list.len(),
{
    let shown = |k: int|
        turn_html(
            history,
            list[k],
            running_sums(history, list.take(k + 1)),
            model_after(history, list.take(k + 1)),
        );
    let all = Seq::new(list.len(), shown);
    if list.len() == 0 {
        reveal_strlit("");
        assert(turns_html(history, list) =~= concatenated(all));
    } else {
        let n = list.len() - 1;
        let start = list.drop_last();
        law_turns_are_rendered_in_order(history, start);
        let before = Seq::new(
            start.len(),
            |k: int|
                turn_html(
                    history,
                    start[k],
                    running_sums(history, start.take(k + 1)),
                    model_after(history, start.take(k + 1)),
                ),
        );
        assert forall|k: int| 0 <= k < n implies before[k] == all[k] by {
            assert(start.take(k + 1) =~= list.take(k + 1));
        }
        assert(list.take(n + 1) =~= list);
        lemma_concatenated_push(before, all[n]);
        assert(all =~= before.push(all[n]));
    }
}

} // verus!
