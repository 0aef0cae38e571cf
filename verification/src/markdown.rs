//! Markdown as HTML, with syntax-highlighted code blocks.
use crate::highlight::{highlight_code, highlighted, restyle, restyled};
use crate::html::{escaped, push_escaped, wrap_text};
use crate::text::{concatenated, contains_text, lemma_concat_contains};
use pulldown_cmark::{CodeBlockKind, Event, Options, Parser, Tag, TagEnd};
use vstd::prelude::*;

verus! {

/// A Markdown event, as far as code blocks are concerned: the start of a fenced
/// block with its info string or of an indented one, the end of a block, a text,
/// or any other event.
pub enum MarkdownEvent {
    FencedStart(String),
    IndentedStart,
    CodeEnd,
    Text(String),
    Other,
}

/// The model of a `MarkdownEvent`.
pub enum EventView {
    FencedStart(Seq<char>),
    IndentedStart,
    CodeEnd,
    Text(Seq<char>),
    Other,
}

impl View for MarkdownEvent {
    type V = EventView;

    open spec fn view(&self) -> EventView {
        match *self {
            MarkdownEvent::FencedStart(info) => EventView::FencedStart(info@),
            MarkdownEvent::IndentedStart => EventView::IndentedStart,
            MarkdownEvent::CodeEnd => EventView::CodeEnd,
            MarkdownEvent::Text(text) => EventView::Text(text@),
            MarkdownEvent::Other => EventView::Other,
        }
    }
}

/// The model of a list of events.
pub open spec fn event_views(events: Seq<MarkdownEvent>) -> Seq<EventView> {
    events.map_values(|e: MarkdownEvent| e@)
}

/// The events that `pulldown_cmark::Parser` gives for a text. The flags say which
/// extensions are on: tables, strikethrough, task lists.
pub uninterp spec fn markdown_events(
    md: Seq<char>,
    tables: bool,
    strikethrough: bool,
    task_lists: bool,
) -> Seq<EventView>;

/// `pulldown_cmark::Parser::new_ext` splits a Markdown text into events.
#[verifier::external_body]
fn parse_markdown(
    md: &str,
    tables: bool,
    strikethrough: bool,
    task_lists: bool,
) -> (r: Vec<MarkdownEvent>)
    ensures
        event_views(r@) == markdown_events(md@, tables, strikethrough, task_lists),
{
    let mut options = Options::empty();
    options.set(Options::ENABLE_TABLES, tables);
    options.set(Options::ENABLE_STRIKETHROUGH, strikethrough);
    options.set(Options::ENABLE_TASKLISTS, task_lists);
    Parser::new_ext(md, options).map(|event| match event {
        Event::Start(Tag::CodeBlock(CodeBlockKind::Fenced(info))) =>
            MarkdownEvent::FencedStart(info.to_string()),
        Event::Start(Tag::CodeBlock(CodeBlockKind::Indented)) => MarkdownEvent::IndentedStart,
        Event::End(TagEnd::CodeBlock) => MarkdownEvent::CodeEnd,
        Event::Text(text) => MarkdownEvent::Text(text.to_string()),
        _ => MarkdownEvent::Other,
    }).collect()
}

/// The HTML that `pulldown_cmark::html::push_html` writes for a run of the events of a
/// Markdown text: `count` events, or as many as there are, behind the first `from`. The flags
/// say which extensions are on: tables, strikethrough, task lists.
pub uninterp spec fn markdown_run(
    md: Seq<char>,
    tables: bool,
    strikethrough: bool,
    task_lists: bool,
    from: int,
    count: int,
) -> Seq<char>;

/// `pulldown_cmark::html::push_html` writes a run of the events of a Markdown text as HTML.
#[verifier::external_body]
fn write_run(
    md: &str,
    tables: bool,
    strikethrough: bool,
    task_lists: bool,
    from: usize,
    count: usize,
) -> (r: String)
    ensures
        r@ == markdown_run(md@, tables, strikethrough, task_lists, from as int, count as int),
{
    let mut options = Options::empty();
    options.set(Options::ENABLE_TABLES, tables);
    options.set(Options::ENABLE_STRIKETHROUGH, strikethrough);
    options.set(Options::ENABLE_TASKLISTS, task_lists);
    let mut html = String::new();
    pulldown_cmark::html::push_html(&mut html, Parser::new_ext(md, options).skip(from).take(count));
    html
}

/// A code block: highlighted if its language is known, else escaped.
pub open spec fn code_block_html(lang: Seq<char>, code: Seq<char>) -> Seq<char> {
    if lang.len() == 0 {
        "<pre><code>"@ + escaped(code) + "</code></pre>"@
    } else {
        match highlighted(lang, code) {
            Some(html) => restyled(html, "class=\"highlighted-code\""@),
            None => "<pre><code class=\"language-"@ + escaped(lang) + "\">"@ + escaped(code)
                + "</code></pre>"@,
        }
    }
}

/// Renders a code block.
fn render_code_block(lang: &str, code: &str) -> (r: String)
    ensures
        r@ == code_block_html(lang@, code@),
{
    if lang.is_empty() {
        return wrap_text("<pre><code>", code, "</code></pre>");
    }
    match highlight_code(lang, code) {
        Some(html) => restyle(html, "class=\"highlighted-code\""),
        None => {
            let mut r = wrap_text("<pre><code class=\"language-", lang, "\">");
            push_escaped(&mut r, code);
            r.push_str("</code></pre>");
            r
        },
    }
}

/// A part of a Markdown text: a run of its events, or the HTML of a code block.
pub enum Part {
    Run { from: usize, count: usize },
    Block(String),
}

/// The model of a `Part`.
pub enum PartView {
    Run { from: int, count: int },
    Block(Seq<char>),
}

impl View for Part {
    type V = PartView;

    open spec fn view(&self) -> PartView {
        match *self {
            Part::Run { from, count } => PartView::Run { from: from as int, count: count as int },
            Part::Block(html) => PartView::Block(html@),
        }
    }
}

/// The model of a list of parts.
pub open spec fn part_views(parts: Seq<Part>) -> Seq<PartView> {
    parts.map_values(|p: Part| p@)
}

/// The run of the events from `from` up to `to`. Without events there is none.
pub open spec fn run_part(from: int, to: int) -> Seq<PartView> {
    if from < to {
        seq![PartView::Run { from, count: to - from }]
    } else {
        Seq::empty()
    }
}

/// The parts of a list of events. A code block is a part of its own, which stands for all of
/// its events; the events between code blocks are runs.
///
/// The parts are those of the run that begins at `from` and of the events from `i` on.
/// `in_code` says whether a code block is open; `lang` and `code` are the language and the
/// text of the latest one so far.
pub open spec fn parts_of(
    events: Seq<EventView>,
    i: int,
    from: int,
    in_code: bool,
    lang: Seq<char>,
    code: Seq<char>,
) -> Seq<PartView>
    decreases events.len() - i,
{
    if i < 0 || i >= events.len() {
        run_part(from, i)
    } else {
        match events[i] {
            EventView::FencedStart(info) => run_part(from, i) + parts_of(
                events,
                i + 1,
                i + 1,
                true,
                info,
                ""@,
            ),
            EventView::IndentedStart => run_part(from, i) + parts_of(
                events,
                i + 1,
                i + 1,
                true,
                ""@,
                ""@,
            ),
            EventView::CodeEnd => run_part(from, i) + seq![
                PartView::Block(code_block_html(lang, code)),
            ] + parts_of(events, i + 1, i + 1, false, lang, code),
            EventView::Text(text) => if in_code {
                run_part(from, i) + parts_of(events, i + 1, i + 1, in_code, lang, code + text)
            } else {
                parts_of(events, i + 1, from, in_code, lang, code)
            },
            EventView::Other => parts_of(events, i + 1, from, in_code, lang, code),
        }
    }
}

/// The parts of a list of events, from its beginning.
pub open spec fn all_parts(events: Seq<EventView>) -> Seq<PartView> {
    parts_of(events, 0, 0, false, ""@, ""@)
}

/// Appends the run of the events from `from` up to `to`.
fn push_run(parts: &mut Vec<Part>, from: usize, to: usize)
    ensures
        part_views(final(parts)@) == part_views(old(parts)@) + run_part(from as int, to as int),
{
    if from < to {
        let part = Part::Run { from, count: to - from };
        assert(part_views(parts@.push(part)) =~= part_views(parts@) + run_part(
            from as int,
            to as int,
        ));
        parts.push(part);
    } else {
        assert(part_views(parts@) + run_part(from as int, to as int) =~= part_views(parts@));
    }
}

/// Appends the HTML of a code block.
fn push_block(parts: &mut Vec<Part>, html: String)
    ensures
        part_views(final(parts)@) == part_views(old(parts)@) + seq![PartView::Block(html@)],
{
    let part = Part::Block(html);
    assert(part_views(parts@.push(part)) =~= part_views(parts@) + seq![PartView::Block(html@)]);
    parts.push(part);
}

/// Cuts a list of events at its code blocks, and renders those.
pub fn cut_at_code_blocks(events: &Vec<MarkdownEvent>) -> (r: Vec<Part>)
    ensures
        part_views(r@) == all_parts(event_views(events@)),
{
    let ghost all = event_views(events@);
    let ghost result = all_parts(all);
    let mut parts: Vec<Part> = Vec::new();
    let mut from: usize = 0;
    let mut in_code = false;
    let mut lang = "".to_string();
    let mut code = "".to_string();
    let mut i: usize = 0;
    assert(part_views(parts@) + result =~= result);
    while i < events.len()
        invariant
            all == event_views(events@),
            i <= events.len(),
            part_views(parts@) + parts_of(all, i as int, from as int, in_code, lang@, code@)
                == result,
        decreases events.len() - i,
    {
        let ghost before = part_views(parts@);
        let ghost run = run_part(from as int, i as int);
        assert(all[i as int] == events@[i as int]@);
        let next: usize = i + 1;
        match &events[i] {
            MarkdownEvent::FencedStart(info) => {
                push_run(&mut parts, from, i);
                from = next;
                in_code = true;
                lang = info.clone();
                code = "".to_string();
            },
            MarkdownEvent::IndentedStart => {
                push_run(&mut parts, from, i);
                from = next;
                in_code = true;
                lang = "".to_string();
                code = "".to_string();
            },
            MarkdownEvent::CodeEnd => {
                push_run(&mut parts, from, i);
                push_block(&mut parts, render_code_block(lang.as_str(), code.as_str()));
                from = next;
                in_code = false;
            },
            MarkdownEvent::Text(text) => {
                if in_code {
                    push_run(&mut parts, from, i);
                    from = next;
                    code.push_str(text.as_str());
                }
            },
            MarkdownEvent::Other => {},
        }
        i = next;
        let ghost rest = parts_of(all, i as int, from as int, in_code, lang@, code@);
        let ghost cut = run + seq![PartView::Block(code_block_html(lang@, code@))];
        assert(before + run + rest =~= before + (run + rest));
        assert(before + run + seq![PartView::Block(code_block_html(lang@, code@))] + rest
            =~= before + (cut + rest));
    }
    push_run(&mut parts, from, i);
    parts
}

/// The HTML of a part of a Markdown text with tables, strikethrough and task lists.
pub open spec fn part_html(md: Seq<char>, part: PartView) -> Seq<char> {
    match part {
        PartView::Run { from, count } => markdown_run(md, true, true, true, from, count),
        PartView::Block(html) => html,
    }
}

/// The HTML of parts of a Markdown text, one after the other.
pub open spec fn parts_html(md: Seq<char>, parts: Seq<PartView>) -> Seq<char>
    decreases parts.len(),
{
    if parts.len() == 0 {
        Seq::empty()
    } else {
        parts_html(md, parts.drop_last()) + part_html(md, parts.last())
    }
}

/// The parts of a Markdown text with tables, strikethrough and task lists.
pub open spec fn markdown_parts(md: Seq<char>) -> Seq<PartView> {
    all_parts(markdown_events(md, true, true, true))
}

/// The HTML of a Markdown text with tables, strikethrough and task lists: its code blocks,
/// highlighted, and what stands between them.
pub open spec fn markdown_html(md: Seq<char>) -> Seq<char> {
    parts_html(md, markdown_parts(md))
}

/// Renders Markdown as HTML.
pub fn markdown_to_html(md: &str) -> (r: String)
    ensures
        r@ == markdown_html(md@),
{
    let events = parse_markdown(md, true, true, true);
    let parts = cut_at_code_blocks(&events);
    let ghost all = part_views(parts@);
    let mut r = String::new();
    let mut i: usize = 0;
    assert(all.take(0) =~= Seq::empty());
    while i < parts.len()
        invariant
            all == part_views(parts@),
            i <= parts.len(),
            r@ == parts_html(md@, all.take(i as int)),
        decreases parts.len() - i,
    {
        assert(all.take(i + 1).drop_last() =~= all.take(i as int));
        assert(all[i as int] == parts@[i as int]@);
        match &parts[i] {
            Part::Run { from, count } => {
                r.push_str(write_run(md, true, true, true, *from, *count).as_str());
            },
            Part::Block(html) => {
                r.push_str(html.as_str());
            },
        }
        i = i + 1;
    }
    assert(all.take(i as int) =~= all);
    r
}

/// Every part of a Markdown text, a code block in particular, is in its HTML.
pub proof fn law_every_part_is_shown(md: Seq<char>, parts: Seq<PartView>, k: int)
    requires
        0 <= k < parts.len(),
    ensures
        contains_text(parts_html(md, parts), part_html(md, parts[k])),
    decreases parts.len(),
{
    if k < parts.len() - 1 {
        law_every_part_is_shown(md, parts.drop_last(), k);
    }
    lemma_concat_contains(
        parts_html(md, parts.drop_last()),
        part_html(md, parts.last()),
        part_html(md, parts[k]),
    );
}

proof fn lemma_open_block(
    events: Seq<EventView>,
    texts: Seq<Seq<char>>,
    i: int,
    lang: Seq<char>,
    code: Seq<char>,
)
    requires
        0 <= i,
        i + texts.len() < events.len(),
        forall|k: int|
            0 <= k < texts.len() ==> events[i + k] == EventView::Text(#[trigger] texts[k]),
        events[i + texts.len()] == EventView::CodeEnd,
    ensures
        parts_of(events, i, i, true, lang, code) == seq![
            PartView::Block(code_block_html(lang, code + concatenated(texts))),
        ] + parts_of(
            events,
            i + texts.len() + 1,
            i + texts.len() + 1,
            false,
            lang,
            code + concatenated(texts),
        ),
    decreases texts.len(),
{
    let whole = code + concatenated(texts);
    let block = seq![PartView::Block(code_block_html(lang, whole))];
    if texts.len() == 0 {
        assert(whole =~= code);
        assert(run_part(i, i) + block =~= block);
    } else {
        let rest = texts.skip(1);
        assert(events[i + 0] == EventView::Text(texts[0]));
        assert forall|k: int| 0 <= k < rest.len() implies events[i + 1 + k] == EventView::Text(
            #[trigger] rest[k],
        ) by {
            assert(rest[k] == texts[k + 1]);
            assert(events[i + (k + 1)] == EventView::Text(texts[k + 1]));
        }
        lemma_open_block(events, rest, i + 1, lang, code + texts[0]);
        assert(code + texts[0] + concatenated(rest) =~= whole);
        let after = parts_of(events, i + 1, i + 1, true, lang, code + texts[0]);
        assert(run_part(i, i) + after =~= after);
    }
}

/// A fenced code block is one part with all of its text, behind what stands before it.
pub proof fn law_code_block_is_one_part(
    events: Seq<EventView>,
    info: Seq<char>,
    texts: Seq<Seq<char>>,
    i: int,
    from: int,
    lang: Seq<char>,
    code: Seq<char>,
)
    requires
        0 <= i,
        i + texts.len() + 1 < events.len(),
        events[i] == EventView::FencedStart(info),
        forall|k: int|
            0 <= k < texts.len() ==> events[i + 1 + k] == EventView::Text(#[trigger] texts[k]),
        events[i + 1 + texts.len()] == EventView::CodeEnd,
    ensures
        parts_of(events, i, from, false, lang, code) == run_part(from, i) + (seq![
            PartView::Block(code_block_html(info, concatenated(texts))),
        ] + parts_of(
            events,
            i + texts.len() + 2,
            i + texts.len() + 2,
            false,
            info,
            concatenated(texts),
        )),
{
    lemma_open_block(events, texts, i + 1, info, ""@);
    reveal_strlit("");
    assert(""@ + concatenated(texts) =~= concatenated(texts));
}

/// Whether a part is a run that holds the event `j`.
pub open spec fn holds_event(part: PartView, j: int) -> bool {
    part matches PartView::Run { from, count } && from <= j < from + count
}

/// Whether a code block is open before the event `j`.
pub open spec fn is_code_open(events: Seq<EventView>, j: int) -> bool
    decreases j,
{
    if j <= 0 {
        false
    } else {
        match events[j - 1] {
            EventView::FencedStart(_) => true,
            EventView::IndentedStart => true,
            EventView::CodeEnd => false,
            _ => is_code_open(events, j - 1),
        }
    }
}

/// Whether the event `j` is none of a code block's start, end and texts.
pub open spec fn is_outside_code(events: Seq<EventView>, j: int) -> bool {
    match events[j] {
        EventView::Text(_) => !is_code_open(events, j),
        EventView::Other => true,
        _ => false,
    }
}

/// Whether the runs among parts hold, of the events from `from` on, exactly those outside of
/// code blocks.
pub open spec fn covers(parts: Seq<PartView>, events: Seq<EventView>, from: int) -> bool {
    &&& forall|j: int|
        from <= j < events.len() && #[trigger] is_outside_code(events, j) ==> exists|k: int|
            0 <= k < parts.len() && holds_event(#[trigger] parts[k], j)
    &&& forall|k: int, j: int|
        0 <= k < parts.len() && #[trigger] holds_event(parts[k], j) ==> from <= j < events.len()
            && is_outside_code(events, j)
}

proof fn lemma_run_covers(
    parts: Seq<PartView>,
    rest: Seq<PartView>,
    events: Seq<EventView>,
    from: int,
    i: int,
)
    requires
        0 <= from <= i < events.len(),
        parts == run_part(from, i) + rest,
        forall|j: int| from <= j < i ==> #[trigger] is_outside_code(events, j),
        !is_outside_code(events, i),
        covers(rest, events, i + 1),
    ensures
        covers(parts, events, from),
{
    let n = run_part(from, i).len();
    assert(forall|k: int| n <= k < parts.len() ==> #[trigger] parts[k] == rest[k - n]);
    assert forall|j: int| from <= j < events.len() && #[trigger] is_outside_code(
        events,
        j,
    ) implies exists|k: int| 0 <= k < parts.len() && holds_event(#[trigger] parts[k], j) by {
        if j < i {
            assert(holds_event(parts[0], j));
        } else {
            let k = choose|k: int| 0 <= k < rest.len() && holds_event(#[trigger] rest[k], j);
            assert(parts[k + n] == rest[k]);
        }
    }
    assert forall|k: int, j: int| 0 <= k < parts.len() && #[trigger] holds_event(
        parts[k],
        j,
    ) implies from <= j < events.len() && is_outside_code(events, j) by {
        if k >= n {
            assert(holds_event(rest[k - n], j));
        }
    }
}

proof fn lemma_parts_cover(
    events: Seq<EventView>,
    i: int,
    from: int,
    in_code: bool,
    lang: Seq<char>,
    code: Seq<char>,
)
    requires
        0 <= from <= i <= events.len(),
        in_code == is_code_open(events, i),
        forall|j: int| from <= j < i ==> #[trigger] is_outside_code(events, j),
    ensures
        covers(parts_of(events, i, from, in_code, lang, code), events, from),
    decreases events.len() - i,
{
    let parts = parts_of(events, i, from, in_code, lang, code);
    if i >= events.len() {
        assert forall|j: int| from <= j < events.len() && #[trigger] is_outside_code(
            events,
            j,
        ) implies exists|k: int| 0 <= k < parts.len() && holds_event(#[trigger] parts[k], j) by {
            assert(holds_event(parts[0], j));
        }
    } else {
        match events[i] {
            EventView::FencedStart(info) => {
                lemma_parts_cover(events, i + 1, i + 1, true, info, ""@);
                lemma_run_covers(
                    parts,
                    parts_of(events, i + 1, i + 1, true, info, ""@),
                    events,
                    from,
                    i,
                );
            },
            EventView::IndentedStart => {
                lemma_parts_cover(events, i + 1, i + 1, true, ""@, ""@);
                lemma_run_covers(
                    parts,
                    parts_of(events, i + 1, i + 1, true, ""@, ""@),
                    events,
                    from,
                    i,
                );
            },
            EventView::CodeEnd => {
                let after = parts_of(events, i + 1, i + 1, false, lang, code);
                let block = seq![PartView::Block(code_block_html(lang, code))];
                let rest = block + after;
                lemma_parts_cover(events, i + 1, i + 1, false, lang, code);
                assert(forall|k: int| 1 <= k < rest.len() ==> #[trigger] rest[k] == after[k - 1]);
                assert forall|j: int| i + 1 <= j < events.len() && #[trigger] is_outside_code(
                    events,
                    j,
                ) implies exists|k: int|
                    0 <= k < rest.len() && holds_event(#[trigger] rest[k], j) by {
                    let k = choose|k: int|
                        0 <= k < after.len() && holds_event(#[trigger] after[k], j);
                    assert(rest[k + 1] == after[k]);
                }
                assert forall|k: int, j: int| 0 <= k < rest.len() && #[trigger] holds_event(
                    rest[k],
                    j,
                ) implies i + 1 <= j < events.len() && is_outside_code(events, j) by {
                    assert(holds_event(after[k - 1], j));
                }
                assert(parts =~= run_part(from, i) + rest);
                lemma_run_covers(parts, rest, events, from, i);
            },
            EventView::Text(text) => {
                if in_code {
                    lemma_parts_cover(events, i + 1, i + 1, in_code, lang, code + text);
                    lemma_run_covers(
                        parts,
                        parts_of(events, i + 1, i + 1, in_code, lang, code + text),
                        events,
                        from,
                        i,
                    );
                } else {
                    lemma_parts_cover(events, i + 1, from, in_code, lang, code);
                }
            },
            EventView::Other => {
                lemma_parts_cover(events, i + 1, from, in_code, lang, code);
            },
        }
    }
}

/// Nothing is lost beside code blocks, and nothing of them is written twice: the runs hold
/// exactly the events outside of code blocks.
pub proof fn law_runs_hold_what_is_not_code(events: Seq<EventView>)
    ensures
        covers(all_parts(events), events, 0),
{
    lemma_parts_cover(events, 0, 0, false, ""@, ""@);
}

/// A code block without a language is escaped. One in a language that is known is highlighted, with
/// a class in place of its style, and one in a language that is not known is escaped and
/// names it.
pub proof fn law_code_blocks_are_rendered(lang: Seq<char>, code: Seq<char>)
    ensures
        code_block_html(Seq::empty(), code) == "<pre><code>"@ + escaped(code) + "</code></pre>"@,
        lang.len() > 0 && highlighted(lang, code) is Some ==> code_block_html(lang, code)
            == restyled(highlighted(lang, code)->0, "class=\"highlighted-code\""@),
        lang.len() > 0 && highlighted(lang, code) is None ==> code_block_html(lang, code)
            == "<pre><code class=\"language-"@ + escaped(lang) + "\">"@ + escaped(code)
            + "</code></pre>"@,
{
}

/// A Markdown text with one code block, and texts around it, is rendered as the run of events
/// before the block, the block, and the run of events behind it. The text is read with tables,
/// strikethrough and task lists.
pub proof fn law_block_stands_between_its_runs(
    md: Seq<char>,
    before: Seq<EventView>,
    info: Seq<char>,
    texts: Seq<Seq<char>>,
    after: Seq<EventView>,
)
    requires
        forall|i: int|
            0 <= i < before.len() ==> (#[trigger] before[i] is Other || before[i] is Text),
        forall|i: int|
            0 <= i < after.len() ==> (#[trigger] after[i] is Other || after[i] is Text),
        before.len() > 0,
        after.len() > 0,
        markdown_events(md, true, true, true) == before + seq![EventView::FencedStart(info)]
            + texts.map_values(|text: Seq<char>| EventView::Text(text)) + seq![EventView::CodeEnd]
            + after,
    ensures
        markdown_html(md) == markdown_run(md, true, true, true, 0, before.len() as int)
            + code_block_html(info, concatenated(texts)) + markdown_run(
            md,
            true,
            true,
            true,
            (before.len() + texts.len() + 2) as int,
            after.len() as int,
        ),
{
    let events = markdown_events(md, true, true, true);
    let n = before.len() as int;
    let m = n + texts.len() + 2;
    assert forall|i: int| 0 <= i < n implies (#[trigger] events[i] is Other || events[i]
        is Text) by {
        assert(events[i] == before[i]);
    }
    lemma_plain_events(events, 0, 0, n, ""@, ""@);
    assert(events[n] == EventView::FencedStart(info));
    assert forall|k: int| 0 <= k < texts.len() implies events[n + 1 + k] == EventView::Text(
        #[trigger] texts[k],
    ) by {}
    assert(events[n + 1 + texts.len()] == EventView::CodeEnd);
    law_code_block_is_one_part(events, info, texts, n, 0, ""@, ""@);
    assert forall|i: int| m <= i < events.len() implies (#[trigger] events[i] is Other
        || events[i] is Text) by {
        assert(events[i] == after[i - m]);
    }
    let code = concatenated(texts);
    lemma_plain_events(events, m, m, events.len() as int, info, code);
    let block = PartView::Block(code_block_html(info, code));
    let run = PartView::Run { from: 0, count: n };
    let last = PartView::Run { from: m, count: after.len() as int };
    let parts = markdown_parts(md);
    assert(parts =~= seq![run, block, last]);
    assert(parts.drop_last() =~= seq![run, block]);
    assert(parts.drop_last().drop_last() =~= seq![run]);
    assert(parts.drop_last().drop_last().drop_last() =~= Seq::empty());
    assert(parts_html(md, Seq::empty()) =~= Seq::empty());
    assert(parts_html(md, seq![run]) =~= part_html(md, run));
    assert(parts_html(md, seq![run, block]) == part_html(md, run) + part_html(md, block));
    assert(parts_html(md, parts) == part_html(md, run) + part_html(md, block) + part_html(
        md,
        last,
    ));
}

proof fn lemma_plain_events(
    events: Seq<EventView>,
    i: int,
    from: int,
    end: int,
    lang: Seq<char>,
    code: Seq<char>,
)
    requires
        0 <= from <= i <= end <= events.len(),
        forall|k: int|
            i <= k < end ==> (#[trigger] events[k] is Other || events[k] is Text),
    ensures
        parts_of(events, i, from, false, lang, code) == parts_of(
            events,
            end,
            from,
            false,
            lang,
            code,
        ),
    decreases end - i,
{
    if i < end {
        assert(events[i] is Other || events[i] is Text);
        lemma_plain_events(events, i + 1, from, end, lang, code);
    }
}

/// An indented code block is one part with all of its text, behind what stands before it. It has no
/// language.
pub proof fn law_indented_block_is_one_part(
    events: Seq<EventView>,
    texts: Seq<Seq<char>>,
    i: int,
    from: int,
    lang: Seq<char>,
    code: Seq<char>,
)
    requires
        0 <= i,
        i + texts.len() + 1 < events.len(),
        events[i] == EventView::IndentedStart,
        forall|k: int|
            0 <= k < texts.len() ==> events[i + 1 + k] == EventView::Text(#[trigger] texts[k]),
        events[i + 1 + texts.len()] == EventView::CodeEnd,
    ensures
        parts_of(events, i, from, false, lang, code) == run_part(from, i) + (seq![
            PartView::Block("<pre><code>"@ + escaped(concatenated(texts)) + "</code></pre>"@),
        ] + parts_of(
            events,
            i + texts.len() + 2,
            i + texts.len() + 2,
            false,
            ""@,
            concatenated(texts),
        )),
{
    lemma_open_block(events, texts, i + 1, ""@, ""@);
    reveal_strlit("");
    assert(""@ + concatenated(texts) =~= concatenated(texts));
    assert(""@.len() == 0);
}

} // verus!
