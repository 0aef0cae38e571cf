//! The arguments of a tool call, shown in a readable form rather than as raw JSON.
use crate::html::{escaped, push_escaped, wrap_text};
use crate::json::{
    indented_json, json_node, member_views, pretty_json, read_json, JsonNode, JsonView,
};
use crate::paths::{decode_path, display_path, is_path_key, names_path};
use crate::text::{
    byte_len, concatenated, contains_text, has_char, lemma_concat_contains,
    lemma_concatenated_push, lemma_part_contains, lines, lines_of, opt_view, same_text,
    text_byte_len, views,
};
use vstd::prelude::*;

verus! {

/// The value of an argument. A number is held in JSON notation; arrays, objects
/// and null are not told apart.
pub enum ArgValue {
    Text(String),
    Number(String),
    Bool(bool),
    Compound,
}

/// The model of an `ArgValue`.
pub enum ArgView {
    Text(Seq<char>),
    Number(Seq<char>),
    Bool(bool),
    Compound,
}

impl View for ArgValue {
    type V = ArgView;

    open spec fn view(&self) -> ArgView {
        match *self {
            ArgValue::Text(s) => ArgView::Text(s@),
            ArgValue::Number(n) => ArgView::Number(n@),
            ArgValue::Bool(b) => ArgView::Bool(b),
            ArgValue::Compound => ArgView::Compound,
        }
    }
}

/// The model of a list of named arguments.
pub open spec fn args_view(args: Seq<(String, ArgValue)>) -> Seq<(Seq<char>, ArgView)> {
    args.map_values(|a: (String, ArgValue)| (a.0@, a.1@))
}

/// What the argument text of a tool call is: not JSON at all, an object with
/// named arguments, or another JSON value.
pub enum Arguments {
    NotJson,
    Named(Vec<(String, ArgValue)>),
    Other,
}

/// The model of `Arguments`.
pub enum ArgumentsView {
    NotJson,
    Named(Seq<(Seq<char>, ArgView)>),
    Other,
}

impl View for Arguments {
    type V = ArgumentsView;

    open spec fn view(&self) -> ArgumentsView {
        match *self {
            Arguments::NotJson => ArgumentsView::NotJson,
            Arguments::Named(args) => ArgumentsView::Named(args_view(args@)),
            Arguments::Other => ArgumentsView::Other,
        }
    }
}

/// The argument value that a JSON text stands for.
pub open spec fn arg_of(text: Seq<char>) -> ArgView {
    match json_node(text) {
        Some(JsonView::Text(s)) => ArgView::Text(s),
        Some(JsonView::Number(_)) => ArgView::Number(text),
        Some(JsonView::Bool(b)) => ArgView::Bool(b),
        _ => ArgView::Compound,
    }
}

/// The argument values that an object's members stand for.
pub open spec fn args_of(members: Seq<(Seq<char>, Seq<char>)>) -> Seq<(Seq<char>, ArgView)> {
    members.map_values(|m: (Seq<char>, Seq<char>)| (m.0, arg_of(m.1)))
}

/// The arguments that the argument text of a tool call stands for.
pub open spec fn arguments_of(text: Seq<char>) -> ArgumentsView {
    match json_node(text) {
        None => ArgumentsView::NotJson,
        Some(JsonView::Object(members)) => ArgumentsView::Named(args_of(members)),
        Some(_) => ArgumentsView::Other,
    }
}

/// Reads the value of one argument.
fn read_arg(text: String) -> (r: ArgValue)
    ensures
        r@ == arg_of(text@),
{
    match read_json(text.as_str()) {
        Some(JsonNode::Text(s)) => ArgValue::Text(s),
        Some(JsonNode::Number(_)) => ArgValue::Number(text),
        Some(JsonNode::Bool(b)) => ArgValue::Bool(b),
        _ => ArgValue::Compound,
    }
}

/// Reads the argument text of a tool call.
pub fn read_arguments(text: &str) -> (r: Arguments)
    ensures
        r@ == arguments_of(text@),
{
    match read_json(text) {
        None => Arguments::NotJson,
        Some(JsonNode::Object(members)) => {
            let ghost all = args_of(member_views(members@));
            let mut args: Vec<(String, ArgValue)> = Vec::new();
            let mut i: usize = 0;
            while i < members.len()
                invariant
                    all == args_of(member_views(members@)),
                    i <= members.len(),
                    args_view(args@) == all.take(i as int),
                decreases members.len() - i,
            {
                let key = members[i].0.clone();
                let value = read_arg(members[i].1.clone());
                let ghost before = args@;
                let ghost added = (key@, value@);
                args.push((key, value));
                assert(args_view(args@) =~= args_view(before).push(added));
                assert(member_views(members@)[i as int] == (
                    members@[i as int].0@,
                    members@[i as int].1@,
                ));
                assert(all.take(i + 1) =~= all.take(i as int).push(added));
                i = i + 1;
            }
            assert(all.take(i as int) =~= all);
            Arguments::Named(args)
        },
        Some(_) => Arguments::Other,
    }
}

/// The first argument named `key`.
pub open spec fn arg_named(args: Seq<(Seq<char>, ArgView)>, key: Seq<char>) -> Option<ArgView>
    decreases args.len(),
{
    if args.len() == 0 {
        None
    } else if args[0].0 == key {
        Some(args[0].1)
    } else {
        arg_named(args.skip(1), key)
    }
}

/// The text of the argument named `key`, or nothing if it is no text.
pub open spec fn text_arg(args: Seq<(Seq<char>, ArgView)>, key: Seq<char>) -> Seq<char> {
    match arg_named(args, key) {
        Some(ArgView::Text(s)) => s,
        _ => ""@,
    }
}

/// The first argument named `key`.
fn find_arg<'a>(args: &'a Vec<(String, ArgValue)>, key: &str) -> (r: Option<&'a ArgValue>)
    ensures
        match r {
            Some(value) => arg_named(args_view(args@), key@) == Some(value@),
            None => arg_named(args_view(args@), key@) is None,
        },
{
    let ghost all = args_view(args@);
    let mut i: usize = 0;
    assert(all.skip(0) =~= all);
    while i < args.len()
        invariant
            all == args_view(args@),
            i <= args.len(),
            arg_named(all, key@) == arg_named(all.skip(i as int), key@),
        decreases args.len() - i,
    {
        assert(all.skip(i as int)[0] == (args@[i as int].0@, args@[i as int].1@));
        if same_text(args[i].0.as_str(), key) {
            return Some(&args[i].1);
        }
        assert(all.skip(i as int).skip(1) =~= all.skip(i + 1));
        i = i + 1;
    }
    None
}

/// The text of the argument named `key`, or nothing if it is no text.
fn find_text_arg<'a>(args: &'a Vec<(String, ArgValue)>, key: &str) -> (r: &'a str)
    ensures
        r@ == text_arg(args_view(args@), key@),
{
    match find_arg(args, key) {
        Some(ArgValue::Text(s)) => s.as_str(),
        _ => "",
    }
}

/// A text argument for display: paths are decoded.
pub open spec fn shown_value(key: Seq<char>, s: Seq<char>) -> Seq<char> {
    if names_path(key) {
        display_path(s)
    } else {
        s
    }
}

/// A text argument for display.
fn show_value(key: &str, s: &str) -> (r: String)
    ensures
        r@ == shown_value(key@, s@),
{
    if is_path_key(key) {
        decode_path(s)
    } else {
        s.to_string()
    }
}

/// A text in a code block.
pub open spec fn args_block(text: Seq<char>) -> Seq<char> {
    "<pre class=\"tool-args\"><code>"@ + escaped(text) + "</code></pre>"@
}

/// The only argument of a call: a command line, or a name and a value.
pub open spec fn single_arg_html(name: Seq<char>, key: Seq<char>, s: Seq<char>) -> Seq<char> {
    if name == "Bash"@ || key == "command"@ {
        "<pre class=\"tool-args tool-args-bare\"><code><span class=\"tool-prompt\">$</span> "@
            + escaped(s) + "</code></pre>"@
    } else {
        "<div class=\"tool-args-kv\"><span class=\"tool-arg-key\">"@ + escaped(key)
            + "</span>: <code>"@ + escaped(shown_value(key, s)) + "</code></div>"@
    }
}

/// Renders the only argument of a call.
fn render_single_arg(name: &str, key: &str, s: &str) -> (r: String)
    ensures
        r@ == single_arg_html(name@, key@, s@),
{
    if same_text(name, "Bash") || same_text(key, "command") {
        wrap_text(
            "<pre class=\"tool-args tool-args-bare\"><code><span class=\"tool-prompt\">$</span> ",
            s,
            "</code></pre>",
        )
    } else {
        let mut r = wrap_text(
            "<div class=\"tool-args-kv\"><span class=\"tool-arg-key\">",
            key,
            "</span>: <code>",
        );
        let value = show_value(key, s);
        push_escaped(&mut r, value.as_str());
        r.push_str("</code></div>");
        r
    }
}

/// A line of a diff.
pub open spec fn diff_line(opening: Seq<char>, line: Seq<char>) -> Seq<char> {
    opening + escaped(line) + "</span>\n"@
}

/// The lines of one side of a diff.
pub open spec fn diff_lines(opening: Seq<char>, list: Seq<Seq<char>>) -> Seq<char>
    decreases list.len(),
{
    if list.len() == 0 {
        Seq::empty()
    } else {
        diff_lines(opening, list.drop_last()) + diff_line(opening, list.last())
    }
}

/// Appends the lines of one side of a diff.
fn push_diff(out: &mut String, opening: &str, text: &str)
    ensures
        final(out)@ == old(out)@ + diff_lines(opening@, lines_of(text@)),
{
    let list = lines(text);
    let ghost all = lines_of(text@);
    let ghost start = out@;
    let mut i: usize = 0;
    assert(all.take(0) =~= Seq::empty());
    assert(out@ =~= start + diff_lines(opening@, all.take(0)));
    while i < list.len()
        invariant
            all == views(list@),
            i <= list.len(),
            out@ == start + diff_lines(opening@, all.take(i as int)),
        decreases list.len() - i,
    {
        let ghost before = diff_lines(opening@, all.take(i as int));
        let line = wrap_text(opening, list[i].as_str(), "</span>\n");
        out.push_str(line.as_str());
        assert(all.take(i + 1).drop_last() =~= all.take(i as int));
        assert(all[i as int] == list@[i as int]@);
        assert(out@ =~= start + (before + diff_line(opening@, all[i as int])));
        i = i + 1;
    }
    assert(all.take(i as int) =~= all);
}

/// Whether the arguments of an edit name a file and say what to replace.
pub open spec fn describes_edit(args: Seq<(Seq<char>, ArgView)>) -> bool {
    text_arg(args, "file_path"@).len() > 0 && (text_arg(args, "old_string"@).len() > 0 || text_arg(
        args,
        "new_string"@,
    ).len() > 0)
}

/// An edit: the file, whether all occurrences are replaced, and the old and the new lines.
pub open spec fn edit_html(args: Seq<(Seq<char>, ArgView)>) -> Seq<char> {
    "<div class=\"tool-args-kv-group\"><div class=\"tool-arg-line\"><span class=\"tool-arg-key\">file_path</span>: <code>"@
        + escaped(display_path(text_arg(args, "file_path"@))) + "</code></div>"@ + (if arg_named(
        args,
        "replace_all"@,
    ) == Some(ArgView::Bool(true)) {
        "<div class=\"tool-arg-line\"><span class=\"tool-arg-key\">replace_all</span>: <code>true</code></div>"@
    } else {
        ""@
    }) + "<pre class=\"tool-diff\"><code>"@ + diff_lines(
        "<span class=\"diff-remove\">- "@,
        lines_of(text_arg(args, "old_string"@)),
    ) + diff_lines(
        "<span class=\"diff-add\">+ "@,
        lines_of(text_arg(args, "new_string"@)),
    ) + "</code></pre></div>"@
}

/// Renders the arguments of an edit as a diff.
fn render_edit(args: &Vec<(String, ArgValue)>) -> (r: String)
    ensures
        r@ == edit_html(args_view(args@)),
{
    let path = decode_path(find_text_arg(args, "file_path"));
    let replace_all = match find_arg(args, "replace_all") {
        Some(ArgValue::Bool(b)) => *b,
        _ => false,
    };
    let mut html = wrap_text(
        "<div class=\"tool-args-kv-group\"><div class=\"tool-arg-line\"><span class=\"tool-arg-key\">file_path</span>: <code>",
        path.as_str(),
        "</code></div>",
    );
    html.push_str(
        if replace_all {
            "<div class=\"tool-arg-line\"><span class=\"tool-arg-key\">replace_all</span>: <code>true</code></div>"
        } else {
            ""
        },
    );
    html.push_str("<pre class=\"tool-diff\"><code>");
    push_diff(&mut html, "<span class=\"diff-remove\">- ", find_text_arg(args, "old_string"));
    push_diff(&mut html, "<span class=\"diff-add\">+ ", find_text_arg(args, "new_string"));
    html.push_str("</code></pre></div>");
    html
}

/// An argument's name and value on one line.
pub open spec fn arg_line(key: Seq<char>, value: Seq<char>) -> Seq<char> {
    "<div class=\"tool-arg-line\"><span class=\"tool-arg-key\">"@ + escaped(key)
        + "</span>: <code>"@ + escaped(value) + "</code></div>"@
}

/// Whether a value is too long for one line.
pub open spec fn is_long(value: Seq<char>) -> bool {
    value.contains('\n') || byte_len(value) > 120
}

/// One of several arguments. A long text gets a code block.
pub open spec fn arg_html(key: Seq<char>, value: ArgView) -> Seq<char> {
    match value {
        ArgView::Text(s) => if is_long(shown_value(key, s)) {
            "<div class=\"tool-arg-key\">"@ + escaped(key)
                + "</div><pre class=\"tool-args\"><code>"@ + escaped(shown_value(key, s))
                + "</code></pre>"@
        } else {
            arg_line(key, shown_value(key, s))
        },
        ArgView::Number(n) => arg_line(key, n),
        ArgView::Bool(b) => arg_line(key, if b { "true"@ } else { "false"@ }),
        ArgView::Compound => ""@,
    }
}

/// Several arguments, one after the other.
pub open spec fn args_html(args: Seq<(Seq<char>, ArgView)>) -> Seq<char>
    decreases args.len(),
{
    if args.len() == 0 {
        Seq::empty()
    } else {
        args_html(args.drop_last()) + arg_html(args.last().0, args.last().1)
    }
}

/// Renders one argument's name and value on one line.
fn render_arg_line(key: &str, value: &str) -> (r: String)
    ensures
        r@ == arg_line(key@, value@),
{
    let mut r = wrap_text(
        "<div class=\"tool-arg-line\"><span class=\"tool-arg-key\">",
        key,
        "</span>: <code>",
    );
    push_escaped(&mut r, value);
    r.push_str("</code></div>");
    r
}

/// Renders one of several arguments.
fn render_arg(key: &str, value: &ArgValue) -> (r: String)
    ensures
        r@ == arg_html(key@, value@),
{
    match value {
        ArgValue::Text(s) => {
            let shown = show_value(key, s.as_str());
            if has_char(shown.as_str(), '\n') || text_byte_len(shown.as_str()) > 120 {
                let mut r = wrap_text(
                    "<div class=\"tool-arg-key\">",
                    key,
                    "</div><pre class=\"tool-args\"><code>",
                );
                push_escaped(&mut r, shown.as_str());
                r.push_str("</code></pre>");
                r
            } else {
                render_arg_line(key, shown.as_str())
            }
        },
        ArgValue::Number(n) => render_arg_line(key, n.as_str()),
        ArgValue::Bool(b) => render_arg_line(key, if *b { "true" } else { "false" }),
        ArgValue::Compound => "".to_string(),
    }
}

/// Whether every argument is a text, a number or a boolean.
pub open spec fn all_simple(args: Seq<(Seq<char>, ArgView)>) -> bool {
    forall|i: int| 0 <= i < args.len() ==> !((#[trigger] args[i]).1 is Compound)
}

/// Whether every argument is a text, a number or a boolean.
fn is_simple(args: &Vec<(String, ArgValue)>) -> (r: bool)
    ensures
        r == all_simple(args_view(args@)),
{
    let mut i: usize = 0;
    while i < args.len()
        invariant
            i <= args.len(),
            forall|k: int| 0 <= k < i ==> !((#[trigger] args_view(args@)[k]).1 is Compound),
        decreases args.len() - i,
    {
        assert(args_view(args@)[i as int].1 == args@[i as int].1@);
        if let ArgValue::Compound = args[i].1 {
            return false;
        }
        i = i + 1;
    }
    true
}

/// The readable form of named arguments, if they have one: a single text, an
/// edit with what it replaces, or up to eight simple values.
pub open spec fn named_html(
    name: Seq<char>,
    args: Seq<(Seq<char>, ArgView)>,
) -> Option<Seq<char>> {
    if args.len() == 1 && args[0].1 is Text {
        Some(single_arg_html(name, args[0].0, args[0].1->Text_0))
    } else if (name == "Edit"@ || name == "edit"@) && describes_edit(args) {
        Some(edit_html(args))
    } else if all_simple(args) && args.len() <= 8 {
        Some("<div class=\"tool-args-kv-group\">"@ + args_html(args) + "</div>"@)
    } else {
        None
    }
}

/// Renders several simple arguments.
fn render_pairs(args: &Vec<(String, ArgValue)>) -> (r: String)
    ensures
        r@ == "<div class=\"tool-args-kv-group\">"@ + args_html(args_view(args@)) + "</div>"@,
{
    let ghost all = args_view(args@);
    let mut html = "<div class=\"tool-args-kv-group\">".to_string();
    let ghost start = html@;
    let mut i: usize = 0;
    assert(all.take(0) =~= Seq::empty());
    assert(html@ =~= start + args_html(all.take(0)));
    while i < args.len()
        invariant
            all == args_view(args@),
            i <= args.len(),
            html@ == start + args_html(all.take(i as int)),
        decreases args.len() - i,
    {
        let ghost before = args_html(all.take(i as int));
        let piece = render_arg(args[i].0.as_str(), &args[i].1);
        html.push_str(piece.as_str());
        assert(all[i as int] == (args@[i as int].0@, args@[i as int].1@));
        assert(all.take(i + 1).drop_last() =~= all.take(i as int));
        assert(html@ =~= start + (before + piece@));
        i = i + 1;
    }
    assert(all.take(i as int) =~= all);
    html.push_str("</div>");
    html
}

/// Renders named arguments in a readable form, if they have one.
pub fn render_named(name: &str, args: &Vec<(String, ArgValue)>) -> (r: Option<String>)
    ensures
        opt_view(r) == named_html(name@, args_view(args@)),
{
    let ghost all = args_view(args@);
    if args.len() == 1 {
        assert(all[0] == (args@[0].0@, args@[0].1@));
        if let ArgValue::Text(s) = &args[0].1 {
            return Some(render_single_arg(name, args[0].0.as_str(), s.as_str()));
        }
    }
    if same_text(name, "Edit") || same_text(name, "edit") {
        let has_path = !find_text_arg(args, "file_path").is_empty();
        let has_old = !find_text_arg(args, "old_string").is_empty();
        let has_new = !find_text_arg(args, "new_string").is_empty();
        if has_path && (has_old || has_new) {
            return Some(render_edit(args));
        }
    }
    if is_simple(args) && args.len() <= 8 {
        return Some(render_pairs(args));
    }
    None
}

/// The arguments of a call of the tool `name`: in a readable form where there is
/// one, else as indented JSON, and as they are if they are not JSON.
pub open spec fn tool_args_html(name: Seq<char>, arguments: Seq<char>) -> Seq<char> {
    match arguments_of(arguments) {
        ArgumentsView::NotJson => args_block(arguments),
        ArgumentsView::Other => args_block(indented_json(arguments)),
        ArgumentsView::Named(args) => match named_html(name, args) {
            Some(html) => html,
            None => args_block(indented_json(arguments)),
        },
    }
}

/// Renders a tool call's arguments as indented JSON.
fn render_indented(arguments: &str) -> (r: String)
    requires
        json_node(arguments@) is Some,
    ensures
        r@ == args_block(indented_json(arguments@)),
{
    let text = pretty_json(arguments).unwrap();
    wrap_text("<pre class=\"tool-args\"><code>", text.as_str(), "</code></pre>")
}

/// Renders a single tool call's arguments in a human-readable way.
///
/// 1. A JSON object with a single text, such as the command of a shell call, is
///    shown as the value with a contextual prefix.
/// 2. An edit is shown as a diff, and an object with a few simple values as
///    pairs of name and value; long values get code blocks.
/// 3. All else is shown as indented JSON.
pub fn render_tool_args(name: &str, arguments: &str) -> (r: String)
    ensures
        r@ == tool_args_html(name@, arguments@),
{
    match read_arguments(arguments) {
        Arguments::NotJson => wrap_text(
            "<pre class=\"tool-args\"><code>",
            arguments,
            "</code></pre>",
        ),
        Arguments::Other => render_indented(arguments),
        Arguments::Named(args) => match render_named(name, &args) {
            Some(html) => html,
            None => render_indented(arguments),
        },
    }
}

proof fn lemma_diff_holds_line(opening: Seq<char>, list: Seq<Seq<char>>, k: int)
    requires
        0 <= k < list.len(),
    ensures
        contains_text(diff_lines(opening, list), diff_line(opening, list[k])),
    decreases list.len(),
{
    if k < list.len() - 1 {
        lemma_diff_holds_line(opening, list.drop_last(), k);
    }
    lemma_concat_contains(
        diff_lines(opening, list.drop_last()),
        diff_line(opening, list.last()),
        diff_line(opening, list[k]),
    );
}

/// An edit shows every line that it removes and every line that it adds.
pub proof fn law_edit_shows_every_line(args: Seq<(Seq<char>, ArgView)>, k: int)
    ensures
        0 <= k < lines_of(text_arg(args, "old_string"@)).len() ==> contains_text(
            edit_html(args),
            diff_line(
                "<span class=\"diff-remove\">- "@,
                lines_of(text_arg(args, "old_string"@))[k],
            ),
        ),
        0 <= k < lines_of(text_arg(args, "new_string"@)).len() ==> contains_text(
            edit_html(args),
            diff_line("<span class=\"diff-add\">+ "@, lines_of(text_arg(args, "new_string"@))[k]),
        ),
{
    let removed = lines_of(text_arg(args, "old_string"@));
    let added = lines_of(text_arg(args, "new_string"@));
    let (minus, plus) = ("<span class=\"diff-remove\">- "@, "<span class=\"diff-add\">+ "@);
    let end = "</code></pre></div>"@;
    let n = edit_html(args).len() - end.len() - diff_lines(plus, added).len() - diff_lines(
        minus,
        removed,
    ).len();
    let start = edit_html(args).take(n);
    assert(start + diff_lines(minus, removed) + (diff_lines(plus, added) + end) =~= edit_html(
        args,
    ));
    assert(start + diff_lines(minus, removed) + diff_lines(plus, added) + end =~= edit_html(args));
    if 0 <= k < removed.len() {
        lemma_diff_holds_line(minus, removed, k);
        lemma_part_contains(
            start,
            diff_lines(minus, removed),
            diff_lines(plus, added) + end,
            diff_line(minus, removed[k]),
        );
    }
    if 0 <= k < added.len() {
        lemma_diff_holds_line(plus, added, k);
        lemma_part_contains(
            start + diff_lines(minus, removed),
            diff_lines(plus, added),
            end,
            diff_line(plus, added[k]),
        );
    }
}

/// Whether no two members of an object have the same name.
pub open spec fn names_differ(members: Seq<(Seq<char>, Seq<char>)>) -> bool {
    forall|i: int, j: int|
        0 <= i < j < members.len() ==> (#[trigger] members[i]).0 != (#[trigger] members[j]).0
}

/// Whether `text` is the string that an object holds under a name, and is empty if it holds
/// none.
pub open spec fn holds_text(
    members: Seq<(Seq<char>, Seq<char>)>,
    key: Seq<char>,
    text: Seq<char>,
) -> bool {
    if exists|i: int|
        0 <= i < members.len() && (#[trigger] members[i]).0 == key && json_node(
            members[i].1,
        ) matches Some(JsonView::Text(_)) {
        exists|i: int|
            0 <= i < members.len() && (#[trigger] members[i]).0 == key && json_node(members[i].1)
                == Some(JsonView::Text(text))
    } else {
        text.len() == 0
    }
}

/// Whether an object holds the value `true` under a name.
pub open spec fn holds_true(members: Seq<(Seq<char>, Seq<char>)>, key: Seq<char>) -> bool {
    exists|i: int|
        0 <= i < members.len() && (#[trigger] members[i]).0 == key && json_node(members[i].1)
            == Some(JsonView::Bool(true))
}

/// Whether arguments name no file, or do not say what to replace.
pub open spec fn is_no_edit(members: Seq<(Seq<char>, Seq<char>)>) -> bool {
    &&& names_differ(members)
    &&& {
        ||| holds_text(members, "file_path"@, Seq::empty())
        ||| holds_text(members, "old_string"@, Seq::empty()) && holds_text(
            members,
            "new_string"@,
            Seq::empty(),
        )
    }
}

proof fn lemma_no_edit(members: Seq<(Seq<char>, Seq<char>)>)
    requires
        is_no_edit(members),
    ensures
        !describes_edit(args_of(members)),
{
    let none = Seq::<char>::empty();
    if holds_text(members, "file_path"@, none) {
        lemma_text_arg(members, "file_path"@, none);
    } else {
        lemma_text_arg(members, "old_string"@, none);
        lemma_text_arg(members, "new_string"@, none);
    }
}

proof fn lemma_arg_named(members: Seq<(Seq<char>, Seq<char>)>, key: Seq<char>)
    requires
        names_differ(members),
    ensures
        match arg_named(args_of(members), key) {
            Some(value) => exists|i: int|
                0 <= i < members.len() && (#[trigger] members[i]).0 == key && arg_of(members[i].1)
                    == value,
            None => forall|i: int| 0 <= i < members.len() ==> (#[trigger] members[i]).0 != key,
        },
        forall|i: int|
            0 <= i < members.len() && (#[trigger] members[i]).0 == key ==> arg_named(
                args_of(members),
                key,
            ) == Some(arg_of(members[i].1)),
    decreases members.len(),
{
    let args = args_of(members);
    if members.len() > 0 {
        let rest = members.skip(1);
        assert(args.skip(1) =~= args_of(rest));
        assert(names_differ(rest)) by {
            assert forall|i: int, j: int| 0 <= i < j < rest.len() implies (
            #[trigger] rest[i]).0 != (#[trigger] rest[j]).0 by {
                assert(members[i + 1].0 != members[j + 1].0);
            }
        }
        lemma_arg_named(rest, key);
        assert(args[0] == (members[0].0, arg_of(members[0].1)));
        assert forall|i: int| 0 <= i < members.len() && (
        #[trigger] members[i]).0 == key implies arg_named(args, key) == Some(
            arg_of(members[i].1),
        ) by {
            if i > 0 {
                assert(members[0].0 != members[i].0);
                assert(rest[i - 1] == members[i]);
            }
        }
        if members[0].0 != key {
            match arg_named(args_of(rest), key) {
                Some(value) => {
                    let i = choose|i: int|
                        0 <= i < rest.len() && (#[trigger] rest[i]).0 == key && arg_of(rest[i].1)
                            == value;
                    assert(members[i + 1].0 == key);
                },
                None => {
                    assert forall|i: int| 0 <= i < members.len() implies (
                    #[trigger] members[i]).0 != key by {
                        if i > 0 {
                            assert(rest[i - 1].0 != key);
                        }
                    }
                },
            }
        }
    }
}

proof fn lemma_text_arg(members: Seq<(Seq<char>, Seq<char>)>, key: Seq<char>, text: Seq<char>)
    requires
        names_differ(members),
        holds_text(members, key, text),
    ensures
        text_arg(args_of(members), key) == text,
{
    reveal_strlit("");
    lemma_arg_named(members, key);
    if exists|i: int|
        0 <= i < members.len() && (#[trigger] members[i]).0 == key && json_node(
            members[i].1,
        ) matches Some(JsonView::Text(_)) {
        let i = choose|i: int|
            0 <= i < members.len() && (#[trigger] members[i]).0 == key && json_node(members[i].1)
                == Some(JsonView::Text(text));
        assert(arg_of(members[i].1) == ArgView::Text(text));
    } else {
        assert(text =~= ""@);
    }
}

proof fn lemma_diff_lines(opening: Seq<char>, list: Seq<Seq<char>>)
    ensures
        diff_lines(opening, list) == concatenated(
            list.map_values(|line: Seq<char>| opening + escaped(line) + "</span>\n"@),
        ),
    decreases list.len(),
{
    let shown = |line: Seq<char>| opening + escaped(line) + "</span>\n"@;
    if list.len() > 0 {
        lemma_diff_lines(opening, list.drop_last());
        let before = list.drop_last().map_values(shown);
        lemma_concatenated_push(before, shown(list.last()));
        assert(list.map_values(shown) =~= before.push(shown(list.last())));
    } else {
        assert(diff_lines(opening, list) =~= concatenated(list.map_values(shown)));
    }
}

/// An edit that names a file and says what to replace is shown as the path of the file, the
/// note that all occurrences are replaced, if and only if the arguments hold `replace_all` with
/// the value `true`, and a diff: the old lines, each behind a minus sign, and then the new lines,
/// each behind a plus sign.
pub proof fn law_edit_is_shown_as_a_diff(
    name: Seq<char>,
    arguments: Seq<char>,
    members: Seq<(Seq<char>, Seq<char>)>,
    path: Seq<char>,
    old_text: Seq<char>,
    new_text: Seq<char>,
)
    requires
        name == "Edit"@ || name == "edit"@,
        json_node(arguments) == Some(JsonView::Object(members)),
        names_differ(members),
        holds_text(members, "file_path"@, path),
        holds_text(members, "old_string"@, old_text),
        holds_text(members, "new_string"@, new_text),
        path.len() > 0,
        old_text.len() > 0 || new_text.len() > 0,
    ensures
        tool_args_html(name, arguments)
            == "<div class=\"tool-args-kv-group\"><div class=\"tool-arg-line\"><span class=\"tool-arg-key\">file_path</span>: <code>"@
            + escaped(display_path(path)) + "</code></div>"@ + (if holds_true(
            members,
            "replace_all"@,
        ) {
            "<div class=\"tool-arg-line\"><span class=\"tool-arg-key\">replace_all</span>: <code>true</code></div>"@
        } else {
            Seq::<char>::empty()
        }) + "<pre class=\"tool-diff\"><code>"@ + concatenated(
            lines_of(old_text).map_values(
                |line: Seq<char>| "<span class=\"diff-remove\">- "@ + escaped(line) + "</span>\n"@,
            ),
        ) + concatenated(
            lines_of(new_text).map_values(
                |line: Seq<char>| "<span class=\"diff-add\">+ "@ + escaped(line) + "</span>\n"@,
            ),
        ) + "</code></pre></div>"@,
{
    let args = args_of(members);
    reveal_strlit("");
    assert(""@ =~= Seq::<char>::empty());
    lemma_text_arg(members, "file_path"@, path);
    lemma_text_arg(members, "old_string"@, old_text);
    lemma_text_arg(members, "new_string"@, new_text);
    lemma_arg_named(members, "replace_all"@);
    lemma_diff_lines("<span class=\"diff-remove\">- "@, lines_of(old_text));
    lemma_diff_lines("<span class=\"diff-add\">+ "@, lines_of(new_text));
    assert((arg_named(args, "replace_all"@) == Some(ArgView::Bool(true))) == holds_true(
        members,
        "replace_all"@,
    )) by {
        if holds_true(members, "replace_all"@) {
            let i = choose|i: int|
                0 <= i < members.len() && (#[trigger] members[i]).0 == "replace_all"@
                    && json_node(members[i].1) == Some(JsonView::Bool(true));
            assert(arg_of(members[i].1) == ArgView::Bool(true));
        }
        if arg_named(args, "replace_all"@) == Some(ArgView::Bool(true)) {
            let i = choose|i: int|
                0 <= i < members.len() && (#[trigger] members[i]).0 == "replace_all"@ && arg_of(
                    members[i].1,
                ) == ArgView::Bool(true);
            assert(json_node(members[i].1) == Some(JsonView::Bool(true)));
        }
    }
    lemma_two_arguments(members, path, old_text, new_text);
}

proof fn lemma_two_arguments(
    members: Seq<(Seq<char>, Seq<char>)>,
    path: Seq<char>,
    old_text: Seq<char>,
    new_text: Seq<char>,
)
    requires
        holds_text(members, "file_path"@, path),
        holds_text(members, "old_string"@, old_text),
        holds_text(members, "new_string"@, new_text),
        path.len() > 0,
        old_text.len() > 0 || new_text.len() > 0,
    ensures
        members.len() > 1,
{
    reveal_strlit("file_path");
    reveal_strlit("old_string");
    reveal_strlit("new_string");
    assert("file_path"@.len() == 9 && "old_string"@.len() == 10 && "new_string"@.len() == 10);
    let i = choose|i: int|
        0 <= i < members.len() && (#[trigger] members[i]).0 == "file_path"@ && json_node(
            members[i].1,
        ) == Some(JsonView::Text(path));
    assert(0 <= i < members.len() && members[i].0 == "file_path"@);
    if old_text.len() > 0 {
        let j = choose|j: int|
            0 <= j < members.len() && (#[trigger] members[j]).0 == "old_string"@ && json_node(
                members[j].1,
            ) == Some(JsonView::Text(old_text));
        assert(0 <= j < members.len() && members[j].0 == "old_string"@);
    } else {
        let j = choose|j: int|
            0 <= j < members.len() && (#[trigger] members[j]).0 == "new_string"@ && json_node(
                members[j].1,
            ) == Some(JsonView::Text(new_text));
        assert(0 <= j < members.len() && members[j].0 == "new_string"@);
    }
}

/// The only argument of a call, if it is a string, is shown as a command line in a call of the
/// shell or under the name `command`, and else with its name. What names a path is decoded.
pub proof fn law_single_argument_is_shown(
    name: Seq<char>,
    arguments: Seq<char>,
    key: Seq<char>,
    value: Seq<char>,
    text: Seq<char>,
)
    requires
        json_node(arguments) == Some(JsonView::Object(seq![(key, value)])),
        json_node(value) == Some(JsonView::Text(text)),
    ensures
        tool_args_html(name, arguments) == (if name == "Bash"@ || key == "command"@ {
            "<pre class=\"tool-args tool-args-bare\"><code><span class=\"tool-prompt\">$</span> "@
                + escaped(text) + "</code></pre>"@
        } else {
            "<div class=\"tool-args-kv\"><span class=\"tool-arg-key\">"@ + escaped(key)
                + "</span>: <code>"@ + escaped(
                if key == "file_path"@ || key == "filepath"@ || key == "path"@ || key == "file"@
                    || key == "directory"@ || key == "dir"@ || key == "notebook_path"@ || key
                    == "cwd"@ {
                    display_path(text)
                } else {
                    text
                },
            ) + "</code></div>"@
        }),
{
    let args = args_of(seq![(key, value)]);
    assert(args =~= seq![(key, ArgView::Text(text))]);
}

/// Up to eight arguments that are strings, numbers or booleans are shown as pairs, in order: the
/// name and the value on a line, or a block for a string that is long or has several lines.
/// An edit that names a file and says what to replace is not meant here.
pub proof fn law_pairs_are_shown_in_order(
    name: Seq<char>,
    arguments: Seq<char>,
    members: Seq<(Seq<char>, Seq<char>)>,
)
    requires
        (name != "Edit"@ && name != "edit"@) || is_no_edit(members),
        json_node(arguments) == Some(JsonView::Object(members)),
        members.len() <= 8,
        members.len() == 1 ==> !(json_node(members[0].1) matches Some(JsonView::Text(_))),
        forall|i: int|
            0 <= i < members.len() ==> match json_node((#[trigger] members[i]).1) {
                Some(JsonView::Text(_)) => true,
                Some(JsonView::Number(_)) => true,
                Some(JsonView::Bool(_)) => true,
                _ => false,
            },
    ensures
        tool_args_html(name, arguments) == "<div class=\"tool-args-kv-group\">"@ + concatenated(
            members.map_values(
                |member: (Seq<char>, Seq<char>)|
                    {
                        let line = |value: Seq<char>|
                            "<div class=\"tool-arg-line\"><span class=\"tool-arg-key\">"@
                                + escaped(member.0) + "</span>: <code>"@ + escaped(value)
                                + "</code></div>"@;
                        match json_node(member.1) {
                            Some(JsonView::Text(text)) => {
                                let value = if names_path(member.0) {
                                    display_path(text)
                                } else {
                                    text
                                };
                                if value.contains('\n') || byte_len(value) > 120 {
                                    "<div class=\"tool-arg-key\">"@ + escaped(member.0)
                                        + "</div><pre class=\"tool-args\"><code>"@ + escaped(value)
                                        + "</code></pre>"@
                                } else {
                                    line(value)
                                }
                            },
                            Some(JsonView::Bool(true)) => line("true"@),
                            Some(JsonView::Bool(false)) => line("false"@),
                            _ => line(member.1),
                        }
                    },
            ),
        ) + "</div>"@,
{
    let args = args_of(members);
    if is_no_edit(members) {
        lemma_no_edit(members);
    }
    assert forall|i: int| 0 <= i < args.len() implies !((#[trigger] args[i]).1 is Compound) by {
        assert(args[i].1 == arg_of(members[i].1));
    }
    if members.len() == 1 {
        assert(args[0].1 == arg_of(members[0].1));
    }
    let shown = |member: (Seq<char>, Seq<char>)| arg_html(member.0, arg_of(member.1));
    lemma_args_html(members);
    let pair = |member: (Seq<char>, Seq<char>)|
        {
            let line = |value: Seq<char>|
                "<div class=\"tool-arg-line\"><span class=\"tool-arg-key\">"@ + escaped(member.0)
                    + "</span>: <code>"@ + escaped(value) + "</code></div>"@;
            match json_node(member.1) {
                Some(JsonView::Text(text)) => {
                    let value = if names_path(member.0) {
                        display_path(text)
                    } else {
                        text
                    };
                    if value.contains('\n') || byte_len(value) > 120 {
                        "<div class=\"tool-arg-key\">"@ + escaped(member.0)
                            + "</div><pre class=\"tool-args\"><code>"@ + escaped(value)
                            + "</code></pre>"@
                    } else {
                        line(value)
                    }
                },
                Some(JsonView::Bool(true)) => line("true"@),
                Some(JsonView::Bool(false)) => line("false"@),
                _ => line(member.1),
            }
        };
    assert forall|i: int| 0 <= i < members.len() implies shown(#[trigger] members[i]) == pair(
        members[i],
    ) by {}
    assert(members.map_values(shown) =~= members.map_values(pair));
}

proof fn lemma_args_html(members: Seq<(Seq<char>, Seq<char>)>)
    ensures
        args_html(args_of(members)) == concatenated(
            members.map_values(
                |member: (Seq<char>, Seq<char>)| arg_html(member.0, arg_of(member.1)),
            ),
        ),
    decreases members.len(),
{
    let shown = |member: (Seq<char>, Seq<char>)| arg_html(member.0, arg_of(member.1));
    let args = args_of(members);
    if members.len() > 0 {
        lemma_args_html(members.drop_last());
        let before = members.drop_last().map_values(shown);
        assert(args.drop_last() =~= args_of(members.drop_last()));
        lemma_concatenated_push(before, shown(members.last()));
        assert(members.map_values(shown) =~= before.push(shown(members.last())));
    } else {
        assert(args_html(args) =~= concatenated(members.map_values(shown)));
    }
}

/// All else is shown in a block: the text as it is if it is not JSON, and indented if it is a
/// value without names, or has more than eight arguments or one that is no string, number
/// or boolean. An edit that names a file and says what to replace is not meant here.
pub proof fn law_other_arguments_are_shown_in_a_block(name: Seq<char>, arguments: Seq<char>)
    requires
        json_node(arguments) matches Some(JsonView::Object(members)) ==> (name != "Edit"@ && name
            != "edit"@) || is_no_edit(members),
        json_node(arguments) matches Some(JsonView::Object(members)) ==> members.len() > 8 || (
        exists|i: int|
            0 <= i < members.len() && match json_node((#[trigger] members[i]).1) {
                Some(JsonView::Text(_)) => false,
                Some(JsonView::Number(_)) => false,
                Some(JsonView::Bool(_)) => false,
                _ => true,
            }),
    ensures
        tool_args_html(name, arguments) == "<pre class=\"tool-args\"><code>"@ + escaped(
            if json_node(arguments) is None {
                arguments
            } else {
                indented_json(arguments)
            },
        ) + "</code></pre>"@,
{
    if let Some(JsonView::Object(members)) = json_node(arguments) {
        let args = args_of(members);
        if is_no_edit(members) {
            lemma_no_edit(members);
        }
        if members.len() <= 8 {
            let i = choose|i: int|
                0 <= i < members.len() && match json_node((#[trigger] members[i]).1) {
                    Some(JsonView::Text(_)) => false,
                    Some(JsonView::Number(_)) => false,
                    Some(JsonView::Bool(_)) => false,
                    _ => true,
                };
            assert(args[i].1 == arg_of(members[i].1));
            assert(args[i].1 is Compound);
        }
    }
}

} // verus!
