//! The reference of the tools that a session uses.
use crate::descriptions::{description_views, Description};
use crate::html::{escaped, push_escaped, wrap_text};
use crate::markdown::{markdown_html, markdown_to_html};
use crate::parameters::{render_parameters_schema, schema_html};
use crate::text::{
    concatenated, contains_text, decimal, lemma_concat_contains, lemma_concatenated_push,
    lemma_part_contains, lines, lines_of, push_decimal, same_text, views,
};
use crate::tools::{tool_views, ExtractedTool, ToolView};
use vstd::prelude::*;

verus! {

/// The last tool of that name.
pub open spec fn tool_named(tools: Seq<ToolView>, name: Seq<char>) -> Option<ToolView>
    decreases tools.len(),
{
    if tools.len() == 0 {
        None
    } else if tools.last().name == name {
        Some(tools.last())
    } else {
        tool_named(tools.drop_last(), name)
    }
}

/// The last description of a tool of that name.
pub open spec fn described_as(list: Seq<Description>, name: Seq<char>) -> Option<Description>
    decreases list.len(),
{
    if list.len() == 0 {
        None
    } else if list.last().0 == name {
        Some(list.last())
    } else {
        described_as(list.drop_last(), name)
    }
}

/// A short description beside the name of a tool.
pub open spec fn short_html(short: Seq<char>) -> Seq<char> {
    " <span class=\"tool-ref-short\">&mdash; "@ + escaped(short) + "</span>"@
}

/// An entry that opens: the name of a tool with what stands beside it, and a body.
pub open spec fn open_item(name: Seq<char>, beside: Seq<char>, body: Seq<char>) -> Seq<char> {
    "    <details class=\"tool-ref-item-details\">\n"@
        + "      <summary class=\"tool-ref-item-summary\"><span class=\"tool-ref-name\">"@
        + escaped(name) + "</span>"@ + beside + "</summary>\n"@
        + "      <div class=\"tool-ref-full\">\n"@ + body + "      </div>\n"@ + "    </details>\n"@
}

/// An entry that does not open: the name of a tool with what stands below it.
pub open spec fn flat_item(name: Seq<char>, below: Seq<char>) -> Seq<char> {
    "    <div class=\"tool-ref-item\">\n"@ + "      <div class=\"tool-ref-name\">"@ + escaped(name)
        + "</div>\n"@ + below + "    </div>\n"@
}

/// Markdown on a line of its own in the body of an entry.
pub open spec fn body_line(md: Seq<char>) -> Seq<char> {
    "        "@ + markdown_html(md) + "\n"@
}

/// The first line of a text.
pub open spec fn first_line(text: Seq<char>) -> Seq<char> {
    if lines_of(text).len() > 0 {
        lines_of(text)[0]
    } else {
        ""@
    }
}

/// The short description of a defined tool: the prefix in the system message, else the
/// first line of the description.
pub open spec fn short_of(tool: ToolView) -> Seq<char> {
    if tool.system_message_prefix.len() > 0 {
        tool.system_message_prefix
    } else {
        first_line(tool.description)
    }
}

/// The body of the entry of a defined tool: its description and its parameters.
pub open spec fn tool_body(tool: ToolView) -> Seq<char> {
    (if tool.description.len() > 0 {
        body_line(tool.description)
    } else {
        ""@
    }) + match tool.parameters {
        Some(schema) => schema_html(schema),
        None => ""@,
    }
}

/// The entry of a defined tool.
pub open spec fn defined_item(name: Seq<char>, tool: ToolView) -> Seq<char> {
    if tool.description.len() > 0 || tool.system_message_prefix.len() > 0 || tool.parameters
        is Some {
        open_item(
            name,
            if short_of(tool).len() > 0 {
                short_html(short_of(tool))
            } else {
                ""@
            },
            tool_body(tool),
        )
    } else {
        flat_item(name, ""@)
    }
}

/// The entry of a tool that is not defined, with the description in the system prompt.
pub open spec fn described_item(name: Seq<char>, description: Option<Description>) -> Seq<char> {
    match description {
        Some(d) => if d.2.len() > 0 {
            open_item(name, short_html(d.1), body_line(d.2))
        } else {
            flat_item(name, "      <div class=\"tool-ref-desc\">"@ + escaped(d.1) + "</div>\n"@)
        },
        None => flat_item(name, ""@),
    }
}

/// The entry of a tool: from its definition, else from the system prompt.
pub open spec fn reference_item(
    name: Seq<char>,
    tools: Seq<ToolView>,
    descriptions: Seq<Description>,
) -> Seq<char> {
    match tool_named(tools, name) {
        Some(tool) => defined_item(name, tool),
        None => described_item(name, described_as(descriptions, name)),
    }
}

/// The entries of a list of tools.
pub open spec fn reference_items(
    names: Seq<Seq<char>>,
    tools: Seq<ToolView>,
    descriptions: Seq<Description>,
) -> Seq<char>
    decreases names.len(),
{
    if names.len() == 0 {
        ""@
    } else {
        reference_items(names.drop_last(), tools, descriptions) + reference_item(
            names.last(),
            tools,
            descriptions,
        )
    }
}

/// The reference of the tools that a session uses. Without tools there is none.
pub open spec fn tools_reference_html(
    names: Seq<Seq<char>>,
    tools: Seq<ToolView>,
    descriptions: Seq<Description>,
) -> Seq<char> {
    if names.len() == 0 {
        ""@
    } else {
        "<details class=\"tools-reference\">\n"@ + "  <summary>Tools Used ("@ + decimal(names.len())
            + ")</summary>\n"@ + "  <div class=\"tools-reference-content\">\n"@ + reference_items(
            names,
            tools,
            descriptions,
        ) + "  </div>\n"@ + "</details>\n"@
    }
}

fn find_tool<'a>(tools: &'a [ExtractedTool], name: &str) -> (r: Option<&'a ExtractedTool>)
    ensures
        match r {
            Some(tool) => tool_named(tool_views(tools@), name@) == Some(tool@),
            None => tool_named(tool_views(tools@), name@) is None,
        },
{
    let ghost all = tool_views(tools@);
    let mut i: usize = tools.len();
    assert(all.take(i as int) =~= all);
    while i > 0
        invariant
            all == tool_views(tools@),
            i <= tools.len(),
            tool_named(all, name@) == tool_named(all.take(i as int), name@),
        decreases i,
    {
        assert(all.take(i as int).last() == tools@[i - 1]@);
        assert(all.take(i as int).drop_last() =~= all.take(i - 1));
        if same_text(tools[i - 1].name.as_str(), name) {
            return Some(&tools[i - 1]);
        }
        i = i - 1;
    }
    None
}

fn find_description<'a>(list: &'a [(String, String, String)], name: &str) -> (r: Option<
    &'a (String, String, String),
>)
    ensures
        match r {
            Some(d) => described_as(description_views(list@), name@) == Some((d.0@, d.1@, d.2@)),
            None => described_as(description_views(list@), name@) is None,
        },
{
    let ghost all = description_views(list@);
    let mut i: usize = list.len();
    assert(all.take(i as int) =~= all);
    while i > 0
        invariant
            all == description_views(list@),
            i <= list.len(),
            described_as(all, name@) == described_as(all.take(i as int), name@),
        decreases i,
    {
        let d = &list[i - 1];
        assert(all.take(i as int).last() == (d.0@, d.1@, d.2@));
        assert(all.take(i as int).drop_last() =~= all.take(i - 1));
        if same_text(d.0.as_str(), name) {
            return Some(d);
        }
        i = i - 1;
    }
    None
}

/// Renders an entry that opens, out of the HTML beside the name and that of the body.
pub fn render_open_item(name: &str, beside: &str, body: &str) -> (r: String)
    ensures
        r@ == open_item(name@, beside@, body@),
{
    let mut r = "    <details class=\"tool-ref-item-details\">\n".to_string();
    r.push_str("      <summary class=\"tool-ref-item-summary\"><span class=\"tool-ref-name\">");
    push_escaped(&mut r, name);
    r.push_str("</span>");
    r.push_str(beside);
    r.push_str("</summary>\n");
    r.push_str("      <div class=\"tool-ref-full\">\n");
    r.push_str(body);
    r.push_str("      </div>\n");
    r.push_str("    </details>\n");
    r
}

/// Renders an entry that does not open, out of the HTML below the name.
pub fn render_flat_item(name: &str, below: &str) -> (r: String)
    ensures
        r@ == flat_item(name@, below@),
{
    let mut r = "    <div class=\"tool-ref-item\">\n".to_string();
    r.push_str("      <div class=\"tool-ref-name\">");
    push_escaped(&mut r, name);
    r.push_str("</div>\n");
    r.push_str(below);
    r.push_str("    </div>\n");
    r
}

fn render_short(short: &str) -> (r: String)
    ensures
        r@ == short_html(short@),
{
    wrap_text(" <span class=\"tool-ref-short\">&mdash; ", short, "</span>")
}

fn render_body_line(md: &str) -> (r: String)
    ensures
        r@ == body_line(md@),
{
    let mut r = "        ".to_string();
    r.push_str(markdown_to_html(md).as_str());
    r.push_str("\n");
    r
}

fn shorten_tool(tool: &ExtractedTool) -> (r: String)
    ensures
        r@ == short_of(tool@),
{
    if !tool.system_message_prefix.as_str().is_empty() {
        return tool.system_message_prefix.clone();
    }
    let all = lines(tool.description.as_str());
    if all.len() > 0 {
        assert(views(all@)[0] == all@[0]@);
        all[0].clone()
    } else {
        "".to_string()
    }
}

fn render_defined_item(name: &str, tool: &ExtractedTool) -> (r: String)
    ensures
        r@ == defined_item(name@, tool@),
{
    let has_description = !tool.description.as_str().is_empty();
    if !has_description && tool.system_message_prefix.as_str().is_empty()
        && tool.parameters.is_none() {
        return render_flat_item(name, "");
    }
    let short = shorten_tool(tool);
    let beside = if short.as_str().is_empty() {
        "".to_string()
    } else {
        render_short(short.as_str())
    };
    let mut body = if has_description {
        render_body_line(tool.description.as_str())
    } else {
        "".to_string()
    };
    match &tool.parameters {
        Some(schema) => body.push_str(render_parameters_schema(schema.as_str()).as_str()),
        None => body.push_str(""),
    }
    render_open_item(name, beside.as_str(), body.as_str())
}

fn render_described_item(name: &str, list: &[(String, String, String)]) -> (r: String)
    ensures
        r@ == described_item(name@, described_as(description_views(list@), name@)),
{
    match find_description(list, name) {
        Some(d) => {
            if !d.2.as_str().is_empty() {
                let short = render_short(d.1.as_str());
                let body = render_body_line(d.2.as_str());
                render_open_item(name, short.as_str(), body.as_str())
            } else {
                let below = wrap_text(
                    "      <div class=\"tool-ref-desc\">",
                    d.1.as_str(),
                    "</div>\n",
                );
                render_flat_item(name, below.as_str())
            }
        },
        None => render_flat_item(name, ""),
    }
}

/// Renders the reference of the tools in `tool_names`. A tool is described by its
/// definition, and by the system prompt if it has none.
pub fn render_tools_reference_from_defs(
    tool_names: &[String],
    tool_defs: &[ExtractedTool],
    text_descriptions: &[(String, String, String)],
) -> (r: String)
    ensures
        r@ == tools_reference_html(
            views(tool_names@),
            tool_views(tool_defs@),
            description_views(text_descriptions@),
        ),
{
    if tool_names.len() == 0 {
        return "".to_string();
    }
    let ghost names = views(tool_names@);
    let mut items = "".to_string();
    let mut i: usize = 0;
    assert(names.take(0) =~= Seq::empty());
    while i < tool_names.len()
        invariant
            names == views(tool_names@),
            i <= tool_names.len(),
            items@ == reference_items(
                names.take(i as int),
                tool_views(tool_defs@),
                description_views(text_descriptions@),
            ),
        decreases tool_names.len() - i,
    {
        let name = tool_names[i].as_str();
        assert(names.take(i + 1).drop_last() =~= names.take(i as int));
        let item = match find_tool(tool_defs, name) {
            Some(tool) => render_defined_item(name, tool),
            None => render_described_item(name, text_descriptions),
        };
        items.push_str(item.as_str());
        i = i + 1;
    }
    assert(names.take(i as int) =~= names);
    let mut r = "<details class=\"tools-reference\">\n".to_string();
    r.push_str("  <summary>Tools Used (");
    push_decimal(&mut r, tool_names.len() as u64);
    r.push_str(")</summary>\n");
    r.push_str("  <div class=\"tools-reference-content\">\n");
    r.push_str(items.as_str());
    r.push_str("  </div>\n");
    r.push_str("</details>\n");
    r
}

/// The reference has an entry for every tool that is used.
pub proof fn law_reference_lists_every_tool(
    names: Seq<Seq<char>>,
    tools: Seq<ToolView>,
    descriptions: Seq<Description>,
    k: int,
)
    requires
        0 <= k < names.len(),
    ensures
        contains_text(
            tools_reference_html(names, tools, descriptions),
            reference_item(names[k], tools, descriptions),
        ),
{
    let start = "<details class=\"tools-reference\">\n"@ + "  <summary>Tools Used ("@ + decimal(
        names.len(),
    ) + ")</summary>\n"@ + "  <div class=\"tools-reference-content\">\n"@;
    let items = reference_items(names, tools, descriptions);
    let item = reference_item(names[k], tools, descriptions);
    let end = "  </div>\n"@ + "</details>\n"@;
    lemma_items_hold_item(names, tools, descriptions, k);
    lemma_part_contains(start, items, end, item);
    assert(start + items + end =~= tools_reference_html(names, tools, descriptions));
}

proof fn lemma_items_hold_item(
    names: Seq<Seq<char>>,
    tools: Seq<ToolView>,
    descriptions: Seq<Description>,
    k: int,
)
    requires
        0 <= k < names.len(),
    ensures
        contains_text(
            reference_items(names, tools, descriptions),
            reference_item(names[k], tools, descriptions),
        ),
    decreases names.len(),
{
    if k < names.len() - 1 {
        lemma_items_hold_item(names.drop_last(), tools, descriptions, k);
    }
    lemma_concat_contains(
        reference_items(names.drop_last(), tools, descriptions),
        reference_item(names.last(), tools, descriptions),
        reference_item(names[k], tools, descriptions),
    );
}

/// The reference is a section that opens, labelled with the number of tools, and holds the
/// entries of the tools in the order of their names. Without tools there is none.
pub proof fn law_reference_holds_the_tools_in_order(
    names: Seq<Seq<char>>,
    tools: Seq<ToolView>,
    descriptions: Seq<Description>,
)
    ensures
        tools_reference_html(names, tools, descriptions) == (if names.len() > 0 {
            "<details class=\"tools-reference\">\n  <summary>Tools Used ("@ + decimal(names.len())
                + ")</summary>\n  <div class=\"tools-reference-content\">\n"@ + concatenated(
                names.map_values(|name: Seq<char>| reference_item(name, tools, descriptions)),
            ) + "  </div>\n</details>\n"@
        } else {
            Seq::empty()
        }),
{
    reveal_strlit("");
    reveal_strlit("<details class=\"tools-reference\">\n");
    reveal_strlit("  <summary>Tools Used (");
    reveal_strlit("<details class=\"tools-reference\">\n  <summary>Tools Used (");
    reveal_strlit(")</summary>\n");
    reveal_strlit("  <div class=\"tools-reference-content\">\n");
    reveal_strlit(")</summary>\n  <div class=\"tools-reference-content\">\n");
    reveal_strlit("  </div>\n");
    reveal_strlit("</details>\n");
    reveal_strlit("  </div>\n</details>\n");
    lemma_reference_items(names, tools, descriptions);
    let items = reference_items(names, tools, descriptions);
    let start = "<details class=\"tools-reference\">\n"@ + "  <summary>Tools Used ("@;
    let middle = ")</summary>\n"@ + "  <div class=\"tools-reference-content\">\n"@;
    let end = "  </div>\n"@ + "</details>\n"@;
    assert(start =~= "<details class=\"tools-reference\">\n  <summary>Tools Used ("@);
    assert(middle =~= ")</summary>\n  <div class=\"tools-reference-content\">\n"@);
    assert(end =~= "  </div>\n</details>\n"@);
    if names.len() > 0 {
        let n = decimal(names.len());
        assert(tools_reference_html(names, tools, descriptions) =~= start + n + middle + items
            + end);
    } else {
        assert(""@ =~= Seq::<char>::empty());
    }
}

proof fn lemma_reference_items(
    names: Seq<Seq<char>>,
    tools: Seq<ToolView>,
    descriptions: Seq<Description>,
)
    ensures
        reference_items(names, tools, descriptions) == concatenated(
            names.map_values(|name: Seq<char>| reference_item(name, tools, descriptions)),
        ),
    decreases names.len(),
{
    let shown = |name: Seq<char>| reference_item(name, tools, descriptions);
    if names.len() > 0 {
        lemma_reference_items(names.drop_last(), tools, descriptions);
        let before = names.drop_last().map_values(shown);
        lemma_concatenated_push(before, shown(names.last()));
        assert(names.map_values(shown) =~= before.push(shown(names.last())));
    } else {
        reveal_strlit("");
        assert(reference_items(names, tools, descriptions) =~= concatenated(
            names.map_values(shown),
        ));
    }
}

proof fn lemma_tool_named(tools: Seq<ToolView>, name: Seq<char>, k: int)
    requires
        0 <= k < tools.len(),
        tools[k].name == name,
        forall|m: int| 0 <= m < tools.len() && m != k ==> (#[trigger] tools[m]).name != name,
    ensures
        tool_named(tools, name) == Some(tools[k]),
    decreases tools.len(),
{
    let n = tools.len() - 1;
    if k < n {
        assert(tools[n].name != name);
        let rest = tools.drop_last();
        assert forall|m: int| 0 <= m < rest.len() && m != k implies (
        #[trigger] rest[m]).name != name by {
            assert(rest[m] == tools[m]);
        }
        lemma_tool_named(rest, name, k);
    }
}

proof fn lemma_no_tool_named(tools: Seq<ToolView>, name: Seq<char>)
    requires
        forall|m: int| 0 <= m < tools.len() ==> (#[trigger] tools[m]).name != name,
    ensures
        tool_named(tools, name) is None,
    decreases tools.len(),
{
    if tools.len() > 0 {
        assert(tools[tools.len() - 1].name != name);
        let rest = tools.drop_last();
        assert forall|m: int| 0 <= m < rest.len() implies (#[trigger] rest[m]).name != name by {
            assert(rest[m] == tools[m]);
        }
        lemma_no_tool_named(rest, name);
    }
}

proof fn lemma_described_as(list: Seq<Description>, name: Seq<char>, k: int)
    requires
        0 <= k < list.len(),
        list[k].0 == name,
        forall|m: int| k < m < list.len() ==> (#[trigger] list[m]).0 != name,
    ensures
        described_as(list, name) == Some(list[k]),
    decreases list.len(),
{
    let n = list.len() - 1;
    if k < n {
        assert(list[n].0 != name);
        let rest = list.drop_last();
        assert forall|m: int| k < m < rest.len() implies (#[trigger] rest[m]).0 != name by {
            assert(rest[m] == list[m]);
        }
        lemma_described_as(rest, name, k);
    }
}

proof fn lemma_open_item(name: Seq<char>, beside: Seq<char>, body: Seq<char>)
    ensures
        open_item(name, beside, body)
            == "    <details class=\"tool-ref-item-details\">\n      <summary class=\"tool-ref-item-summary\"><span class=\"tool-ref-name\">"@
            + escaped(name) + "</span>"@ + beside
            + "</summary>\n      <div class=\"tool-ref-full\">\n"@ + body
            + "      </div>\n    </details>\n"@,
{
    reveal_strlit("    <details class=\"tool-ref-item-details\">\n");
    reveal_strlit(
        "      <summary class=\"tool-ref-item-summary\"><span class=\"tool-ref-name\">",
    );
    reveal_strlit(
        "    <details class=\"tool-ref-item-details\">\n      <summary class=\"tool-ref-item-summary\"><span class=\"tool-ref-name\">",
    );
    reveal_strlit("</summary>\n");
    reveal_strlit("      <div class=\"tool-ref-full\">\n");
    reveal_strlit("</summary>\n      <div class=\"tool-ref-full\">\n");
    reveal_strlit("      </div>\n");
    reveal_strlit("    </details>\n");
    reveal_strlit("      </div>\n    </details>\n");
    let start = "    <details class=\"tool-ref-item-details\">\n"@
        + "      <summary class=\"tool-ref-item-summary\"><span class=\"tool-ref-name\">"@;
    let middle = "</summary>\n"@ + "      <div class=\"tool-ref-full\">\n"@;
    let end = "      </div>\n"@ + "    </details>\n"@;
    assert(start
        =~= "    <details class=\"tool-ref-item-details\">\n      <summary class=\"tool-ref-item-summary\"><span class=\"tool-ref-name\">"@);
    assert(middle =~= "</summary>\n      <div class=\"tool-ref-full\">\n"@);
    assert(end =~= "      </div>\n    </details>\n"@);
    assert(open_item(name, beside, body) =~= start + escaped(name) + "</span>"@ + beside + middle
        + body + end);
}

/// The entry of a tool of which its definition tells something opens. Beside its name stands the
/// prefix for the system message, or else the first line of the description, if there is one;
/// in it stand the description and the parameters, where they are given. Of a tool that is only
/// named the name is shown. What the system prompt tells of the tool does not matter.
pub proof fn law_defined_tool_is_shown(
    tools: Seq<ToolView>,
    descriptions: Seq<Description>,
    k: int,
    short: Seq<char>,
)
    requires
        0 <= k < tools.len(),
        forall|m: int|
            0 <= m < tools.len() && m != k ==> (#[trigger] tools[m]).name != tools[k].name,
        if tools[k].system_message_prefix.len() > 0 {
            short == tools[k].system_message_prefix
        } else if lines_of(tools[k].description).len() > 0 {
            short == lines_of(tools[k].description)[0]
        } else {
            short.len() == 0
        },
    ensures
        reference_item(tools[k].name, tools, descriptions) == (if tools[k].description.len() > 0
            || tools[k].system_message_prefix.len() > 0 || tools[k].parameters is Some {
            "    <details class=\"tool-ref-item-details\">\n      <summary class=\"tool-ref-item-summary\"><span class=\"tool-ref-name\">"@
                + escaped(tools[k].name) + "</span>"@ + (if short.len() > 0 {
                " <span class=\"tool-ref-short\">&mdash; "@ + escaped(short) + "</span>"@
            } else {
                Seq::empty()
            }) + "</summary>\n      <div class=\"tool-ref-full\">\n"@ + ((
            if tools[k].description.len() > 0 {
                "        "@ + markdown_html(tools[k].description) + "\n"@
            } else {
                Seq::empty()
            }) + (match tools[k].parameters {
                Some(schema) => schema_html(schema),
                None => Seq::empty(),
            })) + "      </div>\n    </details>\n"@
        } else {
            "    <div class=\"tool-ref-item\">\n      <div class=\"tool-ref-name\">"@ + escaped(
                tools[k].name,
            ) + "</div>\n"@ + "    </div>\n"@
        }),
{
    reveal_strlit("");
    assert(""@ =~= Seq::<char>::empty());
    let tool = tools[k];
    lemma_tool_named(tools, tool.name, k);
    assert(short_of(tool) =~= short);
    let beside = if short.len() > 0 {
        " <span class=\"tool-ref-short\">&mdash; "@ + escaped(short) + "</span>"@
    } else {
        Seq::empty()
    };
    lemma_open_item(tool.name, beside, tool_body(tool));
    lemma_flat_item(tool.name, ""@);
}

/// The entry of a tool that is not defined shows what the system prompt tells of it: the short
/// description beside its name, and the whole one in it. Of a tool that nothing is told of only
/// the name is shown.
pub proof fn law_undefined_tool_is_shown(
    name: Seq<char>,
    tools: Seq<ToolView>,
    descriptions: Seq<Description>,
    k: int,
)
    requires
        forall|m: int| 0 <= m < tools.len() ==> (#[trigger] tools[m]).name != name,
        0 <= k <= descriptions.len(),
        k < descriptions.len() ==> descriptions[k].0 == name,
        if k < descriptions.len() {
            forall|m: int| k < m < descriptions.len() ==> (#[trigger] descriptions[m]).0 != name
        } else {
            forall|m: int| 0 <= m < descriptions.len() ==> (#[trigger] descriptions[m]).0 != name
        },
    ensures
        reference_item(name, tools, descriptions) == (if k < descriptions.len()
            && descriptions[k].2.len() > 0 {
            "    <details class=\"tool-ref-item-details\">\n      <summary class=\"tool-ref-item-summary\"><span class=\"tool-ref-name\">"@
                + escaped(name) + "</span>"@ + (
            " <span class=\"tool-ref-short\">&mdash; "@ + escaped(descriptions[k].1)
                + "</span>"@) + "</summary>\n      <div class=\"tool-ref-full\">\n"@ + (
            "        "@ + markdown_html(descriptions[k].2) + "\n"@)
                + "      </div>\n    </details>\n"@
        } else {
            "    <div class=\"tool-ref-item\">\n      <div class=\"tool-ref-name\">"@ + escaped(name)
                + "</div>\n"@ + (if k < descriptions.len() {
                "      <div class=\"tool-ref-desc\">"@ + escaped(descriptions[k].1) + "</div>\n"@
            } else {
                Seq::empty()
            }) + "    </div>\n"@
        }),
{
    lemma_no_tool_named(tools, name);
    if k < descriptions.len() {
        lemma_described_as(descriptions, name, k);
        lemma_open_item(
            name,
            " <span class=\"tool-ref-short\">&mdash; "@ + escaped(descriptions[k].1) + "</span>"@,
            "        "@ + markdown_html(descriptions[k].2) + "\n"@,
        );
        lemma_flat_item(
            name,
            "      <div class=\"tool-ref-desc\">"@ + escaped(descriptions[k].1) + "</div>\n"@,
        );
    } else {
        reveal_strlit("");
        assert(""@ =~= Seq::<char>::empty());
        lemma_not_described(descriptions, name);
        lemma_flat_item(name, ""@);
    }
}

proof fn lemma_not_described(list: Seq<Description>, name: Seq<char>)
    requires
        forall|m: int| 0 <= m < list.len() ==> (#[trigger] list[m]).0 != name,
    ensures
        described_as(list, name) is None,
    decreases list.len(),
{
    if list.len() > 0 {
        assert(list[list.len() - 1].0 != name);
        let rest = list.drop_last();
        assert forall|m: int| 0 <= m < rest.len() implies (#[trigger] rest[m]).0 != name by {
            assert(rest[m] == list[m]);
        }
        lemma_not_described(rest, name);
    }
}

proof fn lemma_flat_item(name: Seq<char>, below: Seq<char>)
    ensures
        flat_item(name, below)
            == "    <div class=\"tool-ref-item\">\n      <div class=\"tool-ref-name\">"@ + escaped(
            name,
        ) + "</div>\n"@ + below + "    </div>\n"@,
{
    reveal_strlit("    <div class=\"tool-ref-item\">\n");
    reveal_strlit("      <div class=\"tool-ref-name\">");
    reveal_strlit("    <div class=\"tool-ref-item\">\n      <div class=\"tool-ref-name\">");
    let start = "    <div class=\"tool-ref-item\">\n"@ + "      <div class=\"tool-ref-name\">"@;
    assert(start =~= "    <div class=\"tool-ref-item\">\n      <div class=\"tool-ref-name\">"@);
    assert(flat_item(name, below) =~= start + escaped(name) + "</div>\n"@ + below
        + "    </div>\n"@);
}

} // verus!
