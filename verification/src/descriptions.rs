//! Tool descriptions in the text of a system prompt.
use crate::text::{
    byte_len, first_index, has_char, has_prefix, is_white_space, join, joined,
    law_line_feeds_end_lines, law_white_space_is_trimmed, lemma_first_index, lemma_first_index_is,
    lemma_joined_front, lemma_line_chars, lines, lines_of, push_text, text_byte_len, trim,
    trim_start_char, trimmed, trimmed_end, trimmed_start, views, without_carriage_return,
    without_leading,
};
use vstd::prelude::*;

verus! {

/// What `char::is_uppercase` tells of a character.
pub uninterp spec fn upper_case(c: char) -> bool;

/// `char::is_uppercase` tells whether a character has Unicode's `Uppercase` property. It
/// depends on the character alone. Of ASCII characters the letters from A to Z have it; which
/// others do is not stated.
pub assume_specification[ char::is_uppercase ](c: char) -> (r: bool)
    ensures
        r == upper_case(c),
        c <= '\u{7f}' ==> r == ('A' <= c <= 'Z'),
;

/// Whether a character is an upper case letter.
pub open spec fn is_upper(c: char) -> bool {
    if c <= '\u{7f}' {
        'A' <= c <= 'Z'
    } else {
        upper_case(c)
    }
}

/// The name of a tool takes fewer bytes than this.
pub const MAX_TOOL_NAME_LEN: usize = 40;

/// Whether a line is a Markdown header of the third level.
pub open spec fn is_tool_header(line: Seq<char>) -> bool {
    "### "@.is_prefix_of(trimmed(line))
}

/// Whether a line is a Markdown header of the second or the third level.
pub open spec fn ends_section(line: Seq<char>) -> bool {
    is_tool_header(line) || "## "@.is_prefix_of(trimmed(line))
}

/// The text of a header.
pub open spec fn header_text(line: Seq<char>) -> Seq<char> {
    trimmed(without_leading(trimmed(line), '#'))
}

/// Whether a text looks like the name of a tool: it is short, holds no full stop and
/// begins with an upper case letter.
pub open spec fn is_tool_name(name: Seq<char>) -> bool {
    name.len() > 0 && byte_len(name) < MAX_TOOL_NAME_LEN && !name.contains('.') && is_upper(
        name[0],
    )
}

/// The index of the first line, from `start` on, that ends a section.
pub open spec fn section_end(text: Seq<Seq<char>>, start: int) -> int
    decreases text.len() - start,
{
    if start >= text.len() || ends_section(text[start]) {
        start
    } else {
        section_end(text, start + 1)
    }
}

/// The end of a section is not before its start and not after the last line.
pub proof fn lemma_section_end(text: Seq<Seq<char>>, start: int)
    requires
        start <= text.len(),
    ensures
        start <= section_end(text, start) <= text.len(),
    decreases text.len() - start,
{
    if start < text.len() && !ends_section(text[start]) {
        lemma_section_end(text, start + 1);
    }
}

/// The lines that are not white space only.
pub open spec fn non_blank(text: Seq<Seq<char>>) -> Seq<Seq<char>>
    decreases text.len(),
{
    if text.len() == 0 {
        Seq::empty()
    } else if trimmed(text.last()).len() > 0 {
        non_blank(text.drop_last()).push(text.last())
    } else {
        non_blank(text.drop_last())
    }
}

/// The first two lines that are not white space only, on one line.
pub open spec fn short_description(full: Seq<char>) -> Seq<char> {
    let kept = non_blank(lines_of(full));
    trimmed(joined(if kept.len() > 2 {
        kept.take(2)
    } else {
        kept
    }, " "@))
}

/// The description of a tool: its name, a short description, and the whole of it.
pub type Description = (Seq<char>, Seq<char>, Seq<char>);

/// The tools that are described in the lines from `start` on. The description of a tool
/// stands below its header and ends at the next header; a tool without one is left out.
pub open spec fn described(text: Seq<Seq<char>>, start: int) -> Seq<Description>
    decreases text.len() - start,
{
    if start < 0 || start >= text.len() {
        Seq::empty()
    } else if is_tool_header(text[start]) && is_tool_name(header_text(text[start])) {
        proof {
            lemma_section_end(text, start + 1);
        }
        let end = section_end(text, start + 1);
        let full = trimmed(joined(text.subrange(start + 1, end), "\n"@));
        if full.len() > 0 {
            seq![(header_text(text[start]), short_description(full), full)] + described(text, end)
        } else {
            described(text, end)
        }
    } else {
        described(text, start + 1)
    }
}

/// The characters of a list of descriptions.
pub open spec fn description_views(list: Seq<(String, String, String)>) -> Seq<Description> {
    list.map_values(|d: (String, String, String)| (d.0@, d.1@, d.2@))
}

fn shorten(full: &str) -> (r: String)
    ensures
        r@ == short_description(full@),
{
    let all = lines(full);
    let mut kept: Vec<String> = Vec::new();
    let mut i: usize = 0;
    assert(views(all@).take(0) =~= Seq::empty());
    assert(views(kept@) =~= Seq::empty());
    while i < all.len()
        invariant
            i <= all.len(),
            views(kept@) == non_blank(views(all@).take(i as int)),
        decreases all.len() - i,
    {
        assert(views(all@).take(i + 1).drop_last() =~= views(all@).take(i as int));
        if !trim(all[i].as_str()).is_empty() {
            push_text(&mut kept, all[i].as_str());
        }
        i = i + 1;
    }
    assert(views(all@).take(i as int) =~= views(all@));
    let ghost before = kept@;
    kept.truncate(2);
    assert(before.len() > 2 ==> views(kept@) =~= views(before).take(2));
    assert(before.len() <= 2 ==> kept@ =~= before);
    let line = join(&kept, " ");
    trim(line.as_str()).to_string()
}

fn looks_like_tool_name(name: &str) -> (r: bool)
    ensures
        r == is_tool_name(name@),
{
    !name.is_empty() && text_byte_len(name) < MAX_TOOL_NAME_LEN && !has_char(name, '.')
        && name.get_char(0).is_uppercase()
}

/// Extracts tool descriptions from a system prompt.
///
/// Looks for headers of the third level that look like the name of a tool. Returns the
/// name, a short description and the whole description of each.
pub fn extract_tool_descriptions(system_content: &str) -> (r: Vec<(String, String, String)>)
    ensures
        description_views(r@) == described(lines_of(system_content@), 0),
{
    let mut tools: Vec<(String, String, String)> = Vec::new();
    let all = lines(system_content);
    let ghost text = lines_of(system_content@);
    let mut i: usize = 0;
    assert(description_views(tools@) + described(text, 0) =~= described(text, 0));
    while i < all.len()
        invariant
            views(all@) == text,
            i <= all.len(),
            description_views(tools@) + described(text, i as int) == described(text, 0),
        decreases all.len() - i,
    {
        assert(text[i as int] == all@[i as int]@);
        let line = trim(all[i].as_str());
        let header = trim(trim_start_char(line, '#'));
        if has_prefix(line, "### ") && looks_like_tool_name(header) {
            let ghost start = i + 1;
            let ghost done = description_views(tools@);
            let mut body: Vec<String> = Vec::new();
            let mut j: usize = i + 1;
            assert(views(body@) =~= text.subrange(start, start));
            while j < all.len() && !(has_prefix(trim(all[j].as_str()), "### ") || has_prefix(
                trim(all[j].as_str()),
                "## ",
            ))
                invariant
                    views(all@) == text,
                    0 <= start <= j <= all.len(),
                    section_end(text, start) == section_end(text, j as int),
                    views(body@) == text.subrange(start, j as int),
                decreases all.len() - j,
            {
                assert(text[j as int] == all@[j as int]@);
                push_text(&mut body, all[j].as_str());
                assert(text.subrange(start, j + 1) =~= text.subrange(start, j as int).push(
                    text[j as int],
                ));
                j = j + 1;
            }
            assert(j < text.len() ==> text[j as int] == all@[j as int]@);
            let content = join(&body, "\n");
            let full = trim(content.as_str());
            if !full.is_empty() {
                let tool = (header.to_string(), shorten(full), full.to_string());
                let ghost added = (tool.0@, tool.1@, tool.2@);
                assert(description_views(tools@.push(tool)) =~= done.push(added));
                tools.push(tool);
                assert(done.push(added) + described(text, j as int) =~= done + (seq![added]
                    + described(text, j as int)));
            }
            i = j;
        } else {
            i = i + 1;
        }
    }
    assert(description_views(tools@) + described(text, i as int) =~= description_views(tools@));
    tools
}

/// Whether a description is that of the tool whose header is the line `h`: its name is the
/// text of the header, and the whole of it stands in the lines from there to the end of the
/// section, none of which is a header.
pub open spec fn is_described_at(text: Seq<Seq<char>>, h: int, tool: Description) -> bool {
    let end = section_end(text, h + 1);
    &&& 0 <= h < end <= text.len()
    &&& is_tool_header(text[h])
    &&& is_tool_name(tool.0)
    &&& tool.0 == header_text(text[h])
    &&& tool.1 == short_description(tool.2)
    &&& tool.2 == trimmed(joined(text.subrange(h + 1, end), "\n"@))
    &&& tool.2.len() > 0
    &&& forall|k: int| h < k < end ==> !ends_section(#[trigger] text[k])
}

proof fn lemma_section_lines(text: Seq<Seq<char>>, start: int)
    requires
        0 <= start <= text.len(),
    ensures
        forall|k: int|
            start <= k < section_end(text, start) ==> !ends_section(#[trigger] text[k]),
    decreases text.len() - start,
{
    if start < text.len() && !ends_section(text[start]) {
        lemma_section_lines(text, start + 1);
    }
}

/// Whether the line `h` is the header of a tool that is described: it looks like the name of
/// a tool, and the section below it is not white space only.
pub open spec fn heads_description(text: Seq<Seq<char>>, h: int) -> bool {
    &&& 0 <= h < text.len()
    &&& is_tool_header(text[h])
    &&& is_tool_name(header_text(text[h]))
    &&& trimmed(joined(text.subrange(h + 1, section_end(text, h + 1)), "\n"@)).len() > 0
}

/// The lines from `start` on that are headers of tools that are described.
pub open spec fn description_headers(text: Seq<Seq<char>>, start: int) -> Seq<int>
    decreases text.len() - start,
{
    if start < 0 || start >= text.len() {
        Seq::empty()
    } else if heads_description(text, start) {
        seq![start] + description_headers(text, start + 1)
    } else {
        description_headers(text, start + 1)
    }
}

proof fn lemma_headers(text: Seq<Seq<char>>, start: int)
    requires
        0 <= start,
    ensures
        forall|k: int|
            0 <= k < description_headers(text, start).len() ==> start
                <= #[trigger] description_headers(text, start)[k] && heads_description(
                text,
                description_headers(text, start)[k],
            ),
        forall|j: int, k: int|
            0 <= j < k < description_headers(text, start).len()
                ==> #[trigger] description_headers(text, start)[j]
                < #[trigger] description_headers(text, start)[k],
        forall|h: int|
            start <= h && #[trigger] heads_description(text, h) ==> description_headers(
                text,
                start,
            ).contains(h),
    decreases text.len() - start,
{
    let all = description_headers(text, start);
    if start < text.len() {
        lemma_headers(text, start + 1);
        let rest = description_headers(text, start + 1);
        assert forall|h: int| start <= h && #[trigger] heads_description(
            text,
            h,
        ) implies all.contains(h) by {
            if h == start {
                assert(all[0] == h);
            } else {
                let k = choose|k: int| 0 <= k < rest.len() && rest[k] == h;
                if heads_description(text, start) {
                    assert(all[k + 1] == h);
                }
            }
        }
        assert forall|j: int, k: int| 0 <= j < k < all.len() implies #[trigger] all[j]
            < #[trigger] all[k] by {
            if heads_description(text, start) {
                assert(all[k] == rest[k - 1]);
                if j > 0 {
                    assert(all[j] == rest[j - 1]);
                }
            }
        }
        assert forall|k: int| 0 <= k < all.len() implies start <= #[trigger] all[k]
            && heads_description(text, all[k]) by {
            if heads_description(text, start) && k > 0 {
                assert(all[k] == rest[k - 1]);
            }
        }
    }
}

proof fn lemma_headers_after_section(text: Seq<Seq<char>>, start: int)
    requires
        0 <= start <= text.len(),
    ensures
        description_headers(text, start) == description_headers(text, section_end(text, start)),
    decreases text.len() - start,
{
    if start < text.len() && !ends_section(text[start]) {
        lemma_headers_after_section(text, start + 1);
    }
}

proof fn lemma_described(text: Seq<Seq<char>>, start: int)
    requires
        0 <= start,
    ensures
        description_headers(text, start).len() == described(text, start).len(),
        forall|k: int|
            0 <= k < described(text, start).len() ==> is_described_at(
                text,
                description_headers(text, start)[k],
                #[trigger] described(text, start)[k],
            ),
    decreases text.len() - start,
{
    if start < text.len() {
        let all = described(text, start);
        if is_tool_header(text[start]) && is_tool_name(header_text(text[start])) {
            let end = section_end(text, start + 1);
            let rest = described(text, end);
            let full = trimmed(joined(text.subrange(start + 1, end), "\n"@));
            lemma_section_end(text, start + 1);
            lemma_section_lines(text, start + 1);
            lemma_headers_after_section(text, start + 1);
            lemma_described(text, end);
            if full.len() > 0 {
                let first = (header_text(text[start]), short_description(full), full);
                assert(all == seq![first] + rest);
                assert forall|k: int| 0 <= k < all.len() implies is_described_at(
                    text,
                    description_headers(text, start)[k],
                    #[trigger] all[k],
                ) by {
                    if k > 0 {
                        assert(all[k] == rest[k - 1]);
                    }
                }
            }
        } else {
            lemma_described(text, start + 1);
        }
    }
}

proof fn lemma_trimmed_start_first(s: Seq<char>)
    ensures
        trimmed_start(s).len() > 0 ==> !is_white_space(trimmed_start(s)[0]),
    decreases s.len(),
{
    if s.len() > 0 && is_white_space(s[0]) {
        lemma_trimmed_start_first(s.skip(1));
    }
}

proof fn lemma_trimmed_end_first(s: Seq<char>)
    ensures
        trimmed_end(s).len() > 0 ==> s.len() > 0 && trimmed_end(s)[0] == s[0],
        s.len() > 0 && !is_white_space(s[0]) ==> trimmed_end(s).len() > 0,
    decreases s.len(),
{
    if s.len() > 0 && is_white_space(s.last()) {
        lemma_trimmed_end_first(s.drop_last());
    }
}

proof fn lemma_non_blank_first(list: Seq<Seq<char>>)
    requires
        list.len() > 0,
        trimmed(list[0]).len() > 0,
    ensures
        non_blank(list).len() > 0,
        non_blank(list)[0] == list[0],
    decreases list.len(),
{
    if list.len() > 1 {
        lemma_non_blank_first(list.drop_last());
    } else {
        assert(non_blank(list.drop_last()) =~= Seq::empty());
    }
}

proof fn lemma_short_description(s: Seq<char>)
    requires
        trimmed(s).len() > 0,
    ensures
        short_description(trimmed(s)).len() > 0,
{
    let full = trimmed(s);
    lemma_trimmed_start_first(s);
    lemma_trimmed_end_first(trimmed_start(s));
    assert(!is_white_space(full[0]));
    lemma_first_index(full, '\n');
    let all = lines_of(full);
    assert(all[0].len() > 0 && all[0][0] == full[0]);
    lemma_trimmed_end_first(all[0]);
    lemma_non_blank_first(all);
    let kept = if non_blank(all).len() > 2 {
        non_blank(all).take(2)
    } else {
        non_blank(all)
    };
    let line = joined(kept, " "@);
    if kept.len() > 1 {
        lemma_joined_front(kept, " "@);
    }
    assert(line.len() > 0 && line[0] == full[0]);
    lemma_trimmed_end_first(line);
}

/// Whether no line of a text is a header.
pub open spec fn has_no_header(s: Seq<char>) -> bool {
    forall|k: int| 0 <= k < lines_of(s).len() ==> !ends_section(#[trigger] lines_of(s)[k])
}

proof fn lemma_trimmed_drop_last(s: Seq<char>)
    requires
        s.len() > 0,
        is_white_space(s.last()),
    ensures
        trimmed(s.drop_last()) == trimmed(s),
    decreases s.len(),
{
    if s.len() == 1 {
        assert(s.skip(1) =~= s.drop_last());
    } else if is_white_space(s[0]) {
        assert(s.drop_last().skip(1) =~= s.skip(1).drop_last());
        lemma_trimmed_drop_last(s.skip(1));
    }
}

proof fn lemma_same_line(s: Seq<char>)
    ensures
        trimmed(without_carriage_return(s)) == trimmed(s),
{
    if s.len() > 0 && s.last() == '\r' {
        lemma_trimmed_drop_last(s);
    }
}

proof fn lemma_joined_has_no_header(list: Seq<Seq<char>>)
    requires
        forall|k: int|
            0 <= k < list.len() ==> !(#[trigger] list[k]).contains('\n') && !ends_section(list[k]),
    ensures
        has_no_header(joined(list, "\n"@)),
    decreases list.len(),
{
    reveal_strlit("\n");
    let s = joined(list, "\n"@);
    if list.len() == 1 {
        lemma_first_index(list[0], '\n');
    } else if list.len() > 1 {
        let line = list[0];
        let rest = list.skip(1);
        let n = line.len() as int;
        lemma_joined_front(list, "\n"@);
        assert forall|k: int| 0 <= k < rest.len() implies !(#[trigger] rest[k]).contains('\n')
            && !ends_section(rest[k]) by {
            assert(rest[k] == list[k + 1]);
        }
        lemma_joined_has_no_header(rest);
        assert forall|k: int| 0 <= k < n implies s[k] != '\n' by {
            assert(s[k] == line[k]);
            assert(line.contains(line[k]));
        }
        assert(s[n] == '\n');
        lemma_first_index_is(s, '\n', n);
        assert(s.take(n) =~= line);
        assert(s.skip(n + 1) =~= joined(rest, "\n"@));
        lemma_same_line(line);
        assert forall|k: int| 0 <= k < lines_of(s).len() implies !ends_section(
            #[trigger] lines_of(s)[k],
        ) by {
            if k > 0 {
                assert(lines_of(s)[k] == lines_of(joined(rest, "\n"@))[k - 1]);
            }
        }
    }
}

proof fn lemma_no_header_skip(s: Seq<char>)
    requires
        s.len() > 0,
        is_white_space(s[0]),
        has_no_header(s),
    ensures
        has_no_header(s.skip(1)),
{
    let t = s.skip(1);
    let n = first_index(s, '\n');
    lemma_first_index(s, '\n');
    lemma_first_index(t, '\n');
    if n == 0 {
        assert forall|k: int| 0 <= k < lines_of(t).len() implies !ends_section(
            #[trigger] lines_of(t)[k],
        ) by {
            assert(lines_of(s)[k + 1] == lines_of(t)[k]);
        }
    } else {
        assert(first_index(t, '\n') == n - 1);
        if n < s.len() {
            assert(s.skip(n + 1) =~= t.skip(n));
            assert(s.take(n).skip(1) =~= t.take(n - 1));
            lemma_same_line(s.take(n));
            lemma_same_line(t.take(n - 1));
            assert(trimmed(lines_of(t)[0]) == trimmed(lines_of(s)[0]));
            assert forall|k: int| 0 <= k < lines_of(t).len() implies !ends_section(
                #[trigger] lines_of(t)[k],
            ) by {
                assert(!ends_section(lines_of(s)[k]));
            }
        } else {
            assert(!ends_section(lines_of(s)[0]));
        }
    }
}

proof fn lemma_no_header_drop_last(s: Seq<char>)
    requires
        s.len() > 0,
        is_white_space(s.last()),
        has_no_header(s),
    ensures
        has_no_header(s.drop_last()),
    decreases s.len(),
{
    let t = s.drop_last();
    let n = first_index(s, '\n');
    lemma_first_index(s, '\n');
    if n >= s.len() - 1 {
        assert(!t.contains('\n')) by {
            if t.contains('\n') {
                let k = choose|k: int| 0 <= k < t.len() && t[k] == '\n';
                assert(s[k] == '\n');
            }
        }
        lemma_first_index(t, '\n');
        assert(!ends_section(lines_of(s)[0]));
        if n >= s.len() {
            lemma_trimmed_drop_last(s);
        } else {
            assert(s.take(n) =~= t);
            lemma_same_line(t);
        }
    } else {
        let rest = s.skip(n + 1);
        lemma_first_index_is(t, '\n', n);
        assert(t.take(n) =~= s.take(n));
        assert(t.skip(n + 1) =~= rest.drop_last());
        assert forall|k: int| 0 <= k < lines_of(rest).len() implies !ends_section(
            #[trigger] lines_of(rest)[k],
        ) by {
            assert(lines_of(s)[k + 1] == lines_of(rest)[k]);
        }
        lemma_no_header_drop_last(rest);
        assert forall|k: int| 0 <= k < lines_of(t).len() implies !ends_section(
            #[trigger] lines_of(t)[k],
        ) by {
            if k > 0 {
                assert(lines_of(t)[k] == lines_of(rest.drop_last())[k - 1]);
            } else {
                assert(lines_of(t)[0] == lines_of(s)[0]);
            }
        }
    }
}

proof fn lemma_no_header_trimmed_start(s: Seq<char>)
    requires
        has_no_header(s),
    ensures
        has_no_header(trimmed_start(s)),
    decreases s.len(),
{
    if s.len() > 0 && is_white_space(s[0]) {
        lemma_no_header_skip(s);
        lemma_no_header_trimmed_start(s.skip(1));
    }
}

proof fn lemma_no_header_trimmed_end(s: Seq<char>)
    requires
        has_no_header(s),
    ensures
        has_no_header(trimmed_end(s)),
    decreases s.len(),
{
    if s.len() > 0 && is_white_space(s.last()) {
        lemma_no_header_drop_last(s);
        lemma_no_header_trimmed_end(s.drop_last());
    }
}

proof fn lemma_no_header_inside(content: Seq<char>, h: int)
    requires
        heads_description(lines_of(content), h),
    ensures
        ({
            let text = lines_of(content);
            let section = text.subrange(h + 1, section_end(text, h + 1));
            has_no_header(trimmed(joined(section, "\n"@)))
        }),
{
    let text = lines_of(content);
    let section = text.subrange(h + 1, section_end(text, h + 1));
    lemma_section_end(text, h + 1);
    lemma_section_lines(text, h + 1);
    assert forall|i: int| 0 <= i < section.len() implies !(#[trigger] section[i]).contains('\n')
        && !ends_section(section[i]) by {
        assert(section[i] == text[h + 1 + i]);
        lemma_line_chars(content, h + 1 + i);
    }
    lemma_joined_has_no_header(section);
    lemma_no_header_trimmed_start(joined(section, "\n"@));
    lemma_no_header_trimmed_end(trimmed_start(joined(section, "\n"@)));
}

/// The tools that are found are those whose headers stand in the system prompt with a
/// description below them, in the order of their headers. The name of each is the text of
/// its header and looks like the name of a tool. Its description is not empty, stands in
/// the lines below the header, and no line of it is a header. Its short description is made
/// from the whole one and is not empty.
pub proof fn law_described_tools_stand_under_their_headers(content: Seq<char>)
    ensures
        ({
            let text = lines_of(content);
            let tools = described(text, 0);
            let headers = description_headers(text, 0);
            &&& headers.len() == tools.len()
            &&& forall|k: int|
                0 <= k < tools.len() ==> {
                    &&& is_described_at(text, headers[k], #[trigger] tools[k])
                    &&& tools[k].1.len() > 0
                    &&& has_no_header(tools[k].2)
                }
            &&& forall|j: int, k: int|
                0 <= j < k < headers.len() ==> #[trigger] headers[j] < #[trigger] headers[k]
            &&& forall|h: int| headers.contains(h) <==> #[trigger] heads_description(text, h)
        }),
{
    let text = lines_of(content);
    let tools = described(text, 0);
    let headers = description_headers(text, 0);
    lemma_headers(text, 0);
    lemma_described(text, 0);
    assert forall|k: int| 0 <= k < tools.len() implies is_described_at(
        text,
        headers[k],
        #[trigger] tools[k],
    ) && tools[k].1.len() > 0 && has_no_header(tools[k].2) by {
        let h = headers[k];
        lemma_no_header_inside(content, h);
        lemma_short_description(
            joined(text.subrange(h + 1, section_end(text, h + 1)), "\n"@),
        );
    }
    assert forall|h: int| headers.contains(h) <==> #[trigger] heads_description(text, h) by {
        if headers.contains(h) {
            let k = choose|k: int| 0 <= k < headers.len() && headers[k] == h;
            assert(heads_description(text, headers[k]));
        }
    }
}

/// A text looks like the name of a tool exactly if it begins with a letter from A to Z, takes fewer
/// than forty bytes and holds no full stop. It begins with an ASCII character here.
pub proof fn law_tool_names_are_short_and_capitalised(name: Seq<char>)
    requires
        name.len() > 0 ==> name[0] <= '\u{7f}',
    ensures
        is_tool_name(name) <==> name.len() > 0 && 'A' <= name[0] <= 'Z' && byte_len(name) < 40
            && !name.contains('.'),
{
}

proof fn lemma_header_line(marks: Seq<char>, name: Seq<char>)
    requires
        marks == "### "@ || marks == "## "@,
        name.len() > 0,
        !is_white_space(name[0]) && !is_white_space(name.last()),
        name[0] != '#',
    ensures
        trimmed(marks + name) == marks + name,
        header_text(marks + name) == name,
        is_tool_header(marks + name) == (marks == "### "@),
        ends_section(marks + name),
{
    reveal_strlit("### ");
    reveal_strlit("## ");
    let line = marks + name;
    let none = Seq::<char>::empty();
    assert(none + line + none =~= line);
    assert(line.last() == name.last());
    assert(line[0] == '#');
    law_white_space_is_trimmed(none, line, none);
    let n = marks.len() as int;
    lemma_without_marks(line, n - 1);
    assert(line.skip(n - 1) =~= seq![' '] + name + none);
    law_white_space_is_trimmed(seq![' '], name, none);
    assert(line.take(n) =~= marks);
    assert("### "@.is_prefix_of(line) <==> marks == "### "@) by {
        if marks == "## "@ {
            assert(line[2] == ' ');
            assert("### "@[2] == '#');
        } else {
            assert("### "@ =~= line.take(4));
        }
    }
    assert(marks == "## "@ ==> "## "@ =~= line.take(3));
    assert("### "@.len() == 4 && "## "@.len() == 3);
}

proof fn lemma_without_marks(line: Seq<char>, n: int)
    requires
        0 <= n < line.len(),
        forall|k: int| 0 <= k < n ==> #[trigger] line[k] == '#',
        line[n] != '#',
    ensures
        without_leading(line, '#') == line.skip(n),
    decreases n,
{
    if n > 0 {
        assert(line[0] == '#');
        let rest = line.skip(1);
        assert forall|k: int| 0 <= k < n - 1 implies #[trigger] rest[k] == '#' by {
            assert(rest[k] == line[k + 1]);
        }
        lemma_without_marks(rest, n - 1);
        assert(rest.skip(n - 1) =~= line.skip(n));
    } else {
        assert(line.skip(0) =~= line);
    }
}

/// A header of the third level with the name of a tool, and a text below it without headers, are
/// found as that tool with that description.
pub proof fn law_tool_under_its_header_is_found(name: Seq<char>, body: Seq<char>)
    requires
        name.len() > 0,
        'A' <= name[0] <= 'Z',
        !is_white_space(name.last()),
        byte_len(name) < 40,
        !name.contains('.'),
        !name.contains('\n'),
        has_no_header(body),
        trimmed(joined(lines_of(body), "\n"@)).len() > 0,
    ensures
        described(lines_of("### "@ + name + "\n"@ + body), 0) == seq![
            (
                name,
                short_description(trimmed(joined(lines_of(body), "\n"@))),
                trimmed(joined(lines_of(body), "\n"@)),
            ),
        ],
{
    reveal_strlit("### ");
    reveal_strlit("\n");
    let line = "### "@ + name;
    assert(!line.contains('\n')) by {
        if line.contains('\n') {
            let k = choose|k: int| 0 <= k < line.len() && line[k] == '\n';
            assert(line[k] == name[k - 4]);
            assert(name.contains(name[k - 4]));
        }
    }
    law_line_feeds_end_lines(line, body);
    assert(line + seq!['\n'] + body =~= "### "@ + name + "\n"@ + body);
    let text = lines_of("### "@ + name + "\n"@ + body);
    assert(line.last() == name.last());
    assert(text =~= seq![line] + lines_of(body));
    lemma_header_line("### "@, name);
    assert(is_tool_name(name));
    let n = text.len() as int;
    assert forall|k: int| 1 <= k < n implies !ends_section(#[trigger] text[k]) by {
        assert(text[k] == lines_of(body)[k - 1]);
    }
    lemma_section_to_the_end(text, 1);
    assert(text.subrange(1, n) =~= lines_of(body));
    assert(text[0] == line);
    let full = trimmed(joined(lines_of(body), "\n"@));
    assert(described(text, n) =~= Seq::empty());
    assert(described(text, 0) =~= seq![(name, short_description(full), full)]);
}

proof fn lemma_section_to_the_end(text: Seq<Seq<char>>, start: int)
    requires
        0 <= start <= text.len(),
        forall|k: int| start <= k < text.len() ==> !ends_section(#[trigger] text[k]),
    ensures
        section_end(text, start) == text.len(),
    decreases text.len() - start,
{
    if start < text.len() {
        lemma_section_to_the_end(text, start + 1);
    }
}

/// A header of the second level ends a section and names no tool, and so does one of the third
/// level, which may name one. Lines without a number sign do neither.
pub proof fn law_headers_end_sections(name: Seq<char>, line: Seq<char>)
    requires
        name.len() > 0,
        !is_white_space(name[0]) && !is_white_space(name.last()),
        name[0] != '#',
        trimmed(line).len() == 0 || trimmed(line)[0] != '#',
    ensures
        ends_section("## "@ + name) && !is_tool_header("## "@ + name),
        ends_section("### "@ + name) && is_tool_header("### "@ + name),
        !ends_section(line) && !is_tool_header(line),
{
    lemma_header_line("## "@, name);
    lemma_header_line("### "@, name);
    reveal_strlit("### ");
    reveal_strlit("## ");
    assert("### "@.len() == 4 && "## "@.len() == 3);
    assert("### "@ != "## "@);
    let t = trimmed(line);
    if "### "@.is_prefix_of(t) {
        assert("### "@[0] == t[0]);
    }
    if "## "@.is_prefix_of(t) {
        assert("## "@[0] == t[0]);
    }
}

proof fn lemma_non_blank_filter(list: Seq<Seq<char>>)
    ensures
        non_blank(list) == list.filter(|line: Seq<char>| trimmed(line).len() > 0),
    decreases list.len(),
{
    reveal(Seq::filter);
    if list.len() > 0 {
        lemma_non_blank_filter(list.drop_last());
    } else {
        assert(non_blank(list) =~= list);
    }
}

/// A short description is made of the first two lines that are not blank, with a space between, or
/// of the only one.
pub proof fn law_short_descriptions_have_two_lines(full: Seq<char>)
    ensures
        ({
            let kept = lines_of(full).filter(|line: Seq<char>| trimmed(line).len() > 0);
            &&& kept.len() == 1 ==> short_description(full) == trimmed(kept[0])
            &&& kept.len() > 1 ==> short_description(full) == trimmed(kept[0] + " "@ + kept[1])
        }),
{
    let kept = lines_of(full).filter(|line: Seq<char>| trimmed(line).len() > 0);
    lemma_non_blank_filter(lines_of(full));
    if kept.len() > 1 {
        let two = kept.take(2);
        assert(two.drop_last() =~= seq![kept[0]]);
        assert(joined(seq![kept[0]], " "@) == kept[0]);
        assert(joined(two, " "@) == kept[0] + " "@ + kept[1]);
        if kept.len() == 2 {
            assert(two =~= kept);
        }
    }
}

} // verus!
