//! HTML text: escaping, and what is left of markup without its tags.
use vstd::prelude::*;

verus! {

/// A character as HTML text.
pub open spec fn escaped_char(c: char) -> Seq<char> {
    if c == '&' {
        "&amp;"@
    } else if c == '<' {
        "&lt;"@
    } else if c == '>' {
        "&gt;"@
    } else {
        seq![c]
    }
}

/// A text as HTML text: each `&`, `<` and `>` is replaced by its entity.
pub open spec fn escaped(s: Seq<char>) -> Seq<char>
    decreases s.len(),
{
    if s.len() == 0 {
        Seq::empty()
    } else {
        escaped(s.drop_last()) + escaped_char(s.last())
    }
}

/// `html_escape::encode_text` replaces every `&`, `<` and `>` of the text by
/// `&amp;`, `&lt;` and `&gt;` and keeps every other character.
#[verifier::external_body]
pub(crate) fn encode_text(text: &str) -> (r: String)
    ensures
        r@ == escaped(text@),
{
    html_escape::encode_text(text).into_owned()
}

/// Appends `text`, escaped, to `out`.
pub fn push_escaped(out: &mut String, text: &str)
    ensures
        final(out)@ == old(out)@ + escaped(text@),
{
    out.push_str(encode_text(text).as_str());
}

/// `text`, escaped, between `before` and `after`.
pub fn wrap_text(before: &str, text: &str, after: &str) -> (r: String)
    ensures
        r@ == before@ + escaped(text@) + after@,
{
    let mut r = before.to_string();
    push_escaped(&mut r, text);
    r.push_str(after);
    r
}

/// Whether no angle bracket stands in `s`.
pub open spec fn no_angle_brackets(s: Seq<char>) -> bool {
    forall|i: int| 0 <= i < s.len() ==> #[trigger] s[i] != '<' && s[i] != '>'
}

/// Whether, after `s`, one is inside a tag.
pub open spec fn ends_inside_tag(s: Seq<char>, inside: bool) -> bool
    decreases s.len(),
{
    if s.len() == 0 {
        inside
    } else if inside {
        ends_inside_tag(s.skip(1), s[0] != '>')
    } else {
        ends_inside_tag(s.skip(1), s[0] == '<')
    }
}

/// The characters of `s` that stand outside of tags.
pub open spec fn without_tags(s: Seq<char>, inside: bool) -> Seq<char>
    decreases s.len(),
{
    if s.len() == 0 {
        Seq::empty()
    } else if inside {
        without_tags(s.skip(1), s[0] != '>')
    } else if s[0] == '<' {
        without_tags(s.skip(1), true)
    } else {
        seq![s[0]] + without_tags(s.skip(1), false)
    }
}

/// Tags are removed from a concatenation part by part.
pub proof fn lemma_without_tags_concat(a: Seq<char>, b: Seq<char>, inside: bool)
    ensures
        without_tags(a + b, inside) == without_tags(a, inside) + without_tags(
            b,
            ends_inside_tag(a, inside),
        ),
        ends_inside_tag(a + b, inside) == ends_inside_tag(b, ends_inside_tag(a, inside)),
    decreases a.len(),
{
    if a.len() == 0 {
        assert(a + b =~= b);
        assert(without_tags(a + b, inside) =~= without_tags(a, inside) + without_tags(b, inside));
    } else {
        let next = if inside { a[0] != '>' } else { a[0] == '<' };
        assert((a + b).skip(1) =~= a.skip(1) + b);
        lemma_without_tags_concat(a.skip(1), b, next);
        assert(without_tags(a + b, inside) =~= without_tags(a, inside) + without_tags(
            b,
            ends_inside_tag(a, inside),
        ));
    }
}

/// Text without angle brackets is kept outside of a tag and removed inside of one.
pub proof fn lemma_without_tags_text(s: Seq<char>, inside: bool)
    requires
        no_angle_brackets(s),
    ensures
        without_tags(s, inside) == if inside { Seq::empty() } else { s },
        ends_inside_tag(s, inside) == inside,
    decreases s.len(),
{
    if s.len() > 0 {
        assert(s[0] != '<' && s[0] != '>');
        assert(no_angle_brackets(s.skip(1)));
        lemma_without_tags_text(s.skip(1), inside);
        assert(seq![s[0]] + s.skip(1) =~= s);
    }
}

/// A tag without angle brackets inside of it is removed whole.
pub proof fn lemma_without_tags_tag(tag: Seq<char>)
    requires
        tag.len() >= 2,
        tag[0] == '<',
        tag.last() == '>',
        no_angle_brackets(tag.subrange(1, tag.len() - 1)),
    ensures
        without_tags(tag, false) == Seq::<char>::empty(),
        !ends_inside_tag(tag, false),
{
    let body = tag.subrange(1, tag.len() - 1);
    let tail = seq!['>'];
    assert(tag.skip(1) =~= body + tail);
    lemma_without_tags_concat(body, tail, true);
    lemma_without_tags_text(body, true);
    assert(tail.skip(1).len() == 0);
    assert(without_tags(tail, true) == without_tags(tail.skip(1), false));
    assert(ends_inside_tag(tail, true) == ends_inside_tag(tail.skip(1), false));
    assert(without_tags(tag, false) =~= Seq::<char>::empty());
}

/// Escaped text holds no angle brackets, whatever the text.
pub proof fn law_escaped_has_no_angle_brackets(s: Seq<char>)
    ensures
        no_angle_brackets(escaped(s)),
    decreases s.len(),
{
    if s.len() > 0 {
        law_escaped_has_no_angle_brackets(s.drop_last());
        reveal_strlit("&amp;");
        reveal_strlit("&lt;");
        reveal_strlit("&gt;");
    }
}

/// Escaping a concatenation escapes its parts.
pub proof fn lemma_escaped_concat(a: Seq<char>, b: Seq<char>)
    ensures
        escaped(a + b) == escaped(a) + escaped(b),
    decreases b.len(),
{
    if b.len() == 0 {
        assert(a + b =~= a);
        assert(escaped(a) + escaped(b) =~= escaped(a));
    } else {
        assert((a + b).drop_last() =~= a + b.drop_last());
        lemma_escaped_concat(a, b.drop_last());
        assert(escaped(a + b) =~= escaped(a) + escaped(b));
    }
}

/// The text that HTML text with the entities of `&`, `<` and `>` stands for.
pub open spec fn unescaped(s: Seq<char>) -> Seq<char>
    decreases s.len(),
{
    proof {
        reveal_strlit("&amp;");
        reveal_strlit("&lt;");
        reveal_strlit("&gt;");
    }
    if s.len() == 0 {
        Seq::empty()
    } else if "&amp;"@.is_prefix_of(s) {
        seq!['&'] + unescaped(s.skip(5))
    } else if "&lt;"@.is_prefix_of(s) {
        seq!['<'] + unescaped(s.skip(4))
    } else if "&gt;"@.is_prefix_of(s) {
        seq!['>'] + unescaped(s.skip(4))
    } else {
        seq![s[0]] + unescaped(s.skip(1))
    }
}

/// Escaping loses nothing: reading the entities back gives the text.
pub proof fn law_unescaped_escaped(s: Seq<char>)
    ensures
        unescaped(escaped(s)) == s,
    decreases s.len(),
{
    reveal_strlit("&amp;");
    reveal_strlit("&lt;");
    reveal_strlit("&gt;");
    if s.len() > 0 {
        let head = seq![s[0]];
        let rest = s.skip(1);
        assert(s =~= head + rest);
        lemma_escaped_concat(head, rest);
        assert(escaped(head.drop_last()) =~= Seq::empty());
        assert(head.last() == s[0]);
        let e = escaped_char(s[0]);
        assert(escaped(head) =~= e);
        law_unescaped_escaped(rest);
        let all = e + escaped(rest);
        assert(all.skip(e.len() as int) =~= escaped(rest));
        if s[0] == '&' {
            assert("&amp;"@.is_prefix_of(all));
        } else if s[0] == '<' {
            assert("&lt;"@.is_prefix_of(all));
            assert(all[1] == 'l');
            assert(!"&amp;"@.is_prefix_of(all)) by {
                assert("&amp;"@[1] == 'a');
            }
        } else if s[0] == '>' {
            assert("&gt;"@.is_prefix_of(all));
            assert(all[1] == 'g');
            assert(!"&amp;"@.is_prefix_of(all)) by {
                assert("&amp;"@[1] == 'a');
            }
            assert(!"&lt;"@.is_prefix_of(all)) by {
                assert("&lt;"@[1] == 'l');
            }
        } else {
            assert(all[0] == s[0]);
            assert("&amp;"@[0] == '&' && "&lt;"@[0] == '&' && "&gt;"@[0] == '&');
        }
    }
}

/// Escaping keeps every character but `&`, `<` and `>`, which are replaced by their entities.
pub proof fn law_characters_are_escaped(a: Seq<char>, c: char, b: Seq<char>)
    ensures
        escaped(a + seq![c] + b) == escaped(a) + (if c == '&' {
            "&amp;"@
        } else if c == '<' {
            "&lt;"@
        } else if c == '>' {
            "&gt;"@
        } else {
            seq![c]
        }) + escaped(b),
{
    lemma_escaped_concat(a + seq![c], b);
    lemma_escaped_concat(a, seq![c]);
    assert(seq![c].drop_last() =~= Seq::empty());
    assert(escaped(seq![c].drop_last()) =~= Seq::empty());
    assert(escaped(seq![c]) =~= escaped_char(c));
}

} // verus!
