//! Syntax highlighting of code.
use crate::text::{
    char_index, chars_of, find_from, find_text, first_index, lemma_find_from,
    lemma_first_index_is, occurs_at, opt_view, same_text,
};
use vstd::prelude::*;

verus! {

/// The token of the default syntax set for a common alias of a language.
pub open spec fn canonical_language(lang: Seq<char>) -> Seq<char> {
    if lang == "typescript"@ || lang == "ts"@ || lang == "tsx"@ || lang == "jsx"@ {
        "javascript"@
    } else if lang == "sh"@ || lang == "zsh"@ || lang == "shell"@ {
        "bash"@
    } else if lang == "yml"@ {
        "yaml"@
    } else if lang == "dockerfile"@ {
        "Dockerfile"@
    } else if lang == "md"@ {
        "markdown"@
    } else if lang == "py"@ {
        "python"@
    } else if lang == "rb"@ {
        "ruby"@
    } else if lang == "rs"@ {
        "rust"@
    } else if lang == "cs"@ {
        "c#"@
    } else if lang == "cxx"@ || lang == "cc"@ || lang == "hpp"@ {
        "c++"@
    } else {
        lang
    }
}

/// Maps common language aliases to tokens that the default syntax set recognises.
pub fn normalize_lang<'a>(lang: &'a str) -> (r: &'a str)
    ensures
        r@ == canonical_language(lang@),
{
    if same_text(lang, "typescript") || same_text(lang, "ts") || same_text(lang, "tsx")
        || same_text(lang, "jsx") {
        "javascript"
    } else if same_text(lang, "sh") || same_text(lang, "zsh") || same_text(lang, "shell") {
        "bash"
    } else if same_text(lang, "yml") {
        "yaml"
    } else if same_text(lang, "dockerfile") {
        "Dockerfile"
    } else if same_text(lang, "md") {
        "markdown"
    } else if same_text(lang, "py") {
        "python"
    } else if same_text(lang, "rb") {
        "ruby"
    } else if same_text(lang, "rs") {
        "rust"
    } else if same_text(lang, "cs") {
        "c#"
    } else if same_text(lang, "cxx") || same_text(lang, "cc") || same_text(lang, "hpp") {
        "c++"
    } else {
        lang
    }
}

/// The name of the syntax that `SyntaxSet::find_syntax_by_token` finds for a
/// token in the default set for lines with line feeds.
pub uninterp spec fn syntax_by_token(token: Seq<char>) -> Option<Seq<char>>;

/// `SyntaxSet::find_syntax_by_token` looks a token up in the default set, first
/// among the file extensions and then among the names, without regard to case.
#[verifier::external_body]
fn find_by_token(token: &str) -> (r: Option<String>)
    ensures
        opt_view(r) == syntax_by_token(token@),
{
    let set = syntect::parsing::SyntaxSet::load_defaults_newlines();
    set.find_syntax_by_token(token).map(|syntax| syntax.name.clone())
}

/// The name of the syntax that `SyntaxSet::find_syntax_by_extension` finds for a
/// file extension in the default set for lines with line feeds.
pub uninterp spec fn syntax_by_extension(extension: Seq<char>) -> Option<Seq<char>>;

/// `SyntaxSet::find_syntax_by_extension` looks a file extension up in the
/// default set, without regard to case.
#[verifier::external_body]
fn find_by_extension(extension: &str) -> (r: Option<String>)
    ensures
        opt_view(r) == syntax_by_extension(extension@),
{
    let set = syntect::parsing::SyntaxSet::load_defaults_newlines();
    set.find_syntax_by_extension(extension).map(|syntax| syntax.name.clone())
}

/// The name of the syntax that `SyntaxSet::find_syntax_by_name` finds for a name
/// in the default set for lines with line feeds.
pub uninterp spec fn syntax_by_name(name: Seq<char>) -> Option<Seq<char>>;

/// `SyntaxSet::find_syntax_by_name` looks a name up in the default set. The
/// syntax that it finds has that name.
#[verifier::external_body]
fn find_by_name(name: &str) -> (r: Option<String>)
    ensures
        opt_view(r) == syntax_by_name(name@),
        r matches Some(found) ==> found@ == name@,
{
    let set = syntect::parsing::SyntaxSet::load_defaults_newlines();
    set.find_syntax_by_name(name).map(|syntax| syntax.name.clone())
}

/// The HTML that `highlighted_html_for_string` gives for code, in the syntax and
/// with the theme of these names, both out of the default sets.
pub uninterp spec fn highlighted_as(
    syntax: Seq<char>,
    theme: Seq<char>,
    code: Seq<char>,
) -> Option<Seq<char>>;

/// `syntect::html::highlighted_html_for_string` highlights code in a syntax of
/// the default set, with a theme of the default set. There is no HTML if there
/// is no syntax or no theme of that name, or if the code cannot be parsed.
#[verifier::external_body]
fn highlight_as(syntax: &str, theme: &str, code: &str) -> (r: Option<String>)
    ensures
        opt_view(r) == highlighted_as(syntax@, theme@, code@),
{
    let set = syntect::parsing::SyntaxSet::load_defaults_newlines();
    let syntax = set.find_syntax_by_name(syntax)?;
    let themes = syntect::highlighting::ThemeSet::load_defaults();
    let theme = themes.themes.get(theme)?;
    syntect::html::highlighted_html_for_string(code, &set, syntax, theme).ok()
}

/// The name of the syntax for a language token: by token, else by file
/// extension, else by name.
pub open spec fn syntax_for(token: Seq<char>) -> Option<Seq<char>> {
    if syntax_by_token(token) is Some {
        syntax_by_token(token)
    } else if syntax_by_extension(token) is Some {
        syntax_by_extension(token)
    } else {
        syntax_by_name(token)
    }
}

/// The highlighted HTML of `code` in the language `lang`, if the language is known.
pub open spec fn highlighted(lang: Seq<char>, code: Seq<char>) -> Option<Seq<char>> {
    match syntax_for(canonical_language(lang)) {
        Some(syntax) => highlighted_as(syntax, "base16-ocean.dark"@, code),
        None => None,
    }
}

/// Finds the syntax for a language token.
fn find_syntax(token: &str) -> (r: Option<String>)
    ensures
        opt_view(r) == syntax_for(token@),
{
    let by_token = find_by_token(token);
    if by_token.is_some() {
        return by_token;
    }
    let by_extension = find_by_extension(token);
    if by_extension.is_some() {
        return by_extension;
    }
    find_by_name(token)
}

/// Attempts to syntax-highlight `code` for the given language token. Gives HTML
/// with inline styles, or nothing if the language is not recognised.
pub fn highlight_code(lang: &str, code: &str) -> (r: Option<String>)
    ensures
        opt_view(r) == highlighted(lang@, code@),
{
    match find_syntax(normalize_lang(lang)) {
        Some(syntax) => highlight_as(syntax.as_str(), "base16-ocean.dark", code),
        None => None,
    }
}

/// `html` with its first `style` attribute replaced by `attribute`. Without a
/// complete one it stays as it is.
pub open spec fn restyled(html: Seq<char>, attribute: Seq<char>) -> Seq<char> {
    match find_from(html, "style=\""@, 0) {
        Some(start) => {
            let value = html.skip(start + "style=\""@.len());
            if first_index(value, '"') < value.len() {
                html.take(start) + attribute + value.skip(first_index(value, '"') + 1)
            } else {
                html
            }
        },
        None => html,
    }
}

/// Replaces the first `style` attribute of `html`.
pub fn restyle(html: String, attribute: &str) -> (r: String)
    ensures
        r@ == restyled(html@, attribute@),
{
    proof {
        reveal_strlit("style=\"");
        lemma_find_from(html@, "style=\""@, 0);
    }
    match find_text(html.as_str(), "style=\"", 0) {
        None => html,
        Some(start) => {
            let v = chars_of(html.as_str());
            let n: usize = v.len();
            let after: usize = start + 7;
            let end: usize = char_index(&v, '"', after);
            if end == n {
                return html;
            }
            let mut r = html.as_str().substring_char(0, start).to_string();
            r.push_str(attribute);
            r.push_str(html.as_str().substring_char(end + 1, n));
            proof {
                let value = html@.skip(after as int);
                assert(html@.subrange(0, start as int) =~= html@.take(start as int));
                assert(html@.subrange(end + 1, n as int) =~= value.skip(end - after + 1));
            }
            r
        },
    }
}

/// Code in a language that is known by another name is highlighted as in that language.
pub proof fn law_aliases_are_highlighted_alike(alias: Seq<char>, lang: Seq<char>, code: Seq<char>)
    requires
        ((alias == "typescript"@ || alias == "ts"@ || alias == "tsx"@ || alias == "jsx"@) && lang
            == "javascript"@) || ((alias == "sh"@ || alias == "zsh"@ || alias == "shell"@) && lang
            == "bash"@) || (alias == "yml"@ && lang == "yaml"@) || (alias == "dockerfile"@ && lang
            == "Dockerfile"@) || (alias == "md"@ && lang == "markdown"@) || (alias == "py"@ && lang
            == "python"@) || (alias == "rb"@ && lang == "ruby"@) || (alias == "rs"@ && lang
            == "rust"@) || (alias == "cs"@ && lang == "c#"@) || ((alias == "cxx"@ || alias
            == "cc"@ || alias == "hpp"@) && lang == "c++"@),
    ensures
        canonical_language(alias) == lang,
        canonical_language(lang) == lang,
        highlighted(alias, code) == highlighted(lang, code),
{
    reveal_strlit("typescript");
    reveal_strlit("ts");
    reveal_strlit("tsx");
    reveal_strlit("jsx");
    reveal_strlit("javascript");
    reveal_strlit("sh");
    reveal_strlit("zsh");
    reveal_strlit("shell");
    reveal_strlit("bash");
    reveal_strlit("yml");
    reveal_strlit("yaml");
    reveal_strlit("dockerfile");
    reveal_strlit("Dockerfile");
    reveal_strlit("md");
    reveal_strlit("markdown");
    reveal_strlit("py");
    reveal_strlit("python");
    reveal_strlit("rb");
    reveal_strlit("ruby");
    reveal_strlit("rs");
    reveal_strlit("rust");
    reveal_strlit("cs");
    reveal_strlit("c#");
    reveal_strlit("cxx");
    reveal_strlit("cc");
    reveal_strlit("hpp");
    reveal_strlit("c++");
    let c = |s: Seq<char>, i: int| s[i];
    assert(c("ts"@, 0) == 't' && c("sh"@, 0) == 's' && c("md"@, 0) == 'm' && c("py"@, 0) == 'p'
        && c("rb"@, 0) == 'r' && c("rb"@, 1) == 'b' && c("rs"@, 0) == 'r' && c("rs"@, 1) == 's'
        && c("cs"@, 0) == 'c' && c("cs"@, 1) == 's' && c("cc"@, 0) == 'c' && c("cc"@, 1) == 'c'
        && c("c#"@, 0) == 'c' && c("c#"@, 1) == '#');
    assert(c("tsx"@, 0) == 't' && c("jsx"@, 0) == 'j' && c("zsh"@, 0) == 'z' && c("yml"@, 0) == 'y'
        && c("cxx"@, 0) == 'c' && c("cxx"@, 1) == 'x' && c("hpp"@, 0) == 'h' && c("c++"@, 0) == 'c'
        && c("c++"@, 1) == '+');
    assert(c("typescript"@, 0) == 't' && c("javascript"@, 0) == 'j' && c("dockerfile"@, 0) == 'd'
        && c("Dockerfile"@, 0) == 'D');
    assert("typescript"@.len() == 10 && "ts"@.len() == 2 && "tsx"@.len() == 3 && "jsx"@.len() == 3
        && "javascript"@.len() == 10 && "sh"@.len() == 2 && "zsh"@.len() == 3 && "shell"@.len()
        == 5 && "bash"@.len() == 4 && "yml"@.len() == 3 && "yaml"@.len() == 4);
    assert("dockerfile"@.len() == 10 && "Dockerfile"@.len() == 10 && "md"@.len() == 2
        && "markdown"@.len() == 8 && "py"@.len() == 2 && "python"@.len() == 6 && "rb"@.len() == 2
        && "ruby"@.len() == 4 && "rs"@.len() == 2 && "rust"@.len() == 4);
    assert("cs"@.len() == 2 && "c#"@.len() == 2 && "cxx"@.len() == 3 && "cc"@.len() == 2
        && "hpp"@.len() == 3 && "c++"@.len() == 3);
}

/// A language that is no alias of another keeps its name.
pub proof fn law_other_languages_keep_their_name(lang: Seq<char>)
    requires
        lang != "typescript"@ && lang != "ts"@ && lang != "tsx"@ && lang != "jsx"@ && lang != "sh"@
            && lang != "zsh"@ && lang != "shell"@ && lang != "yml"@ && lang != "dockerfile"@ && lang
            != "md"@ && lang != "py"@ && lang != "rb"@ && lang != "rs"@ && lang != "cs"@ && lang
            != "cxx"@ && lang != "cc"@ && lang != "hpp"@,
    ensures
        canonical_language(lang) == lang,
{
}

/// A language is looked up by token, then by file extension and then by name, and its code is
/// highlighted with one theme. Code in a language that is not found is not highlighted.
pub proof fn law_languages_are_looked_up_in_turn(lang: Seq<char>, code: Seq<char>)
    requires
        canonical_language(lang) == lang,
    ensures
        syntax_by_token(lang) matches Some(syntax) ==> highlighted(lang, code) == highlighted_as(
            syntax,
            "base16-ocean.dark"@,
            code,
        ),
        syntax_by_token(lang) is None ==> (syntax_by_extension(lang) matches Some(syntax)
            ==> highlighted(lang, code) == highlighted_as(syntax, "base16-ocean.dark"@, code)),
        syntax_by_token(lang) is None && syntax_by_extension(lang) is None ==> match syntax_by_name(
            lang,
        ) {
            Some(syntax) => highlighted(lang, code) == highlighted_as(
                syntax,
                "base16-ocean.dark"@,
                code,
            ),
            None => highlighted(lang, code) is None,
        },
{
}

/// The first `style` attribute is replaced, with its value, and all else is kept. Without one the
/// HTML stays as it is.
pub proof fn law_first_style_is_replaced(
    before: Seq<char>,
    value: Seq<char>,
    after: Seq<char>,
    attribute: Seq<char>,
)
    requires
        !value.contains('"'),
        forall|i: int|
            0 <= i < before.len() ==> !(#[trigger] occurs_at(
                before + "style=\""@ + value + seq!['"'] + after,
                "style=\""@,
                i,
            )),
    ensures
        restyled(before + "style=\""@ + value + seq!['"'] + after, attribute) == before + attribute
            + after,
{
    let html = before + "style=\""@ + value + seq!['"'] + after;
    let pattern = "style=\""@;
    let n = before.len() as int;
    lemma_find_from(html, pattern, 0);
    assert(html.subrange(n, n + pattern.len()) =~= pattern);
    assert(occurs_at(html, pattern, n));
    assert(find_from(html, pattern, 0) == Some(n)) by {
        if let Some(i) = find_from(html, pattern, 0) {
            if i < n {
                assert(occurs_at(html, pattern, i));
            } else if i > n {
                assert(!occurs_at(html, pattern, n));
            }
        }
    }
    let rest = html.skip(n + pattern.len());
    let m = value.len() as int;
    assert(rest =~= value + seq!['"'] + after);
    assert forall|k: int| 0 <= k < m implies rest[k] != '"' by {
        assert(rest[k] == value[k]);
        assert(value.contains(value[k]));
    }
    assert(rest[m] == '"');
    lemma_first_index_is(rest, '"', m);
    assert(rest.skip(m + 1) =~= after);
    assert(html.take(n) =~= before);
}

/// HTML without a `style` attribute stays as it is.
pub proof fn law_html_without_style_is_kept(html: Seq<char>, attribute: Seq<char>)
    requires
        forall|i: int| !(#[trigger] occurs_at(html, "style=\""@, i)),
    ensures
        restyled(html, attribute) == html,
{
    lemma_find_from(html, "style=\""@, 0);
}

} // verus!
