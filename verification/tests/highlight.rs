use continue_transcripts::highlight::{highlight_code, normalize_lang, restyle};

#[test]
fn languages_have_other_names() {
    assert_eq!(normalize_lang("cc"), "c++");
    assert_eq!(normalize_lang("rust"), "rust");
}

#[test]
fn syntaxes_have_different_names() {
    let set = syntect::parsing::SyntaxSet::load_defaults_newlines();
    let mut names: Vec<&str> = set.syntaxes().iter().map(|s| s.name.as_str()).collect();
    let count = names.len();
    names.sort();
    names.dedup();
    assert_eq!(names.len(), count);
}

#[test]
fn code_is_highlighted_as_syntect_does() {
    let set = syntect::parsing::SyntaxSet::load_defaults_newlines();
    let themes = syntect::highlighting::ThemeSet::load_defaults();
    let syntax = set.find_syntax_by_token("rust").unwrap();
    let wanted = syntect::html::highlighted_html_for_string(
        "fn main() {}\n",
        &set,
        syntax,
        &themes.themes["base16-ocean.dark"],
    )
    .unwrap();
    assert_eq!(highlight_code("rust", "fn main() {}\n"), Some(wanted.clone()));
    assert_eq!(highlight_code("rs", "fn main() {}\n"), Some(wanted));
    assert_eq!(highlight_code("no-such-language", "x"), None);
}

#[test]
fn only_the_first_style_is_replaced() {
    assert_eq!(
        restyle("<pre style=\"a\"><b style=\"c\">".to_string(), "class=\"d\""),
        "<pre class=\"d\"><b style=\"c\">"
    );
    assert_eq!(restyle("<pre>".to_string(), "x"), "<pre>");
    assert_eq!(restyle("<pre style=\"open".to_string(), "x"), "<pre style=\"open");
}
