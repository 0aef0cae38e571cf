use continue_transcripts::markdown::{cut_at_code_blocks, markdown_to_html, MarkdownEvent, Part};

#[test]
fn test_markdown_to_html() {
    let html = markdown_to_html("**bold** text");
    assert!(html.contains("<strong>bold</strong>"));
}

#[test]
fn test_markdown_code_block() {
    let md = "```rust\nfn main() {}\n```";
    let html = markdown_to_html(md);
    assert!(html.contains("<pre"));
    // Syntax-highlighted blocks use inline <span> styles
    assert!(html.contains("fn"));
}

#[test]
fn markdown_is_rendered_by_its_structure() {
    assert_eq!(markdown_to_html("hi"), "<p>hi</p>\n");
    assert_eq!(markdown_to_html("~~old~~"), "<p><del>old</del></p>\n");
    assert_eq!(markdown_to_html("1 < 2 & 3"), "<p>1 &lt; 2 &amp; 3</p>\n");
    assert!(markdown_to_html("| a |\n|---|\n| b |").contains("<table>"));
    assert!(markdown_to_html("- [x] done").contains("checkbox"));
    assert_eq!(markdown_to_html(""), "");
}

#[test]
fn code_without_a_language_is_escaped() {
    assert_eq!(
        markdown_to_html("```\na < b\n```"),
        "<pre><code>a &lt; b\n</code></pre>"
    );
    assert_eq!(
        markdown_to_html("    a & b"),
        "<pre><code>a &amp; b</code></pre>"
    );
}

#[test]
fn code_in_an_unknown_language_names_it() {
    assert_eq!(
        markdown_to_html("```no-such-language\nx > y\n```"),
        "<pre><code class=\"language-no-such-language\">x &gt; y\n</code></pre>"
    );
}

#[test]
fn highlighted_code_has_a_class_in_place_of_a_style() {
    let html = markdown_to_html("```rust\nfn main() {}\n```");
    assert!(html.starts_with("<pre class=\"highlighted-code\">"));
    assert!(html.contains("style=\"color:"));
}

fn run(from: usize, count: usize) -> String {
    format!("run {} {}", from, count)
}

fn cut(events: Vec<MarkdownEvent>) -> Vec<String> {
    cut_at_code_blocks(&events)
        .into_iter()
        .map(|part| match part {
            Part::Run { from, count } => run(from, count),
            Part::Block(html) => html,
        })
        .collect()
}

#[test]
fn events_of_a_block_become_one_block() {
    assert_eq!(
        cut(vec![
            MarkdownEvent::Other,
            MarkdownEvent::Text("a".to_string()),
            MarkdownEvent::FencedStart("no-such-language".to_string()),
            MarkdownEvent::Text("x <".to_string()),
            MarkdownEvent::Text(" y".to_string()),
            MarkdownEvent::CodeEnd,
            MarkdownEvent::IndentedStart,
            MarkdownEvent::Text("z".to_string()),
            MarkdownEvent::CodeEnd,
            MarkdownEvent::Text("b".to_string()),
        ]),
        vec![
            run(0, 2),
            "<pre><code class=\"language-no-such-language\">x &lt; y</code></pre>".to_string(),
            "<pre><code>z</code></pre>".to_string(),
            run(9, 1),
        ]
    );
}

#[test]
fn events_without_code_are_one_run() {
    assert!(cut(vec![]).is_empty());
    assert_eq!(
        cut(vec![
            MarkdownEvent::Other,
            MarkdownEvent::Text("a".to_string()),
            MarkdownEvent::Other,
        ]),
        vec![run(0, 3)]
    );
}

#[test]
fn an_empty_block_is_a_block() {
    assert_eq!(
        cut(vec![MarkdownEvent::IndentedStart, MarkdownEvent::CodeEnd]),
        vec!["<pre><code></code></pre>".to_string()]
    );
}

#[test]
fn tables_have_heads_and_aligned_cells() {
    assert_eq!(
        markdown_to_html("| a | b |\n|:--|--:|\n| c | d |\n"),
        "<table><thead><tr><th style=\"text-align: left\">a</th><th style=\"text-align: right\">b</th></tr></thead><tbody>\n<tr><td style=\"text-align: left\">c</td><td style=\"text-align: right\">d</td></tr>\n</tbody></table>\n"
    );
}

#[test]
fn images_have_their_text() {
    assert_eq!(
        markdown_to_html("![one *two*](x.png)"),
        "<p><img src=\"x.png\" alt=\"one two\" /></p>\n"
    );
}

#[test]
fn markdown_without_code_is_what_the_writer_gives() {
    for md in ["# h\n\ntext *b*\n\n- a\n- b\n\n1. x\n", "> q\n\n---\n<b>raw</b>", "- [ ] t\n\n  p"] {
        let options = pulldown_cmark::Options::ENABLE_TABLES
            | pulldown_cmark::Options::ENABLE_STRIKETHROUGH
            | pulldown_cmark::Options::ENABLE_TASKLISTS;
        let mut wanted = String::new();
        pulldown_cmark::html::push_html(&mut wanted, pulldown_cmark::Parser::new_ext(md, options));
        assert_eq!(markdown_to_html(md), wanted);
    }
}

#[test]
fn code_blocks_stand_in_their_place() {
    assert_eq!(
        markdown_to_html("a\n\n```\nx\n```\n\nb"),
        "<p>a</p>\n<pre><code>x\n</code></pre><p>b</p>\n"
    );
    assert_eq!(
        markdown_to_html("```\nx\n```\n```\ny\n```\n| a |\n|---|\n| b |\n"),
        "<pre><code>x\n</code></pre><pre><code>y\n</code></pre><table><thead><tr><th>a</th></tr></thead><tbody>\n<tr><td>b</td></tr>\n</tbody></table>\n"
    );
    assert_eq!(
        markdown_to_html("- one\n\n  ```\n  x\n  ```\n- two\n"),
        "<ul>\n<li>\n<p>one</p>\n<pre><code>x\n</code></pre></li>\n<li>\n<p>two</p>\n</li>\n</ul>\n"
    );
}
