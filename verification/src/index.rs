//! The index of all transcripts.
use crate::assets::CSS;
use crate::html::{escaped, push_escaped};
use crate::text::{
    concatenated, contains_text, decimal, lemma_concat_contains, lemma_concatenated_push,
    lemma_part_contains, push_decimal,
};
use vstd::prelude::*;

verus! {

/// The index before the styles.
pub const INDEX_HEAD: &'static str = r#"<!DOCTYPE html>
<html lang="en">
<head>
<meta charset="utf-8">
<meta name="viewport" content="width=device-width, initial-scale=1">
<title>Continue.dev Transcripts</title>
"#;

/// The index from the styles to the number of sessions.
pub const INDEX_HEADER: &'static str = r#"
<style>
  table { width: 100%; border-collapse: collapse; }
  th, td { text-align: left; padding: 10px 14px; border-bottom: 1px solid var(--border); }
  th { font-size: 0.82rem; text-transform: uppercase; letter-spacing: 0.05em; color: var(--text-muted); }
  td a { color: var(--user-border); text-decoration: none; font-weight: 500; }
  td a:hover { text-decoration: underline; }
  .search-box { width: 100%; padding: 10px 14px; border: 1px solid var(--border); border-radius: 8px; font-size: 0.95rem; margin-bottom: 16px; background: var(--card-bg); color: var(--text); }
  .search-box::placeholder { color: var(--text-muted); }
  .no-results { text-align: center; padding: 24px; color: var(--text-muted); display: none; }
</style>
</head>
<body>
<button class="theme-toggle" aria-label="Toggle theme"></button>
<div class="container">
  <header class="session-header">
    <h1>Continue.dev Transcripts</h1>
    <div class="session-meta">
      <span class="meta-item">"#;

/// The index from the number of sessions to the rows of the table.
pub const INDEX_TABLE: &'static str = r#" session(s)</span>
    </div>
  </header>
  <input type="text" class="search-box" placeholder="Filter sessions by title or date\u2026" autocomplete="off">
  <table>
    <thead><tr><th>Session</th><th style="width: 22ch;">Date</th></tr></thead>
    <tbody>
"#;

/// The index after the rows of the table.
pub const INDEX_END: &'static str = r#"
    </tbody>
  </table>
  <div class="no-results">No sessions match your filter.</div>
  <footer>
    <p>Generated by <strong>continue-transcripts</strong></p>
  </footer>
</div>
<script>
document.addEventListener('DOMContentLoaded', function() {
  // Theme toggle
  (function() {
    var html = document.documentElement;
    var stored = localStorage.getItem('ct-theme');
    if (stored) html.setAttribute('data-theme', stored);
    var btn = document.querySelector('.theme-toggle');
    if (btn) {
      function updateIcon() {
        var theme = html.getAttribute('data-theme');
        if (!theme) {
          var dark = window.matchMedia('(prefers-color-scheme: dark)').matches;
          btn.textContent = dark ? '\u2600\uFE0F' : '\uD83C\uDF19';
          btn.title = 'Theme: auto (' + (dark ? 'dark' : 'light') + '). Click to toggle.';
        } else if (theme === 'dark') {
          btn.textContent = '\u2600\uFE0F';
          btn.title = 'Theme: dark. Click for light.';
        } else {
          btn.textContent = '\uD83C\uDF19';
          btn.title = 'Theme: light. Click for dark.';
        }
      }
      btn.addEventListener('click', function() {
        var current = html.getAttribute('data-theme');
        if (!current) {
          var dark = window.matchMedia('(prefers-color-scheme: dark)').matches;
          var next = dark ? 'light' : 'dark';
        } else if (current === 'dark') {
          var next = 'light';
        } else {
          var next = 'dark';
        }
        html.setAttribute('data-theme', next);
        localStorage.setItem('ct-theme', next);
        updateIcon();
      });
      updateIcon();
      window.matchMedia('(prefers-color-scheme: dark)').addEventListener('change', updateIcon);
    }
  })();

  // Search / filter
  var input = document.querySelector('.search-box');
  var rows = document.querySelectorAll('tbody tr');
  var noResults = document.querySelector('.no-results');
  if (input && rows.length) {
    input.addEventListener('input', function() {
      var q = input.value.toLowerCase();
      var visible = 0;
      rows.forEach(function(row) {
        var text = row.textContent.toLowerCase();
        var match = !q || text.indexOf(q) !== -1;
        row.style.display = match ? '' : 'none';
        if (match) visible++;
      });
      noResults.style.display = visible === 0 ? 'block' : 'none';
    });
  }
});
</script>
</body>
</html>"#;

/// An entry of the index: a title, the name of a file and a date.
pub type EntryView = (Seq<char>, Seq<char>, Seq<char>);

/// The model of a list of entries.
pub open spec fn entry_views(entries: Seq<(String, String, String)>) -> Seq<EntryView> {
    entries.map_values(|e: (String, String, String)| (e.0@, e.1@, e.2@))
}

/// An entry as a row of the table.
pub open spec fn entry_html(entry: EntryView) -> Seq<char> {
    "    <tr>\n      <td><a href=\""@ + escaped(entry.1) + "\">"@ + escaped(entry.0)
        + "</a></td>\n      <td style=\"white-space:nowrap\">"@ + escaped(entry.2)
        + "</td>\n    </tr>\n"@
}

/// Entries as rows of the table.
pub open spec fn entries_html(entries: Seq<EntryView>) -> Seq<char>
    decreases entries.len(),
{
    if entries.len() == 0 {
        ""@
    } else {
        entries_html(entries.drop_last()) + entry_html(entries.last())
    }
}

/// The index as HTML.
pub open spec fn index_html(entries: Seq<EntryView>) -> Seq<char> {
    INDEX_HEAD@ + CSS@ + INDEX_HEADER@ + decimal(entries.len()) + INDEX_TABLE@ + entries_html(
        entries,
    ) + INDEX_END@
}

fn render_entry(entry: &(String, String, String)) -> (r: String)
    ensures
        r@ == entry_html((entry.0@, entry.1@, entry.2@)),
{
    let mut r = "    <tr>\n      <td><a href=\"".to_string();
    push_escaped(&mut r, entry.1.as_str());
    r.push_str("\">");
    push_escaped(&mut r, entry.0.as_str());
    r.push_str("</a></td>\n      <td style=\"white-space:nowrap\">");
    push_escaped(&mut r, entry.2.as_str());
    r.push_str("</td>\n    </tr>\n");
    r
}

/// Renders the index: a table with a row for each title, file name and date.
pub fn render_index(entries: &[(String, String, String)]) -> (r: String)
    ensures
        r@ == index_html(entry_views(entries@)),
{
    let ghost all = entry_views(entries@);
    let mut rows = "".to_string();
    let mut i: usize = 0;
    assert(all.take(0) =~= Seq::empty());
    while i < entries.len()
        invariant
            all == entry_views(entries@),
            i <= entries.len(),
            rows@ == entries_html(all.take(i as int)),
        decreases entries.len() - i,
    {
        assert(all.take(i + 1).drop_last() =~= all.take(i as int));
        rows.push_str(render_entry(&entries[i]).as_str());
        i = i + 1;
    }
    assert(all.take(i as int) =~= all);
    let mut r = INDEX_HEAD.to_string();
    r.push_str(CSS);
    r.push_str(INDEX_HEADER);
    push_decimal(&mut r, entries.len() as u64);
    r.push_str(INDEX_TABLE);
    r.push_str(rows.as_str());
    r.push_str(INDEX_END);
    r
}

proof fn lemma_rows_hold_entry(entries: Seq<EntryView>, k: int)
    requires
        0 <= k < entries.len(),
    ensures
        contains_text(entries_html(entries), entry_html(entries[k])),
    decreases entries.len(),
{
    let before = entries_html(entries.drop_last());
    if k < entries.len() - 1 {
        lemma_rows_hold_entry(entries.drop_last(), k);
    }
    lemma_concat_contains(before, entry_html(entries.last()), entry_html(entries[k]));
}

/// The index has a row for every entry, which links to its file.
pub proof fn law_index_lists_every_entry(entries: Seq<EntryView>, k: int)
    requires
        0 <= k < entries.len(),
    ensures
        contains_text(index_html(entries), entry_html(entries[k])),
{
    let start = INDEX_HEAD@ + CSS@ + INDEX_HEADER@ + decimal(entries.len()) + INDEX_TABLE@;
    lemma_rows_hold_entry(entries, k);
    lemma_part_contains(start, entries_html(entries), INDEX_END@, entry_html(entries[k]));
}

/// The index tells the number of its entries and has a row for each, in order: the title links to
/// the file, and the date stands beside it.
pub proof fn law_index_links_titles_to_files_in_order(entries: Seq<EntryView>)
    ensures
        index_html(entries) == INDEX_HEAD@ + CSS@ + INDEX_HEADER@ + decimal(entries.len())
            + INDEX_TABLE@ + concatenated(
            entries.map_values(
                |entry: EntryView|
                    {
                        let (title, filename, date) = entry;
                        "    <tr>\n      <td><a href=\""@ + escaped(filename) + "\">"@ + escaped(
                            title,
                        ) + "</a></td>\n      <td style=\"white-space:nowrap\">"@ + escaped(date)
                            + "</td>\n    </tr>\n"@
                    },
            ),
        ) + INDEX_END@,
{
    lemma_rows(entries);
    let framed = |entry: EntryView| entry_html(entry);
    let shown = |entry: EntryView|
        {
            let (title, filename, date) = entry;
            "    <tr>\n      <td><a href=\""@ + escaped(filename) + "\">"@ + escaped(title)
                + "</a></td>\n      <td style=\"white-space:nowrap\">"@ + escaped(date)
                + "</td>\n    </tr>\n"@
        };
    assert forall|i: int| 0 <= i < entries.len() implies framed(#[trigger] entries[i]) == shown(
        entries[i],
    ) by {}
    assert(entries.map_values(framed) =~= entries.map_values(shown));
}

proof fn lemma_rows(entries: Seq<EntryView>)
    ensures
        entries_html(entries) == concatenated(
            entries.map_values(|entry: EntryView| entry_html(entry)),
        ),
    decreases entries.len(),
{
    let framed = |entry: EntryView| entry_html(entry);
    if entries.len() > 0 {
        lemma_rows(entries.drop_last());
        let before = entries.drop_last().map_values(framed);
        lemma_concatenated_push(before, framed(entries.last()));
        assert(entries.map_values(framed) =~= before.push(framed(entries.last())));
    } else {
        reveal_strlit("");
        assert(entries_html(entries) =~= concatenated(entries.map_values(framed)));
    }
}

} // verus!
