//! What is written, and what is reported of it.
use crate::dates::{session_date, CivilDate};
use crate::filename::{base_name, claims, has_free, is_free_name, unique_filename, UsedNames};
use crate::index::{entry_views, EntryView};
use crate::page::{
    has_countable_tokens, page_html, render_session, session_page, session_tokens_fit,
};
use crate::selection::{date_is_readable, select_session, selection_date, Filters};
use crate::session::Session;
use crate::text::{
    can_cut, concatenated, decimal, lemma_concatenated_push, opt_str, opt_view, push_decimal,
    text_or,
};
use vstd::prelude::*;
use vstd::utf8::encode_utf8;

verus! {

/// The title under which a session is listed: its own, else its identifier.
pub open spec fn listed_title(session: Session) -> Seq<char> {
    text_or(session.title@, session.session_id@)
}

/// The date under which a session is listed: its own, else that of its file.
pub open spec fn listed_date(session: Session, file_date: Option<Seq<char>>) -> Seq<char> {
    match session.date_created {
        Some(date) => date@,
        None => match file_date {
            Some(date) => date,
            None => ""@,
        },
    }
}

/// The title and the date under which a session is listed. `file_date` is the date of the
/// file that holds the session.
pub fn list_session(session: &Session, file_date: Option<&str>) -> (r: (String, String))
    ensures
        r.0@ == listed_title(*session),
        r.1@ == listed_date(*session, opt_str(file_date)),
{
    let title = if session.title.as_str().is_empty() {
        session.session_id.clone()
    } else {
        session.title.clone()
    };
    let date = match &session.date_created {
        Some(date) => date.clone(),
        None => match file_date {
            Some(date) => date.to_string(),
            None => "".to_string(),
        },
    };
    (title, date)
}

/// What becomes of a session before anything is written: it is skipped or converted, unless
/// the date that it is selected by cannot be read or its tokens cannot be counted.
pub enum Conversion {
    Converted { html: String, title: String, date: String },
    Skipped,
    UnreadableDate,
    UncountableTokens,
}

/// Whether a session is converted. `file_day` is the day of the file that holds it.
pub open spec fn is_selected(
    session: Session,
    filters: Filters,
    file_day: Option<CivilDate>,
) -> bool {
    filters.selects(
        session.title@,
        selection_date(opt_view(session.date_created), file_day),
    ) && session.history@.len() > 0
}

/// Converts a session to a page, if the filters select it. `file_day` and `file_date` are the
/// day and the date, with the time of day, of the file that holds the session.
pub fn convert_session(
    session: &Session,
    filters: &Filters,
    file_day: Option<CivilDate>,
    file_date: Option<&str>,
) -> (r: Conversion)
    ensures
        match r {
            Conversion::Converted { html, title, date } => {
                &&& date_is_readable(*filters, *session)
                &&& is_selected(*session, *filters, file_day)
                &&& session_tokens_fit(session.history@)
                &&& html@ == page_html(session_page(*session, opt_str(file_date)))
                &&& title@ == listed_title(*session)
                &&& date@ == listed_date(*session, opt_str(file_date))
            },
            Conversion::Skipped => date_is_readable(*filters, *session) && !is_selected(
                *session,
                *filters,
                file_day,
            ),
            Conversion::UnreadableDate => !date_is_readable(*filters, *session),
            Conversion::UncountableTokens => date_is_readable(*filters, *session) && is_selected(
                *session,
                *filters,
                file_day,
            ) && !session_tokens_fit(session.history@),
        },
{
    match select_session(session, filters, file_day) {
        Some(true) => {
            if has_countable_tokens(session) {
                let html = render_session(session, file_date);
                let (title, date) = list_session(session, file_date);
                Conversion::Converted { html, title, date }
            } else {
                Conversion::UncountableTokens
            }
        },
        Some(false) => Conversion::Skipped,
        None => Conversion::UnreadableDate,
    }
}

/// A date, unless it is empty.
pub open spec fn known_date(date: Seq<char>) -> Option<Seq<char>> {
    if date.len() == 0 {
        None
    } else {
        Some(date)
    }
}

/// Names the file of a transcript that is listed under a title and a date.
pub fn name_transcript(title: &str, date: &str, used: &mut UsedNames) -> (r: String)
    requires
        can_cut(date@, 10),
        (old(used)@.finite() && old(used)@.len() <= u32::MAX) || has_free(
            old(used)@,
            base_name(title@, known_date(date@)),
        ),
    ensures
        is_free_name(old(used)@, base_name(title@, known_date(date@)), r@),
        claims(old(used)@, r@, final(used)@),
{
    if date.is_empty() {
        unique_filename(title, None, used)
    } else {
        unique_filename(title, Some(date), used)
    }
}

/// Whether a file has to be written: there is none yet, or it holds something else.
pub fn needs_write(existing: Option<&[u8]>, html: &str) -> (r: bool)
    ensures
        r == !(existing matches Some(bytes) && bytes@ == encode_utf8(html@)),
{
    match existing {
        Some(bytes) => {
            let wanted = html.as_bytes();
            if bytes.len() != wanted.len() {
                return true;
            }
            let mut i: usize = 0;
            while i < bytes.len()
                invariant
                    existing == Some(bytes),
                    wanted@ == encode_utf8(html@),
                    bytes.len() == wanted.len(),
                    i <= bytes.len(),
                    forall|k: int| 0 <= k < i ==> bytes@[k] == wanted@[k],
                decreases bytes.len() - i,
            {
                if bytes[i] != wanted[i] {
                    return true;
                }
                i = i + 1;
            }
            assert(bytes@ =~= wanted@);
            false
        },
        None => true,
    }
}

/// What became of a file that was to be written.
pub enum WriteResult {
    Written,
    Unchanged,
    Failed(String),
}

/// What became of a session file. The title, the name and the date of a transcript are those
/// under which it is listed.
pub enum Outcome {
    Written { title: String, filename: String, date: String },
    Unchanged { title: String, filename: String, date: String },
    Skipped,
    Failed { source: String, message: String },
}

/// The transcript that an outcome adds to the index.
pub open spec fn listed_entry(outcome: Outcome) -> Option<EntryView> {
    match outcome {
        Outcome::Written { title, filename, date } => Some((title@, filename@, date@)),
        Outcome::Unchanged { title, filename, date } => Some((title@, filename@, date@)),
        _ => None,
    }
}

/// The failure that an outcome is.
pub open spec fn failure(outcome: Outcome) -> Option<(Seq<char>, Seq<char>)> {
    match outcome {
        Outcome::Failed { source, message } => Some((source@, message@)),
        _ => None,
    }
}

/// Tells what became of a session file whose transcript was to be written.
pub fn record_write(
    title: String,
    filename: String,
    date: String,
    source: String,
    result: WriteResult,
) -> (r: Outcome)
    ensures
        match result {
            WriteResult::Written => r is Written && listed_entry(r) == Some(
                (title@, filename@, date@),
            ),
            WriteResult::Unchanged => r is Unchanged && listed_entry(r) == Some(
                (title@, filename@, date@),
            ),
            WriteResult::Failed(error) => failure(r) == Some(
                (source@, "write failed: "@ + error@),
            ),
        },
{
    match result {
        WriteResult::Written => Outcome::Written { title, filename, date },
        WriteResult::Unchanged => Outcome::Unchanged { title, filename, date },
        WriteResult::Failed(error) => {
            let mut message = "write failed: ".to_string();
            message.push_str(error.as_str());
            Outcome::Failed { source, message }
        },
    }
}

/// The transcripts that outcomes add to the index, in order.
pub open spec fn listed_entries(outcomes: Seq<Outcome>) -> Seq<EntryView>
    decreases outcomes.len(),
{
    if outcomes.len() == 0 {
        Seq::empty()
    } else {
        match listed_entry(outcomes.last()) {
            Some(entry) => listed_entries(outcomes.drop_last()).push(entry),
            None => listed_entries(outcomes.drop_last()),
        }
    }
}

/// The failures among outcomes, in order.
pub open spec fn failures(outcomes: Seq<Outcome>) -> Seq<(Seq<char>, Seq<char>)>
    decreases outcomes.len(),
{
    if outcomes.len() == 0 {
        Seq::empty()
    } else {
        match failure(outcomes.last()) {
            Some(entry) => failures(outcomes.drop_last()).push(entry),
            None => failures(outcomes.drop_last()),
        }
    }
}

/// The number of transcripts that were written.
pub open spec fn count_written(outcomes: Seq<Outcome>) -> nat
    decreases outcomes.len(),
{
    if outcomes.len() == 0 {
        0
    } else {
        count_written(outcomes.drop_last()) + if outcomes.last() is Written {
            1nat
        } else {
            0
        }
    }
}

/// The number of transcripts that were there already.
pub open spec fn count_unchanged(outcomes: Seq<Outcome>) -> nat
    decreases outcomes.len(),
{
    if outcomes.len() == 0 {
        0
    } else {
        count_unchanged(outcomes.drop_last()) + if outcomes.last() is Unchanged {
            1nat
        } else {
            0
        }
    }
}

/// The number of sessions that were skipped.
pub open spec fn count_skipped(outcomes: Seq<Outcome>) -> nat
    decreases outcomes.len(),
{
    if outcomes.len() == 0 {
        0
    } else {
        count_skipped(outcomes.drop_last()) + if outcomes.last() is Skipped {
            1nat
        } else {
            0
        }
    }
}

/// The report of a run.
pub struct Summary {
    pub written: u64,
    pub unchanged: u64,
    pub skipped: u64,
    pub errors: u64,
    pub has_index: bool,
    pub failures: Vec<(String, String)>,
}

/// The model of a list of failures.
pub open spec fn failure_views(list: Seq<(String, String)>) -> Seq<(Seq<char>, Seq<char>)> {
    list.map_values(|f: (String, String)| (f.0@, f.1@))
}

/// The transcripts for the index: those that were written or were there already.
pub fn index_entries(outcomes: &Vec<Outcome>) -> (r: Vec<(String, String, String)>)
    ensures
        entry_views(r@) == listed_entries(outcomes@),
{
    let mut r: Vec<(String, String, String)> = Vec::new();
    let mut i: usize = 0;
    assert(outcomes@.take(0) =~= Seq::empty());
    assert(entry_views(r@) =~= Seq::empty());
    while i < outcomes.len()
        invariant
            i <= outcomes.len(),
            entry_views(r@) == listed_entries(outcomes@.take(i as int)),
        decreases outcomes.len() - i,
    {
        assert(outcomes@.take(i + 1).drop_last() =~= outcomes@.take(i as int));
        let entry = match &outcomes[i] {
            Outcome::Written { title, filename, date } => Some(
                (title.clone(), filename.clone(), date.clone()),
            ),
            Outcome::Unchanged { title, filename, date } => Some(
                (title.clone(), filename.clone(), date.clone()),
            ),
            _ => None,
        };
        if let Some(entry) = entry {
            assert(entry_views(r@.push(entry)) =~= entry_views(r@).push(
                (entry.0@, entry.1@, entry.2@),
            ));
            r.push(entry);
        }
        i = i + 1;
    }
    assert(outcomes@.take(i as int) =~= outcomes@);
    r
}

/// Sums up a run. `index` is what became of the index, if there was one to write; an index
/// that could not be written counts as an error.
pub fn summarize(outcomes: &Vec<Outcome>, index: &Option<WriteResult>) -> (r: Summary)
    requires
        outcomes@.len() < u64::MAX,
    ensures
        r.written == count_written(outcomes@),
        r.unchanged == count_unchanged(outcomes@),
        r.skipped == count_skipped(outcomes@),
        failure_views(r.failures@) == failures(outcomes@),
        r.errors == failures(outcomes@).len() + if index matches Some(WriteResult::Failed(_)) {
            1int
        } else {
            0
        },
        r.has_index == (index matches Some(result) && !(result is Failed)),
{
    let mut written: u64 = 0;
    let mut unchanged: u64 = 0;
    let mut skipped: u64 = 0;
    let mut list: Vec<(String, String)> = Vec::new();
    let mut i: usize = 0;
    assert(outcomes@.take(0) =~= Seq::empty());
    assert(failure_views(list@) =~= Seq::empty());
    while i < outcomes.len()
        invariant
            i <= outcomes.len(),
            written == count_written(outcomes@.take(i as int)),
            unchanged == count_unchanged(outcomes@.take(i as int)),
            skipped == count_skipped(outcomes@.take(i as int)),
            failure_views(list@) == failures(outcomes@.take(i as int)),
            written <= i,
            unchanged <= i,
            skipped <= i,
            list@.len() <= i,
        decreases outcomes.len() - i,
    {
        assert(outcomes@.take(i + 1).drop_last() =~= outcomes@.take(i as int));
        match &outcomes[i] {
            Outcome::Written { .. } => {
                written = written + 1;
            },
            Outcome::Unchanged { .. } => {
                unchanged = unchanged + 1;
            },
            Outcome::Skipped => {
                skipped = skipped + 1;
            },
            Outcome::Failed { source, message } => {
                let entry = (source.clone(), message.clone());
                assert(failure_views(list@.push(entry)) =~= failure_views(list@).push(
                    (entry.0@, entry.1@),
                ));
                list.push(entry);
            },
        }
        i = i + 1;
    }
    assert(outcomes@.take(i as int) =~= outcomes@);
    let mut errors: u64 = list.len() as u64;
    let mut has_index = false;
    match index {
        Some(WriteResult::Failed(_)) => {
            errors = errors + 1;
        },
        Some(_) => {
            has_index = true;
        },
        None => {},
    }
    Summary { written, unchanged, skipped, errors, has_index, failures: list }
}

/// A line of the report: a label and a number.
pub open spec fn count_line(label: Seq<char>, n: nat) -> Seq<char> {
    label + decimal(n) + "\n"@
}

/// A line of the report that is left out if the number is 0.
pub open spec fn optional_line(label: Seq<char>, n: nat) -> Seq<char> {
    if n > 0 {
        count_line(label, n)
    } else {
        ""@
    }
}

/// The lines of the report on failures.
pub open spec fn failure_lines(list: Seq<(Seq<char>, Seq<char>)>) -> Seq<char>
    decreases list.len(),
{
    if list.len() == 0 {
        ""@
    } else {
        failure_lines(list.drop_last()) + ("    \u{274c} "@ + list.last().0 + ": "@ + list.last().1
            + "\n"@)
    }
}

/// The report of a run, up to the number of worker threads.
pub open spec fn report_text(summary: Summary, discovered: nat, workers: nat) -> Seq<char> {
    "\n═══════════════════════════════════════════\n  Summary\n═══════════════════════════════════════════\n"@
        + count_line("  Files discovered:  "@, discovered) + "  Sessions written:  "@ + decimal(
        summary.written as nat,
    ) + " (+ "@ + decimal(
        if summary.has_index {
            1
        } else {
            0
        },
    ) + " index)\n"@ + optional_line("  Unchanged:         "@, summary.unchanged as nat)
        + optional_line("  Skipped:           "@, summary.skipped as nat) + (if summary.errors > 0 {
        count_line("  Errors:            "@, summary.errors as nat) + failure_lines(
            failure_views(summary.failures@),
        )
    } else {
        ""@
    }) + count_line("  Workers:           "@, workers)
}

fn render_count_line(label: &str, n: u64) -> (r: String)
    ensures
        r@ == count_line(label@, n as nat),
{
    let mut r = label.to_string();
    push_decimal(&mut r, n);
    r.push_str("\n");
    r
}

fn render_optional_line(label: &str, n: u64) -> (r: String)
    ensures
        r@ == optional_line(label@, n as nat),
{
    if n > 0 {
        render_count_line(label, n)
    } else {
        "".to_string()
    }
}

fn render_failure_lines(list: &Vec<(String, String)>) -> (r: String)
    ensures
        r@ == failure_lines(failure_views(list@)),
{
    let ghost all = failure_views(list@);
    let mut r = "".to_string();
    let mut i: usize = 0;
    assert(all.take(0) =~= Seq::empty());
    while i < list.len()
        invariant
            all == failure_views(list@),
            i <= list.len(),
            r@ == failure_lines(all.take(i as int)),
        decreases list.len() - i,
    {
        assert(all.take(i + 1).drop_last() =~= all.take(i as int));
        let mut line = "    \u{274c} ".to_string();
        line.push_str(list[i].0.as_str());
        line.push_str(": ");
        line.push_str(list[i].1.as_str());
        line.push_str("\n");
        r.push_str(line.as_str());
        i = i + 1;
    }
    assert(all.take(i as int) =~= all);
    r
}

/// Writes the report of a run, up to the number of worker threads.
pub fn render_report(summary: &Summary, discovered: u64, workers: u64) -> (r: String)
    ensures
        r@ == report_text(*summary, discovered as nat, workers as nat),
{
    let errors = if summary.errors > 0 {
        let mut lines = render_count_line("  Errors:            ", summary.errors);
        lines.push_str(render_failure_lines(&summary.failures).as_str());
        lines
    } else {
        "".to_string()
    };
    let mut r =
        "\n═══════════════════════════════════════════\n  Summary\n═══════════════════════════════════════════\n".to_string();
    r.push_str(render_count_line("  Files discovered:  ", discovered).as_str());
    r.push_str("  Sessions written:  ");
    push_decimal(&mut r, summary.written);
    r.push_str(" (+ ");
    push_decimal(
        &mut r,
        if summary.has_index {
            1
        } else {
            0
        },
    );
    r.push_str(" index)\n");
    r.push_str(render_optional_line("  Unchanged:         ", summary.unchanged).as_str());
    r.push_str(render_optional_line("  Skipped:           ", summary.skipped).as_str());
    r.push_str(errors.as_str());
    r.push_str(render_count_line("  Workers:           ", workers).as_str());
    r
}

/// How a run ended: well if there was no error.
pub open spec fn verdict_text(errors: nat) -> Seq<char> {
    if errors == 0 {
        "  \u{2705} All files processed successfully!\n"@
    } else {
        "  \u{274c} Completed with "@ + decimal(errors) + " error(s)\n"@
    }
}

/// Writes how a run ended, and whether it ended well.
pub fn render_verdict(summary: &Summary) -> (r: (String, bool))
    ensures
        r.0@ == verdict_text(summary.errors as nat),
        r.1 == (summary.errors == 0),
{
    if summary.errors == 0 {
        ("  \u{2705} All files processed successfully!\n".to_string(), true)
    } else {
        let mut r = "  \u{274c} Completed with ".to_string();
        push_decimal(&mut r, summary.errors);
        r.push_str(" error(s)\n");
        (r, false)
    }
}

/// Every session file is counted once: as written, unchanged, skipped or failed. The index
/// lists those that were written or unchanged.
pub proof fn law_every_file_is_counted_once(outcomes: Seq<Outcome>)
    ensures
        count_written(outcomes) + count_unchanged(outcomes) + count_skipped(outcomes) + failures(
            outcomes,
        ).len() == outcomes.len(),
        listed_entries(outcomes).len() == count_written(outcomes) + count_unchanged(outcomes),
    decreases outcomes.len(),
{
    if outcomes.len() > 0 {
        law_every_file_is_counted_once(outcomes.drop_last());
    }
}

/// A session is listed under its title, or under its identifier if it has none, and with its own
/// date, or else that of its file.
pub proof fn law_session_is_listed(session: Session, file_date: Option<Seq<char>>)
    ensures
        session.title@.len() > 0 ==> listed_title(session) == session.title@,
        session.title@.len() == 0 ==> listed_title(session) == session.session_id@,
        session.date_created matches Some(date) ==> listed_date(session, file_date) == date@,
        session.date_created is None && file_date is Some ==> listed_date(session, file_date)
            == file_date->0,
        session.date_created is None && file_date is None ==> listed_date(
            session,
            file_date,
        ).len() == 0,
{
    reveal_strlit("");
}

/// A session without messages is never converted, and without filters every other one is.
pub proof fn law_sessions_with_messages_are_converted(
    session: Session,
    filters: Filters,
    file_day: Option<CivilDate>,
)
    ensures
        session.history@.len() == 0 ==> !is_selected(session, filters, file_day),
        session.history@.len() > 0 && filters.title is None && filters.since is None
            && filters.before is None ==> is_selected(session, filters, file_day),
        is_selected(session, filters, file_day) ==> filters.title_fits(session.title@),
{
}

/// A session is selected by its own date, whatever the date of its file, and by that of its file
/// if it has none. The first day of the range belongs to it, the last one does not.
pub proof fn law_sessions_are_selected_by_their_own_date(
    session: Session,
    filters: Filters,
    file_day: Option<CivilDate>,
    date: CivilDate,
)
    requires
        session.history@.len() > 0,
        filters.title is None,
        filters.since is Some || filters.before is Some,
        match session.date_created {
            Some(text) => session_date(text@) == Some(date),
            None => file_day == Some(date),
        },
    ensures
        is_selected(session, filters, file_day) <==> {
            &&& filters.since matches Some(since) ==> since == date || since.precedes(date)
            &&& filters.before matches Some(before) ==> date.precedes(before)
        },
{
}

/// A session without a date, its own or that of its file, is not selected where dates are asked
/// for.
pub proof fn law_undated_sessions_are_not_selected(session: Session, filters: Filters)
    requires
        filters.since is Some || filters.before is Some,
        session.date_created matches Some(text) ==> session_date(text@) is None,
    ensures
        !is_selected(session, filters, None),
{
}

proof fn lemma_listed(outcomes: Seq<Outcome>, entry: EntryView)
    ensures
        listed_entries(outcomes).contains(entry) <==> exists|i: int|
            0 <= i < outcomes.len() && #[trigger] lists(outcomes[i], entry),
    decreases outcomes.len(),
{
    if outcomes.len() > 0 {
        let n = outcomes.len() - 1;
        let rest = outcomes.drop_last();
        let (before, all) = (listed_entries(rest), listed_entries(outcomes));
        lemma_listed(rest, entry);
        if all.contains(entry) {
            let k = choose|k: int| 0 <= k < all.len() && all[k] == entry;
            if k < before.len() {
                assert(before[k] == entry);
                let i = choose|i: int| 0 <= i < rest.len() && #[trigger] lists(rest[i], entry);
                assert(lists(outcomes[i], entry));
            } else {
                assert(lists(outcomes[n], entry));
            }
        }
        if exists|i: int| 0 <= i < outcomes.len() && #[trigger] lists(outcomes[i], entry) {
            let i = choose|i: int|
                0 <= i < outcomes.len() && #[trigger] lists(outcomes[i], entry);
            if i < n {
                assert(lists(rest[i], entry));
                let k = choose|k: int| 0 <= k < before.len() && before[k] == entry;
                assert(all[k] == entry);
            } else {
                assert(all[before.len() as int] == entry);
            }
        }
    }
}

/// Whether an outcome is a transcript, written or unchanged, with that title, name and date.
pub open spec fn lists(outcome: Outcome, entry: EntryView) -> bool {
    match outcome {
        Outcome::Written { title, filename, date } => title@ == entry.0 && filename@ == entry.1
            && date@ == entry.2,
        Outcome::Unchanged { title, filename, date } => title@ == entry.0 && filename@ == entry.1
            && date@ == entry.2,
        _ => false,
    }
}

/// The index lists the transcripts that were written and those that were unchanged, in the order
/// of the session files, and no others.
pub proof fn law_index_lists_the_transcripts(outcomes: Seq<Outcome>, entry: EntryView, n: int)
    requires
        0 <= n <= outcomes.len(),
    ensures
        listed_entries(outcomes).contains(entry) <==> exists|i: int|
            0 <= i < outcomes.len() && #[trigger] lists(outcomes[i], entry),
        listed_entries(outcomes.take(n)).is_prefix_of(listed_entries(outcomes)),
        failures(outcomes.take(n)).is_prefix_of(failures(outcomes)),
    decreases outcomes.len() - n,
{
    lemma_listed(outcomes, entry);
    if n < outcomes.len() {
        law_index_lists_the_transcripts(outcomes, entry, n + 1);
        assert(outcomes.take(n + 1).drop_last() =~= outcomes.take(n));
        let (a, b) = (listed_entries(outcomes.take(n)), listed_entries(outcomes.take(n + 1)));
        assert(a =~= b.take(a.len() as int));
        assert(a =~= listed_entries(outcomes).take(a.len() as int));
        let (c, d) = (failures(outcomes.take(n)), failures(outcomes.take(n + 1)));
        assert(c =~= d.take(c.len() as int));
        assert(c =~= failures(outcomes).take(c.len() as int));
    } else {
        assert(outcomes.take(n) =~= outcomes);
    }
}

/// Each outcome is counted under what it is.
pub proof fn law_outcomes_are_counted_as_what_they_are(outcomes: Seq<Outcome>, outcome: Outcome)
    ensures
        ({
            let more = outcomes.push(outcome);
            match outcome {
                Outcome::Written { .. } => count_written(more) == count_written(outcomes) + 1,
                Outcome::Unchanged { .. } => count_unchanged(more) == count_unchanged(outcomes)
                    + 1,
                Outcome::Skipped => count_skipped(more) == count_skipped(outcomes) + 1,
                Outcome::Failed { source, message } => failures(more) == failures(outcomes).push(
                    (source@, message@),
                ),
            }
        }),
{
    assert(outcomes.push(outcome).drop_last() =~= outcomes);
}

/// The report of a run tells the number of files, of transcripts written and of the index, of
/// unchanged ones, skipped ones and errors, where there are any, with the source and the
/// message of each failure, and of workers.
pub proof fn law_report_tells_the_numbers(summary: Summary, discovered: nat, workers: nat)
    ensures
        report_text(summary, discovered, workers)
            == "\n═══════════════════════════════════════════\n  Summary\n═══════════════════════════════════════════\n"@
            + ("  Files discovered:  "@ + decimal(discovered) + "\n"@) + "  Sessions written:  "@
            + decimal(summary.written as nat) + " (+ "@ + decimal(
            if summary.has_index {
                1
            } else {
                0
            },
        ) + " index)\n"@ + (if summary.unchanged > 0 {
            "  Unchanged:         "@ + decimal(summary.unchanged as nat) + "\n"@
        } else {
            ""@
        }) + (if summary.skipped > 0 {
            "  Skipped:           "@ + decimal(summary.skipped as nat) + "\n"@
        } else {
            ""@
        }) + (if summary.errors > 0 {
            "  Errors:            "@ + decimal(summary.errors as nat) + "\n"@ + concatenated(
                failure_views(summary.failures@).map_values(
                    |failure: (Seq<char>, Seq<char>)|
                        "    \u{274c} "@ + failure.0 + ": "@ + failure.1 + "\n"@,
                ),
            )
        } else {
            ""@
        }) + ("  Workers:           "@ + decimal(workers) + "\n"@),
{
    lemma_failure_lines(failure_views(summary.failures@));
}

proof fn lemma_failure_lines(list: Seq<(Seq<char>, Seq<char>)>)
    ensures
        failure_lines(list) == concatenated(
            list.map_values(
                |failure: (Seq<char>, Seq<char>)|
                    "    \u{274c} "@ + failure.0 + ": "@ + failure.1 + "\n"@,
            ),
        ),
    decreases list.len(),
{
    let line = |failure: (Seq<char>, Seq<char>)|
        "    \u{274c} "@ + failure.0 + ": "@ + failure.1 + "\n"@;
    if list.len() > 0 {
        lemma_failure_lines(list.drop_last());
        let before = list.drop_last().map_values(line);
        lemma_concatenated_push(before, line(list.last()));
        assert(list.map_values(line) =~= before.push(line(list.last())));
    } else {
        reveal_strlit("");
        assert(failure_lines(list) =~= concatenated(list.map_values(line)));
    }
}

/// A run ends well exactly if there was no error, and else tells how many there were.
pub proof fn law_verdict_counts_the_errors(errors: nat)
    ensures
        verdict_text(errors) == (if errors == 0 {
            "  \u{2705} All files processed successfully!\n"@
        } else {
            "  \u{274c} Completed with "@ + decimal(errors) + " error(s)\n"@
        }),
{
}

} // verus!
