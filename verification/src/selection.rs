//! Which sessions are converted.
use crate::dates::{has_readable_start, read_session_date, session_date, CivilDate};
use crate::session::Session;
use crate::text::{contains_text, has_text, occurs_at, opt_view};
use vstd::prelude::*;
use vstd::utf8::is_ascii_chars;

verus! {

/// What `str::to_lowercase` makes of a text.
pub uninterp spec fn lower_case(text: Seq<char>) -> Seq<char>;

/// The lower case of an ASCII character.
pub open spec fn ascii_lower_case(c: char) -> char {
    if 'A' <= c <= 'Z' {
        (c as u8 + 32) as u8 as char
    } else {
        c
    }
}

/// `str::to_lowercase` gives the lower case of a text. It depends on the text alone. In a
/// text of ASCII characters each letter from A to Z is replaced; the lower case of other
/// texts is not stated.
pub assume_specification[ str::to_lowercase ](text: &str) -> (r: String)
    ensures
        r@ == lower_case(text@),
        is_ascii_chars(text@) ==> r@ == text@.map_values(|c: char| ascii_lower_case(c)),
;

/// A text in lower case.
pub open spec fn lowered(text: Seq<char>) -> Seq<char> {
    if is_ascii_chars(text) {
        text.map_values(|c: char| ascii_lower_case(c))
    } else {
        lower_case(text)
    }
}

/// Which sessions to convert: those whose title holds a text, and those from a date on and
/// before a date.
pub struct Filters {
    pub title: Option<String>,
    pub since: Option<CivilDate>,
    pub before: Option<CivilDate>,
}

impl Filters {
    /// Whether a title holds the text that is looked for, without regard to case.
    pub open spec fn title_fits(self, title: Seq<char>) -> bool {
        match self.title {
            Some(text) => contains_text(lowered(title), lowered(text@)),
            None => true,
        }
    }

    /// Whether sessions are selected by date.
    pub open spec fn asks_for_date(self) -> bool {
        self.since is Some || self.before is Some
    }

    /// Whether a date is in the range that is asked for. The first day belongs to the range,
    /// the last one does not.
    pub open spec fn holds(self, date: CivilDate) -> bool {
        (self.since matches Some(since) ==> !date.precedes(since)) && (
        self.before matches Some(before) ==> date.precedes(before))
    }

    /// Whether a session with that title and that date, if it has one, is selected. A session
    /// without a date is not, where sessions are selected by date.
    pub open spec fn selects(self, title: Seq<char>, date: Option<CivilDate>) -> bool {
        self.title_fits(title) && (self.asks_for_date() ==> match date {
            Some(date) => self.holds(date),
            None => false,
        })
    }

    fn check_title(&self, title: &str) -> (r: bool)
        ensures
            r == self.title_fits(title@),
    {
        match &self.title {
            Some(text) => has_text(
                title.to_lowercase().as_str(),
                text.as_str().to_lowercase().as_str(),
            ),
            None => true,
        }
    }

    /// Whether a date is in the range that is asked for.
    pub fn check_date(&self, date: Option<CivilDate>) -> (r: bool)
        ensures
            r == (self.asks_for_date() ==> (date matches Some(d) && self.holds(d))),
    {
        if self.since.is_none() && self.before.is_none() {
            return true;
        }
        match date {
            Some(date) => {
                if let Some(since) = &self.since {
                    if date.is_before(since) {
                        return false;
                    }
                }
                if let Some(before) = &self.before {
                    if !date.is_before(before) {
                        return false;
                    }
                }
                true
            },
            None => false,
        }
    }
}

/// The date by which a session is selected: its own, else that of its file.
pub open spec fn selection_date(
    date_created: Option<Seq<char>>,
    file_date: Option<CivilDate>,
) -> Option<CivilDate> {
    match date_created {
        Some(text) => match session_date(text) {
            Some(date) => Some(date),
            None => file_date,
        },
        None => file_date,
    }
}

/// Whether the date of a session, where it is asked for, can be read.
pub open spec fn date_is_readable(filters: Filters, session: Session) -> bool {
    filters.title_fits(session.title@) && filters.asks_for_date() ==> (
    session.date_created matches Some(text) ==> has_readable_start(text@))
}

/// Decides whether a session is converted: it has messages, and the filters select it.
/// `file_date` is the date of the file that holds the session. Gives nothing if the date of
/// the session is asked for and cannot be read.
pub fn select_session(
    session: &Session,
    filters: &Filters,
    file_date: Option<CivilDate>,
) -> (r: Option<bool>)
    ensures
        match r {
            Some(selected) => date_is_readable(*filters, *session) && selected == (
            filters.selects(
                session.title@,
                selection_date(opt_view(session.date_created), file_date),
            ) && session.history@.len() > 0),
            None => !date_is_readable(*filters, *session),
        },
{
    if !filters.check_title(session.title.as_str()) {
        return Some(false);
    }
    if filters.since.is_some() || filters.before.is_some() {
        let date = match &session.date_created {
            Some(text) => match read_session_date(text.as_str()) {
                Some(Some(date)) => Some(date),
                Some(None) => file_date,
                None => return None,
            },
            None => file_date,
        };
        if !filters.check_date(date) {
            return Some(false);
        }
    }
    Some(session.history.len() > 0)
}

/// A range of dates falls into the part before a day and the part from that day on: a date
/// in the range is in exactly one of them.
pub proof fn law_date_ranges_are_adjacent(filters: Filters, day: CivilDate, date: CivilDate)
    requires
        filters.since matches Some(since) ==> !day.precedes(since),
        filters.before matches Some(before) ==> !before.precedes(day),
    ensures
        ({
            let early = (Filters { before: Some(day), ..filters });
            let late = (Filters { since: Some(day), ..filters });
            &&& filters.holds(date) <==> early.holds(date) || late.holds(date)
            &&& !(early.holds(date) && late.holds(date))
        }),
{
}

/// Without filters every session is selected.
pub proof fn law_no_filter_selects_all(title: Seq<char>, date: Option<CivilDate>)
    ensures
        (Filters { title: None, since: None, before: None }).selects(title, date),
{
}

/// Whether two texts are equal up to the case of the letters from A to Z.
pub open spec fn equal_up_to_case(a: Seq<char>, b: Seq<char>) -> bool {
    a.len() == b.len() && forall|i: int|
        0 <= i < a.len() ==> {
            ||| #[trigger] a[i] == b[i]
            ||| 'A' <= a[i] <= 'Z' && b[i] as int == a[i] as int + 32
            ||| 'A' <= b[i] <= 'Z' && a[i] as int == b[i] as int + 32
        }
}

proof fn lemma_lower_case(a: char, b: char)
    requires
        a <= '\u{7f}',
        b <= '\u{7f}',
    ensures
        ascii_lower_case(a) == ascii_lower_case(b) <==> (a == b || ('A' <= a <= 'Z' && b as int
            == a as int + 32) || ('A' <= b <= 'Z' && a as int == b as int + 32)),
{
}

proof fn lemma_lowered_equal(a: Seq<char>, b: Seq<char>)
    requires
        is_ascii_chars(a),
        is_ascii_chars(b),
    ensures
        lowered(a) == lowered(b) <==> equal_up_to_case(a, b),
{
    if lowered(a) == lowered(b) {
        assert(lowered(a).len() == a.len() && lowered(b).len() == b.len());
        assert forall|i: int| 0 <= i < a.len() implies {
            ||| #[trigger] a[i] == b[i]
            ||| 'A' <= a[i] <= 'Z' && b[i] as int == a[i] as int + 32
            ||| 'A' <= b[i] <= 'Z' && a[i] as int == b[i] as int + 32
        } by {
            assert(lowered(a)[i] == ascii_lower_case(a[i]));
            assert(lowered(b)[i] == ascii_lower_case(b[i]));
            lemma_lower_case(a[i], b[i]);
        }
    }
    if equal_up_to_case(a, b) {
        assert forall|i: int| 0 <= i < a.len() implies lowered(a)[i] == lowered(b)[i] by {
            lemma_lower_case(a[i], b[i]);
        }
        assert(lowered(a) =~= lowered(b));
    }
}

/// A title filter selects exactly the titles that hold its text somewhere, up to the case of
/// letters. Both texts are ASCII here.
pub proof fn law_title_filter_looks_for_its_text(filters: Filters, text: String, title: Seq<char>)
    requires
        filters.title == Some(text),
        is_ascii_chars(text@),
        is_ascii_chars(title),
    ensures
        filters.title_fits(title) <==> exists|i: int|
            0 <= i <= title.len() - text@.len() && equal_up_to_case(
                #[trigger] title.subrange(i, i + text@.len()),
                text@,
            ),
{
    let n = text@.len();
    let (low, wanted) = (lowered(title), lowered(text@));
    assert(low.len() == title.len() && wanted.len() == n);
    assert forall|i: int| 0 <= i <= title.len() - n implies lowered(
        #[trigger] title.subrange(i, i + n),
    ) == low.subrange(i, i + n) && is_ascii_chars(title.subrange(i, i + n)) by {
        let part = title.subrange(i, i + n);
        assert forall|k: int| 0 <= k < part.len() implies part[k] == title[i + k] by {}
        assert(is_ascii_chars(part));
        assert(lowered(part) =~= low.subrange(i, i + n));
    }
    if filters.title_fits(title) {
        let i = choose|i: int| occurs_at(low, wanted, i);
        assert(occurs_at(low, wanted, i));
        let part = title.subrange(i, i + n);
        assert(lowered(part) == low.subrange(i, i + n));
        lemma_lowered_equal(part, text@);
    }
    if exists|i: int|
        0 <= i <= title.len() - n && equal_up_to_case(
            #[trigger] title.subrange(i, i + n),
            text@,
        ) {
        let i = choose|i: int|
            0 <= i <= title.len() - n && equal_up_to_case(
                #[trigger] title.subrange(i, i + n),
                text@,
            );
        lemma_lowered_equal(title.subrange(i, i + n), text@);
        assert(occurs_at(low, wanted, i));
    }
}

/// The case of letters does not matter to a title filter, neither in the title nor in the
/// filter. The texts are ASCII here.
pub proof fn law_title_filter_ignores_case(
    one: Filters,
    other: Filters,
    one_text: String,
    other_text: String,
    title: Seq<char>,
    same_title: Seq<char>,
)
    requires
        one.title == Some(one_text),
        other.title == Some(other_text),
        is_ascii_chars(one_text@),
        is_ascii_chars(other_text@),
        is_ascii_chars(title),
        is_ascii_chars(same_title),
        equal_up_to_case(one_text@, other_text@),
        equal_up_to_case(title, same_title),
    ensures
        one.title_fits(title) == other.title_fits(same_title),
        contains_text(title, one_text@) ==> one.title_fits(same_title),
{
    lemma_lowered_equal(one_text@, other_text@);
    lemma_lowered_equal(title, same_title);
    if contains_text(title, one_text@) {
        let i = choose|i: int| occurs_at(title, one_text@, i);
        let part = title.subrange(i, i + one_text@.len());
        assert(part == one_text@);
        assert(equal_up_to_case(part, one_text@));
        law_title_filter_looks_for_its_text(one, one_text, title);
    }
}

/// A filter with the whole title, as it is written, selects it, whatever its characters. So does
/// a filter without a text, and no filter on titles at all.
pub proof fn law_title_filter_finds_the_title(filters: Filters, title: Seq<char>)
    requires
        filters.title matches Some(text) ==> text@ == title || text@.len() == 0,
    ensures
        filters.title_fits(title),
{
    if let Some(text) = filters.title {
        let (low, wanted) = (lowered(title), lowered(text@));
        assert(low.subrange(0, wanted.len() as int) =~= wanted);
        assert(occurs_at(low, wanted, 0));
    }
}

/// Dates are in the order of the calendar, and a range holds its first day and not its last:
/// a date is in the range exactly if it is not before the first day and before the last.
pub proof fn law_date_range_is_half_open(filters: Filters, title: Seq<char>, date: CivilDate)
    requires
        1 <= date.month <= 12 && 1 <= date.day <= 31,
        filters.title is None,
        filters.since matches Some(since) ==> 1 <= since.month <= 12 && 1 <= since.day <= 31,
        filters.before matches Some(before) ==> 1 <= before.month <= 12 && 1 <= before.day <= 31,
    ensures
        ({
            let number = |d: CivilDate| (d.year * 12 + d.month) * 31 + d.day;
            filters.selects(title, Some(date)) <==> {
                &&& filters.since matches Some(since) ==> number(since) <= number(date)
                &&& filters.before matches Some(before) ==> number(date) < number(before)
            }
        }),
{
}

/// A session without a date is selected exactly if no date is asked for.
pub proof fn law_undated_sessions_need_no_dates(filters: Filters, title: Seq<char>)
    requires
        filters.title is None,
    ensures
        filters.selects(title, None) <==> filters.since is None && filters.before is None,
{
}

/// The date of a session need not be readable where it is not asked for, or the title does not fit.
pub proof fn law_dates_matter_where_they_are_asked_for(filters: Filters, session: Session)
    requires
        (filters.since is None && filters.before is None) || !filters.title_fits(session.title@)
            || session.date_created is None,
    ensures
        date_is_readable(filters, session),
{
}

} // verus!
