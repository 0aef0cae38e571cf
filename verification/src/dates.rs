//! Dates: what is read from texts, and their order.
use crate::text::{
    can_cut, chars_in, count_chars_in, decimal, is_cuttable, is_digit, lemma_chars_in,
    lemma_decimal_digits, lemma_starts_ascii, number, to_decimal,
};
use vstd::prelude::*;

verus! {

/// A date of the Gregorian calendar.
#[derive(Clone, Copy, Debug, PartialEq, Eq, Structural)]
pub struct CivilDate {
    pub year: i32,
    pub month: u32,
    pub day: u32,
}

impl CivilDate {
    /// Whether this date comes before another.
    pub open spec fn precedes(self, other: CivilDate) -> bool {
        self.year < other.year || (self.year == other.year && (self.month < other.month || (
        self.month == other.month && self.day < other.day)))
    }

    /// Whether this date comes before another.
    pub fn is_before(&self, other: &CivilDate) -> (r: bool)
        ensures
            r == self.precedes(*other),
    {
        self.year < other.year || (self.year == other.year && (self.month < other.month || (
        self.month == other.month && self.day < other.day)))
    }
}

/// As many zeros.
pub open spec fn zeros(n: nat) -> Seq<char> {
    Seq::new(n, |i: int| '0')
}

/// A number in decimal notation with at least `width` digits.
pub open spec fn padded(n: nat, width: nat) -> Seq<char> {
    let digits = decimal(n);
    if digits.len() < width {
        zeros((width - digits.len()) as nat) + digits
    } else {
        digits
    }
}

/// A year with at least four digits, with a sign if it is not between 0 and 9999.
pub open spec fn year_text(year: int) -> Seq<char> {
    if year < 0 {
        "-"@ + padded((-year) as nat, 4)
    } else if year > 9999 {
        "+"@ + padded(year as nat, 4)
    } else {
        padded(year as nat, 4)
    }
}

/// A date in the form `YYYY-MM-DD`.
pub open spec fn date_text(date: CivilDate) -> Seq<char> {
    year_text(date.year as int) + "-"@ + padded(date.month as nat, 2) + "-"@ + padded(
        date.day as nat,
        2,
    )
}

/// Appends a number in decimal notation with at least `width` digits.
fn push_padded(out: &mut String, n: u64, width: usize)
    ensures
        final(out)@ == old(out)@ + padded(n as nat, width as nat),
{
    let digits = to_decimal(n);
    let count: usize = digits.as_str().unicode_len();
    let mut i: usize = count;
    while i < width
        invariant
            count <= i,
            count <= width ==> i <= width,
            width <= count ==> i == count,
            out@ == old(out)@ + zeros((i - count) as nat),
        decreases width - i,
    {
        out.push('0');
        i = i + 1;
        assert(out@ =~= old(out)@ + zeros((i - count) as nat));
    }
    out.push_str(digits.as_str());
    assert(out@ =~= old(out)@ + padded(n as nat, width as nat));
}

impl CivilDate {
    /// The date in the form `YYYY-MM-DD`.
    pub fn to_string(&self) -> (r: String)
        ensures
            r@ == date_text(*self),
    {
        let year: i64 = self.year as i64;
        let mut r = String::new();
        if year < 0 {
            r.push_str("-");
            push_padded(&mut r, (-year) as u64, 4);
        } else {
            if year > 9999 {
                r.push_str("+");
            }
            push_padded(&mut r, year as u64, 4);
        }
        assert(r@ =~= year_text(self.year as int));
        r.push_str("-");
        push_padded(&mut r, self.month as u64, 2);
        r.push_str("-");
        push_padded(&mut r, self.day as u64, 2);
        r
    }
}

/// Whether a text has the form of a date: four, two and two digits with dashes between.
pub open spec fn is_date(s: Seq<char>) -> bool {
    &&& s.len() == 10
    &&& s[4] == '-' && s[7] == '-'
    &&& forall|i: int| 0 <= i < 10 && i != 4 && i != 7 ==> is_digit(#[trigger] s[i])
}

/// Whether a text begins with ten characters that have the form of a date.
pub open spec fn begins_with_date(text: Seq<char>) -> bool {
    text.len() >= 10 && is_date(text.take(10))
}

/// The number of days of a month.
pub open spec fn days_in_month(year: int, month: int) -> int {
    if month == 2 {
        if year % 4 == 0 && (year % 100 != 0 || year % 400 == 0) {
            29
        } else {
            28
        }
    } else if month == 4 || month == 6 || month == 9 || month == 11 {
        30
    } else {
        31
    }
}

/// The day of the calendar that a text of the form of a date names, if there is one.
pub open spec fn calendar_date(text: Seq<char>) -> Option<CivilDate> {
    let year = number(text.subrange(0, 4)) as int;
    let month = number(text.subrange(5, 7)) as int;
    let day = number(text.subrange(8, 10)) as int;
    if 1 <= month <= 12 && 1 <= day <= days_in_month(year, month) {
        Some(CivilDate { year: year as i32, month: month as u32, day: day as u32 })
    } else {
        None
    }
}

/// Whether a text holds a dash and a digit.
pub open spec fn may_be_date(text: Seq<char>) -> bool {
    text.contains('-') && exists|i: int| 0 <= i < text.len() && is_digit(#[trigger] text[i])
}

/// What `NaiveDate::parse_from_str` reads from a text in a format.
pub uninterp spec fn parsed_date(text: Seq<char>, format: Seq<char>) -> Option<CivilDate>;

/// `chrono::NaiveDate::parse_from_str` reads a date in a format. There is none if the text
/// does not have the format or names no day of the calendar. A text that begins with a date
/// of the form `YYYY-MM-DD` is read, in that format, if nothing follows the date; nothing is
/// read from a text without a dash or without a digit. What is read from other texts, and
/// in other formats, is not stated.
#[verifier::external_body]
fn parse_date(text: &str, format: &str) -> (r: Option<CivilDate>)
    ensures
        r == parsed_date(text@, format@),
        format@ == "%Y-%m-%d"@ && begins_with_date(text@) ==> r == (if text@.len() == 10 {
            calendar_date(text@)
        } else {
            None
        }),
        format@ == "%Y-%m-%d"@ && !may_be_date(text@) ==> r is None,
{
    let date = chrono::NaiveDate::parse_from_str(text, format).ok()?;
    Some(CivilDate {
        year: chrono::Datelike::year(&date),
        month: chrono::Datelike::month(&date),
        day: chrono::Datelike::day(&date),
    })
}

/// Whether `DateTime::parse_from_rfc3339` reads a timestamp from a text.
pub uninterp spec fn is_rfc3339(text: Seq<char>) -> bool;

/// `chrono::DateTime::parse_from_rfc3339` reads an RFC 3339 timestamp. It begins with its
/// date, which is that in the time zone of the timestamp. What is needed after the date is
/// not stated.
#[verifier::external_body]
fn parse_timestamp(text: &str) -> (r: Option<CivilDate>)
    ensures
        r is Some <==> is_rfc3339(text@),
        r is Some ==> begins_with_date(text@) && r == calendar_date(text@.take(10)),
{
    let date = chrono::DateTime::parse_from_rfc3339(text).ok()?.date_naive();
    Some(CivilDate {
        year: chrono::Datelike::year(&date),
        month: chrono::Datelike::month(&date),
        day: chrono::Datelike::day(&date),
    })
}

/// Whether a text is a timestamp, which begins with a date.
pub open spec fn is_timestamp(text: Seq<char>) -> bool {
    begins_with_date(text) && is_rfc3339(text)
}

/// The date that a text of the form `YYYY-MM-DD`, or near to it, stands for.
pub open spec fn plain_date(text: Seq<char>) -> Option<CivilDate> {
    if begins_with_date(text) {
        if text.len() == 10 {
            calendar_date(text)
        } else {
            None
        }
    } else if may_be_date(text) {
        parsed_date(text, "%Y-%m-%d"@)
    } else {
        None
    }
}

/// Reads a date of the form `YYYY-MM-DD`.
pub fn parse_date_filter(s: &str) -> (r: Option<CivilDate>)
    ensures
        r == plain_date(s@),
{
    parse_date(s, "%Y-%m-%d")
}

/// The date that the first ten bytes of a text are.
pub open spec fn leading_date(text: Seq<char>) -> Option<CivilDate> {
    match chars_in(text, 10) {
        Some(k) => plain_date(text.take(k)),
        None => None,
    }
}

/// The date of a session: that of a timestamp, else a plain date, else the date that the
/// text begins with.
pub open spec fn session_date(text: Seq<char>) -> Option<CivilDate> {
    if is_timestamp(text) {
        calendar_date(text.take(10))
    } else if plain_date(text) is Some {
        plain_date(text)
    } else {
        leading_date(text)
    }
}

/// Whether a text is a timestamp or a date, or can be cut after ten bytes if it is that long.
pub open spec fn has_readable_start(text: Seq<char>) -> bool {
    is_timestamp(text) || plain_date(text) is Some || can_cut(text, 10)
}

/// Reads the date of a session from a text: a timestamp, a date of the form `YYYY-MM-DD`, or
/// a text that begins with one. A text that is neither a timestamp nor a date must not have
/// a character across its tenth byte.
pub fn parse_session_date(date_str: &str) -> (r: Option<CivilDate>)
    requires
        has_readable_start(date_str@),
    ensures
        r == session_date(date_str@),
        !may_be_date(date_str@) ==> r is None,
{
    proof {
        if !may_be_date(date_str@) {
            law_no_date_without_dash_and_digit(date_str@);
        }
    }
    if let Some(date) = parse_timestamp(date_str) {
        return Some(date);
    }
    if let Some(date) = parse_date_filter(date_str) {
        return Some(date);
    }
    match count_chars_in(date_str, 10) {
        Some(k) => {
            assert(date_str@.subrange(0, k as int) =~= date_str@.take(k as int));
            parse_date_filter(date_str.substring_char(0, k))
        },
        None => None,
    }
}

/// Reads the date of a session from any text. Gives nothing if the text is neither a
/// timestamp nor a date and has a character across its tenth byte.
pub fn read_session_date(date_str: &str) -> (r: Option<Option<CivilDate>>)
    ensures
        match r {
            Some(date) => has_readable_start(date_str@) && date == session_date(date_str@),
            None => !has_readable_start(date_str@),
        },
{
    if parse_timestamp(date_str).is_some() || parse_date_filter(date_str).is_some()
        || is_cuttable(date_str, 10) {
        Some(parse_session_date(date_str))
    } else {
        None
    }
}

/// A session whose date begins with the form `YYYY-MM-DD` has the date that is written there,
/// whatever follows it.
pub proof fn law_session_date_is_what_it_begins_with(text: Seq<char>)
    requires
        begins_with_date(text),
    ensures
        session_date(text) == calendar_date(text.take(10)),
        has_readable_start(text),
{
    let head = text.take(10);
    assert(head.take(10) =~= head);
    assert forall|i: int| 0 <= i < 10 implies #[trigger] text[i] <= '\u{7f}' by {
        assert(head[i] == text[i]);
    }
    lemma_starts_ascii(text, 10);
    if text.len() == 10 {
        assert(head =~= text);
    }
}

/// A text without a dash, or without a digit, holds no date.
pub proof fn law_no_date_without_dash_and_digit(text: Seq<char>)
    requires
        !may_be_date(text),
    ensures
        plain_date(text) is None,
        session_date(text) is None,
{
    if begins_with_date(text) {
        let head = text.take(10);
        assert(head[4] == text[4] && is_digit(head[0]) && head[0] == text[0]);
        assert(text.contains(text[4]));
    }
    lemma_chars_in(text, 10);
    if let Some(k) = chars_in(text, 10) {
        let head = text.take(k);
        if may_be_date(head) {
            let i = choose|i: int| 0 <= i < head.len() && is_digit(#[trigger] head[i]);
            let j = choose|j: int| 0 <= j < head.len() && head[j] == '-';
            assert(text[i] == head[i] && text[j] == head[j]);
        }
        if begins_with_date(head) {
            assert(head.take(10)[4] == head[4] && is_digit(head.take(10)[0]));
            assert(head.contains(head[4]) && is_digit(head[0]));
        }
    }
}

/// The value of the decimal notation of a number is the number.
pub proof fn lemma_decimal_number(n: nat)
    ensures
        number(decimal(n)) == n,
    decreases n,
{
    assert(decimal(n).last() as int == '0' as int + n % 10);
    if n >= 10 {
        lemma_decimal_number(n / 10);
        assert(decimal(n).drop_last() =~= decimal(n / 10));
    } else {
        assert(decimal(n).drop_last() =~= Seq::empty());
        assert(number(decimal(n).drop_last()) == 0);
    }
}

proof fn lemma_zeros_number(n: nat, digits: Seq<char>)
    ensures
        number(zeros(n) + digits) == number(digits),
    decreases digits.len(), n,
{
    let s = zeros(n) + digits;
    if digits.len() > 0 {
        assert(s.drop_last() =~= zeros(n) + digits.drop_last());
        lemma_zeros_number(n, digits.drop_last());
    } else if n > 0 {
        assert(s.drop_last() =~= zeros((n - 1) as nat) + digits);
        lemma_zeros_number((n - 1) as nat, digits);
    } else {
        assert(s =~= digits);
    }
}

proof fn lemma_padded_number(n: nat, width: nat)
    requires
        decimal(n).len() <= width,
    ensures
        padded(n, width).len() == width,
        number(padded(n, width)) == n,
        forall|i: int| 0 <= i < width ==> is_digit(#[trigger] padded(n, width)[i]),
{
    lemma_decimal_digits(n);
    lemma_decimal_number(n);
    lemma_zeros_number((width - decimal(n).len()) as nat, decimal(n));
}

/// A day of a year between 0 and 9999 that is written as text is read back from it.
pub proof fn law_written_date_is_read_back(date: CivilDate)
    requires
        0 <= date.year <= 9999,
        1 <= date.month <= 12,
        1 <= date.day <= days_in_month(date.year as int, date.month as int),
    ensures
        plain_date(date_text(date)) == Some(date),
        session_date(date_text(date)) == Some(date),
{
    let text = date_text(date);
    let (y, m, d) = (date.year as nat, date.month as nat, date.day as nat);
    reveal_with_fuel(decimal, 5);
    lemma_padded_number(y, 4);
    lemma_padded_number(m, 2);
    lemma_padded_number(d, 2);
    reveal_strlit("-");
    assert(text.len() == 10);
    assert(text.take(10) =~= text);
    assert(text.subrange(0, 4) =~= padded(y, 4));
    assert(text.subrange(5, 7) =~= padded(m, 2));
    assert(text.subrange(8, 10) =~= padded(d, 2));
    assert forall|i: int| 0 <= i < 10 && i != 4 && i != 7 implies is_digit(#[trigger] text[i]) by {
        if i < 4 {
            assert(text[i] == padded(y, 4)[i]);
        } else if i < 7 {
            assert(text[i] == padded(m, 2)[i - 5]);
        } else {
            assert(text[i] == padded(d, 2)[i - 8]);
        }
    }
    law_session_date_is_what_it_begins_with(text);
}

/// The value of two digits.
pub open spec fn two_digits(a: char, b: char) -> int {
    (a as int - '0' as int) * 10 + (b as int - '0' as int)
}

/// A date between the years 0 and 9999 is written as the four digits of the year, the two of the
/// month and the two of the day, in that order, with dashes between.
pub proof fn law_dates_are_written_year_first(date: CivilDate)
    requires
        0 <= date.year <= 9999,
        date.month <= 99,
        date.day <= 99,
    ensures
        ({
            let text = date_text(date);
            &&& text.len() == 10
            &&& text[4] == '-' && text[7] == '-'
            &&& two_digits(text[0], text[1]) * 100 + two_digits(text[2], text[3]) == date.year
            &&& two_digits(text[5], text[6]) == date.month
            &&& two_digits(text[8], text[9]) == date.day
        }),
{
    let text = date_text(date);
    let (y, m, d) = (date.year as nat, date.month as nat, date.day as nat);
    reveal_with_fuel(decimal, 5);
    lemma_padded_number(y, 4);
    lemma_padded_number(m, 2);
    lemma_padded_number(d, 2);
    reveal_strlit("-");
    lemma_four_digits(padded(y, 4));
    lemma_two_digits(padded(m, 2));
    lemma_two_digits(padded(d, 2));
    assert(text[0] == padded(y, 4)[0] && text[1] == padded(y, 4)[1] && text[2] == padded(y, 4)[2]
        && text[3] == padded(y, 4)[3]);
    assert(text[5] == padded(m, 2)[0] && text[6] == padded(m, 2)[1]);
    assert(text[8] == padded(d, 2)[0] && text[9] == padded(d, 2)[1]);
}

proof fn lemma_two_digits(digits: Seq<char>)
    requires
        digits.len() == 2,
        forall|i: int| 0 <= i < 2 ==> is_digit(#[trigger] digits[i]),
    ensures
        number(digits) == two_digits(digits[0], digits[1]),
{
    reveal_with_fuel(number, 3);
    assert(is_digit(digits[0]) && is_digit(digits[1]));
    assert(digits.drop_last().last() == digits[0]);
    assert(digits.drop_last().drop_last() =~= Seq::empty());
}

proof fn lemma_four_digits(digits: Seq<char>)
    requires
        digits.len() == 4,
        forall|i: int| 0 <= i < 4 ==> is_digit(#[trigger] digits[i]),
    ensures
        number(digits) == two_digits(digits[0], digits[1]) * 100 + two_digits(
            digits[2],
            digits[3],
        ),
{
    let start = digits.take(2);
    lemma_two_digits(start);
    assert(digits.drop_last().drop_last() =~= start);
    assert(digits.drop_last().last() == digits[2]);
    assert(is_digit(digits[2]) && is_digit(digits[3]));
    assert(number(digits.drop_last()) == number(start) * 10 + (digits[2] as int - '0' as int));
}

/// A text that begins with four, two and two digits with dashes between is the date of the year,
/// the month and the day that they spell, if there is such a day.
pub proof fn law_session_date_is_read_year_first(text: Seq<char>, year: int, month: int, day: int)
    requires
        text.len() >= 10,
        text[4] == '-' && text[7] == '-',
        forall|i: int| 0 <= i < 10 && i != 4 && i != 7 ==> '0' <= #[trigger] text[i] <= '9',
        year == two_digits(text[0], text[1]) * 100 + two_digits(text[2], text[3]),
        month == two_digits(text[5], text[6]),
        day == two_digits(text[8], text[9]),
    ensures
        1 <= month <= 12 && 1 <= day <= 28 ==> session_date(text) == Some(
            CivilDate { year: year as i32, month: month as u32, day: day as u32 },
        ),
        month == 0 || month > 12 || day == 0 || day > 31 ==> session_date(text) is None,
        month == 2 && day == 29 ==> (session_date(text) is Some <==> year % 4 == 0 && (year % 100
            != 0 || year % 400 == 0)),
        month == 2 && day == 30 ==> session_date(text) is None,
        day == 31 && (month == 4 || month == 6 || month == 9 || month == 11) ==> session_date(text)
            is None,
        session_date(text) matches Some(date) ==> date.year == year && date.month == month
            && date.day == day,
{
    let head = text.take(10);
    assert forall|i: int| 0 <= i < 10 && i != 4 && i != 7 implies is_digit(
        #[trigger] head[i],
    ) by {
        assert(head[i] == text[i]);
    }
    assert(head[4] == '-' && head[7] == '-');
    law_session_date_is_what_it_begins_with(text);
    let (y, m, d) = (head.subrange(0, 4), head.subrange(5, 7), head.subrange(8, 10));
    assert forall|i: int| 0 <= i < 4 implies is_digit(#[trigger] y[i]) by {
        assert(y[i] == head[i]);
    }
    assert forall|i: int| 0 <= i < 2 implies is_digit(#[trigger] m[i]) by {
        assert(m[i] == head[5 + i]);
    }
    assert forall|i: int| 0 <= i < 2 implies is_digit(#[trigger] d[i]) by {
        assert(d[i] == head[8 + i]);
    }
    lemma_four_digits(y);
    lemma_two_digits(m);
    lemma_two_digits(d);
    assert(y[0] == text[0] && y[1] == text[1] && y[2] == text[2] && y[3] == text[3]);
    assert(m[0] == text[5] && m[1] == text[6] && d[0] == text[8] && d[1] == text[9]);
}

/// A date to select by is a whole text: with anything behind the day there is none.
pub proof fn law_filter_dates_are_whole(text: Seq<char>)
    requires
        begins_with_date(text),
    ensures
        text.len() > 10 ==> plain_date(text) is None,
        text.len() == 10 ==> plain_date(text) == session_date(text),
{
    law_session_date_is_what_it_begins_with(text);
    assert(text.len() == 10 ==> text.take(10) =~= text);
}

} // verus!
