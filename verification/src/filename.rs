//! The names of the files that transcripts are written to.
use crate::dates::is_date;
use crate::text::{
    can_cut, chars_of, decimal, digit, is_digit, opt_str, push_decimal, text_or, trim_end_char,
    without_trailing,
};
use vstd::hash_set::StringHashSet;
use vstd::prelude::*;

verus! {

/// What `char::is_alphanumeric` tells of a character.
pub uninterp spec fn alphanumeric(c: char) -> bool;

/// `char::is_alphanumeric` tells whether a character has Unicode's `Alphabetic` property or
/// is a number. It depends on the character alone. Of ASCII characters those are the letters
/// and the digits; which others there are is not stated.
pub assume_specification[ char::is_alphanumeric ](c: char) -> (r: bool)
    ensures
        r == alphanumeric(c),
        c <= '\u{7f}' ==> r == ('0' <= c <= '9' || 'A' <= c <= 'Z' || 'a' <= c <= 'z'),
;

/// The greatest length, in characters, of a title in the name of a file.
pub const MAX_FILENAME_LEN: usize = 60;

/// Whether a character may stand in the name of a file: letters and numbers may, and dashes
/// and underscores.
pub open spec fn is_safe(c: char) -> bool {
    if c <= '\u{7f}' {
        '0' <= c <= '9' || 'A' <= c <= 'Z' || 'a' <= c <= 'z' || c == '-' || c == '_'
    } else {
        alphanumeric(c)
    }
}

/// A character, or an underscore if it may not stand in the name of a file.
pub open spec fn safe_char(c: char) -> char {
    if is_safe(c) {
        c
    } else {
        '_'
    }
}

/// The first `n` characters.
pub open spec fn truncated(s: Seq<char>, n: int) -> Seq<char> {
    if s.len() > n {
        s.take(n)
    } else {
        s
    }
}

/// A title as part of the name of a file.
pub open spec fn sanitized(s: Seq<char>) -> Seq<char> {
    without_trailing(
        truncated(s.map_values(|c: char| safe_char(c)), MAX_FILENAME_LEN as int),
        '_',
    )
}

/// Turns a title into a part of the name of a file: characters that may not stand there
/// become underscores, it is cut to `MAX_FILENAME_LEN` characters, and then underscores are
/// removed from its end.
pub fn sanitize_filename(s: &str) -> (r: String)
    ensures
        r@ == sanitized(s@),
{
    let v = chars_of(s);
    let ghost all = s@.map_values(|c: char| safe_char(c));
    let mut out = String::new();
    let mut i: usize = 0;
    assert(out@ =~= all.take(0));
    while i < v.len() && i < MAX_FILENAME_LEN
        invariant
            v@ == s@,
            all == s@.map_values(|c: char| safe_char(c)),
            i <= v.len(),
            i <= MAX_FILENAME_LEN,
            out@ == all.take(i as int),
        decreases v.len() - i,
    {
        let c = v[i];
        out.push(
            if c.is_alphanumeric() || c == '-' || c == '_' {
                c
            } else {
                '_'
            },
        );
        assert(all.take(i + 1) =~= all.take(i as int).push(safe_char(c)));
        i = i + 1;
    }
    assert(all.take(i as int) =~= truncated(all, MAX_FILENAME_LEN as int));
    trim_end_char(out.as_str(), '_').to_string()
}

proof fn lemma_without_trailing(s: Seq<char>, c: char)
    ensures
        without_trailing(s, c).is_prefix_of(s),
        without_trailing(s, c).len() > 0 ==> without_trailing(s, c).last() != c,
        without_trailing(without_trailing(s, c), c) == without_trailing(s, c),
    decreases s.len(),
{
    if s.len() > 0 && s.last() == c {
        lemma_without_trailing(s.drop_last(), c);
        let r = without_trailing(s, c);
        assert(r =~= s.take(r.len() as int));
    } else {
        assert(s =~= s.take(s.len() as int));
    }
}

/// A sanitized title is not longer than `MAX_FILENAME_LEN`, holds safe characters only and
/// does not end in an underscore. Sanitizing it again does not change it.
pub proof fn law_sanitized_is_safe(s: Seq<char>)
    ensures
        sanitized(s).len() <= MAX_FILENAME_LEN,
        forall|i: int| 0 <= i < sanitized(s).len() ==> is_safe(#[trigger] sanitized(s)[i]),
        sanitized(s).len() > 0 ==> sanitized(s).last() != '_',
        sanitized(sanitized(s)) == sanitized(s),
{
    let mapped = truncated(s.map_values(|c: char| safe_char(c)), MAX_FILENAME_LEN as int);
    let r = sanitized(s);
    lemma_without_trailing(mapped, '_');
    assert forall|i: int| 0 <= i < r.len() implies is_safe(#[trigger] r[i]) by {
        assert(r[i] == mapped[i]);
        assert(mapped[i] == safe_char(s[i]));
    }
    assert(r.map_values(|c: char| safe_char(c)) =~= r);
    lemma_without_trailing(r, '_');
}

/// The date that a text begins with.
pub open spec fn date_prefix(s: Seq<char>) -> Option<Seq<char>> {
    if s.len() >= 10 && is_date(s.take(10)) {
        Some(s.take(10))
    } else {
        None
    }
}

/// Extracts the date `YYYY-MM-DD` that a text begins with. The text must not have a
/// character across its tenth byte.
pub fn extract_date_prefix(date: &str) -> (r: Option<String>)
    requires
        can_cut(date@, 10),
    ensures
        match r {
            Some(prefix) => date_prefix(date@) == Some(prefix@),
            None => date_prefix(date@) is None,
        },
{
    let v = chars_of(date);
    if v.len() < 10 {
        return None;
    }
    let ghost head = date@.take(10);
    let mut i: usize = 0;
    while i < 10
        invariant
            v@ == date@,
            v.len() >= 10,
            head == date@.take(10),
            i <= 10,
            forall|k: int| 0 <= k < i && k != 4 && k != 7 ==> is_digit(#[trigger] head[k]),
            i > 4 ==> head[4] == '-',
            i > 7 ==> head[7] == '-',
        decreases 10 - i,
    {
        let c = v[i];
        assert(head[i as int] == c);
        let fits = if i == 4 || i == 7 {
            c == '-'
        } else {
            '0' <= c && c <= '9'
        };
        if !fits {
            return None;
        }
        i = i + 1;
    }
    assert(date@.subrange(0, 10) =~= head);
    Some(date.substring_char(0, 10).to_string())
}

/// The name of a file without number and extension: the title, after the date if there is one.
pub open spec fn base_name(title: Seq<char>, date: Option<Seq<char>>) -> Seq<char> {
    let name = text_or(sanitized(title), "untitled"@);
    match date {
        Some(d) => match date_prefix(d) {
            Some(prefix) => prefix + "_"@ + name,
            None => name,
        },
        None => name,
    }
}

/// The name of a file with the number `n`. The number 0 is left out.
pub open spec fn numbered(base: Seq<char>, n: nat) -> Seq<char> {
    if n == 0 {
        base + ".html"@
    } else {
        base + "_"@ + decimal(n) + ".html"@
    }
}

/// The names that are taken.
pub struct UsedNames {
    names: StringHashSet,
}

impl View for UsedNames {
    type V = Set<Seq<char>>;

    closed spec fn view(&self) -> Set<Seq<char>> {
        self.names@
    }
}

impl UsedNames {
    /// No name is taken.
    pub fn new() -> (r: UsedNames)
        ensures
            r@ == Set::<Seq<char>>::empty(),
    {
        UsedNames { names: StringHashSet::new() }
    }

    /// Whether a name is taken.
    pub fn contains(&self, name: &str) -> (r: bool)
        ensures
            r == self@.contains(name@),
    {
        self.names.contains(name)
    }
}

/// Whether `n` is the first number under which the name is free.
pub open spec fn is_first_free(used: Set<Seq<char>>, base: Seq<char>, n: nat) -> bool {
    !used.contains(numbered(base, n)) && forall|m: nat|
        m < n ==> used.contains(#[trigger] numbered(base, m))
}

/// Whether `name` is made from `base` with the first number under which it is free.
pub open spec fn is_free_name(used: Set<Seq<char>>, base: Seq<char>, name: Seq<char>) -> bool {
    exists|n: nat| #[trigger] is_first_free(used, base, n) && name == numbered(base, n)
}

/// Whether a name is free under some number that fits in 32 bits.
pub open spec fn has_free(used: Set<Seq<char>>, base: Seq<char>) -> bool {
    exists|n: nat| n <= u32::MAX && !used.contains(#[trigger] numbered(base, n))
}

proof fn lemma_decimal_injective(a: nat, b: nat)
    ensures
        decimal(a) == decimal(b) ==> a == b,
    decreases a,
{
    assert(decimal(a).len() > 0 && decimal(b).len() > 0);
    if decimal(a) == decimal(b) {
        assert(decimal(a).last() == digit((a % 10) as int));
        assert(decimal(b).last() == digit((b % 10) as int));
        assert(a % 10 == b % 10);
        if a < 10 {
            if b >= 10 {
                assert(decimal(b / 10).len() > 0);
            }
        } else {
            if b < 10 {
                assert(decimal(a / 10).len() > 0);
            } else {
                assert(decimal(a).drop_last() =~= decimal(a / 10));
                assert(decimal(b).drop_last() =~= decimal(b / 10));
                lemma_decimal_injective(a / 10, b / 10);
            }
        }
    }
}

proof fn lemma_numbered_injective(base: Seq<char>, a: nat, b: nat)
    requires
        numbered(base, a) == numbered(base, b),
    ensures
        a == b,
{
    reveal_strlit("_");
    let end = ".html"@;
    let x = numbered(base, a);
    let y = numbered(base, b);
    assert(decimal(a).len() > 0 && decimal(b).len() > 0);
    assert(a == 0 ==> x.len() == base.len() + end.len());
    assert(a > 0 ==> x.len() == base.len() + 1 + decimal(a).len() + end.len());
    assert(b == 0 ==> y.len() == base.len() + end.len());
    assert(b > 0 ==> y.len() == base.len() + 1 + decimal(b).len() + end.len());
    if a > 0 && b > 0 {
        let k = base.len() as int + 1;
        assert(x.subrange(k, k + decimal(a).len()) =~= decimal(a));
        assert(y.subrange(k, k + decimal(b).len()) =~= decimal(b));
        lemma_decimal_injective(a, b);
    }
}

spec fn first_names(base: Seq<char>, n: nat) -> Set<Seq<char>>
    decreases n,
{
    if n == 0 {
        Set::empty()
    } else {
        first_names(base, (n - 1) as nat).insert(numbered(base, (n - 1) as nat))
    }
}

proof fn lemma_first_names(base: Seq<char>, n: nat)
    ensures
        first_names(base, n).finite(),
        first_names(base, n).len() == n,
        forall|x: Seq<char>|
            first_names(base, n).contains(x) ==> exists|m: nat| m < n && x == numbered(base, m),
    decreases n,
{
    if n > 0 {
        let k = (n - 1) as nat;
        lemma_first_names(base, k);
        if first_names(base, k).contains(numbered(base, k)) {
            let m = choose|m: nat| m < k && numbered(base, k) == numbered(base, m);
            lemma_numbered_injective(base, k, m);
        }
        assert forall|x: Seq<char>| first_names(base, n).contains(x) implies exists|m: nat|
            m < n && x == numbered(base, m) by {
            if first_names(base, k).contains(x) {
                let m = choose|m: nat| m < k && x == numbered(base, m);
                assert(m < n && x == numbered(base, m));
            } else {
                assert(x == numbered(base, k));
            }
        }
    }
}

/// Among fewer names than there are numbers of 32 bits, one number is free.
proof fn lemma_has_free(used: Set<Seq<char>>, base: Seq<char>)
    requires
        used.finite(),
        used.len() <= u32::MAX,
    ensures
        has_free(used, base),
{
    let n = (u32::MAX + 1) as nat;
    lemma_first_names(base, n);
    if !has_free(used, base) {
        assert forall|x: Seq<char>| first_names(base, n).contains(x) implies used.contains(x) by {
            let m = choose|m: nat| m < n && x == numbered(base, m);
            assert(used.contains(numbered(base, m)));
        }
        vstd::set_lib::lemma_len_subset(first_names(base, n), used);
    }
}

fn make_base_name(title: &str, date: Option<&str>) -> (r: String)
    requires
        date matches Some(d) ==> can_cut(d@, 10),
    ensures
        r@ == base_name(title@, opt_str(date)),
{
    let cleaned = sanitize_filename(title);
    let name = if cleaned.as_str().is_empty() {
        "untitled".to_string()
    } else {
        cleaned
    };
    let prefix = match date {
        Some(d) => extract_date_prefix(d),
        None => None,
    };
    match prefix {
        Some(mut r) => {
            r.push_str("_");
            r.push_str(name.as_str());
            r
        },
        None => name,
    }
}

fn number_name(base: &str, n: u32) -> (r: String)
    ensures
        r@ == numbered(base@, n as nat),
{
    let mut r = base.to_string();
    if n > 0 {
        r.push_str("_");
        push_decimal(&mut r, n as u64);
    }
    r.push_str(".html");
    r
}

/// Whether `name` is free in `before` and `after` is `before` with it.
pub open spec fn claims(before: Set<Seq<char>>, name: Seq<char>, after: Set<Seq<char>>) -> bool {
    !before.contains(name) && after == before.insert(name)
}

/// Makes a name that is not taken, and takes it.
///
/// The name is made from the title. It begins with the date `YYYY-MM-DD`, where one is
/// known, so that files sort by it. If the name is taken, the first number under which it
/// is free follows it.
pub fn unique_filename(title: &str, date: Option<&str>, used: &mut UsedNames) -> (r: String)
    requires
        date matches Some(d) ==> can_cut(d@, 10),
        (old(used)@.finite() && old(used)@.len() <= u32::MAX) || has_free(
            old(used)@,
            base_name(title@, opt_str(date)),
        ),
    ensures
        is_free_name(old(used)@, base_name(title@, opt_str(date)), r@),
        claims(old(used)@, r@, final(used)@),
{
    let base = make_base_name(title, date);
    let ghost before = used@;
    proof {
        if before.finite() && before.len() <= u32::MAX {
            lemma_has_free(before, base@);
        }
    }
    let mut n: u32 = 0;
    let mut name = number_name(base.as_str(), 0);
    while used.names.contains(name.as_str())
        invariant
            used@ == before,
            used.names@ == before,
            has_free(before, base@),
            name@ == numbered(base@, n as nat),
            forall|m: nat| m < n ==> before.contains(#[trigger] numbered(base@, m)),
        decreases u32::MAX - n,
    {
        proof {
            if n == u32::MAX {
                let k = choose|k: nat|
                    k <= u32::MAX && !before.contains(#[trigger] numbered(base@, k));
                assert(before.contains(numbered(base@, k)));
            }
        }
        n = n + 1;
        name = number_name(base.as_str(), n);
    }
    assert(is_first_free(before, base@, n as nat));
    used.names.insert(name.clone());
    name
}

/// Whether `names` are made one after the other from `titles` and `dates`: each is free among
/// the names that are used before it, and the names that are used after it hold it too.
pub open spec fn are_made(
    titles: Seq<Seq<char>>,
    dates: Seq<Option<Seq<char>>>,
    names: Seq<Seq<char>>,
    used: Seq<Set<Seq<char>>>,
) -> bool {
    &&& titles.len() == names.len()
    &&& dates.len() == names.len()
    &&& used.len() == names.len() + 1
    &&& forall|k: int|
        0 <= k < names.len() ==> {
            &&& is_free_name(used[k], base_name(titles[k], dates[k]), #[trigger] names[k])
            &&& claims(used[k], names[k], used[k + 1])
        }
}

/// Names that are made one after the other, from any titles and dates, are all different, and
/// none was used before. Each ends in `.html`. In the end the names that are used are those
/// from before and the ones that were made.
pub proof fn law_names_are_unique(
    titles: Seq<Seq<char>>,
    dates: Seq<Option<Seq<char>>>,
    names: Seq<Seq<char>>,
    used: Seq<Set<Seq<char>>>,
)
    requires
        are_made(titles, dates, names, used),
    ensures
        names.no_duplicates(),
        forall|k: int|
            0 <= k < names.len() ==> !used[0].contains(#[trigger] names[k]),
        forall|k: int|
            0 <= k < names.len() ==> ".html"@.is_suffix_of(#[trigger] names[k]),
        used.last() == used[0].union(names.to_set()),
    decreases names.len(),
{
    if names.len() == 0 {
        assert(used.last() =~= used[0].union(names.to_set()));
    } else {
        let n = names.len() - 1;
        let fewer = names.drop_last();
        let before = used.drop_last();
        assert(are_made(titles.drop_last(), dates.drop_last(), fewer, before)) by {
            assert forall|k: int| 0 <= k < fewer.len() implies is_free_name(
                before[k],
                base_name(titles.drop_last()[k], dates.drop_last()[k]),
                #[trigger] fewer[k],
            ) && claims(before[k], fewer[k], before[k + 1]) by {
                assert(names[k] == fewer[k]);
            }
        }
        law_names_are_unique(titles.drop_last(), dates.drop_last(), fewer, before);
        let last = names[n];
        assert(claims(used[n], last, used[n + 1]));
        assert(before.last() == used[n]);
        assert(!fewer.contains(last) && !used[0].contains(last)) by {
            assert(fewer.contains(last) ==> fewer.to_set().contains(last));
        }
        assert forall|j: int, k: int| 0 <= j < names.len() && 0 <= k < names.len() && j
            != k implies names[j] != names[k] by {
            if j < n {
                assert(fewer[j] == names[j]);
            }
            if k < n {
                assert(fewer[k] == names[k]);
            }
        }
        assert forall|k: int| 0 <= k < names.len() implies !used[0].contains(
            #[trigger] names[k],
        ) && ".html"@.is_suffix_of(names[k]) by {
            if k < n {
                assert(fewer[k] == names[k]);
            } else {
                let base = base_name(titles[n], dates[n]);
                assert(is_free_name(used[n], base, last));
                let m = choose|m: nat|
                    #[trigger] is_first_free(used[n], base, m) && last == numbered(base, m);
                lemma_numbered_ends(base, m);
            }
        }
        assert(names =~= fewer.push(last));
        assert forall|x: Seq<char>| used.last().contains(x) == used[0].union(
            names.to_set(),
        ).contains(x) by {
            if names.contains(x) {
                let k = choose|k: int| 0 <= k < names.len() && names[k] == x;
                if k < n {
                    assert(fewer[k] == x);
                }
            }
            if fewer.contains(x) {
                let k = choose|k: int| 0 <= k < fewer.len() && fewer[k] == x;
                assert(names[k] == x);
            }
            assert(names[n] == last);
        }
        assert(used.last() =~= used[0].union(names.to_set()));
    }
}

proof fn lemma_numbered_ends(base: Seq<char>, n: nat)
    ensures
        ".html"@.is_suffix_of(numbered(base, n)),
{
    let name = numbered(base, n);
    assert(name.subrange(name.len() - ".html"@.len(), name.len() as int) =~= ".html"@);
}

/// A sanitized title is made of the first sixty characters of the title, or of fewer: ASCII
/// letters, digits, dashes and underscores are kept, and every other ASCII character becomes
/// an underscore. What is left out at its end became underscores.
pub proof fn law_titles_are_sanitized_by_character(s: Seq<char>)
    ensures
        ({
            let r = sanitized(s);
            let n = if s.len() < 60 {
                s.len() as int
            } else {
                60
            };
            let keeps = |c: char|
                ('0' <= c <= '9') || ('A' <= c <= 'Z') || ('a' <= c <= 'z') || c == '-' || c == '_';
            &&& r.len() <= n
            &&& forall|i: int|
                0 <= i < r.len() && s[i] <= '\u{7f}' ==> #[trigger] r[i] == (if keeps(s[i]) {
                    s[i]
                } else {
                    '_'
                })
            &&& forall|i: int|
                0 <= i < r.len() && s[i] > '\u{7f}' ==> #[trigger] r[i] == (if alphanumeric(s[i]) {
                    s[i]
                } else {
                    '_'
                })
            &&& forall|i: int|
                r.len() <= i < n && (#[trigger] s[i]) <= '\u{7f}' ==> s[i] == '_' || !keeps(s[i])
        }),
{
    let mapped = truncated(s.map_values(|c: char| safe_char(c)), 60);
    lemma_without_trailing(mapped, '_');
    lemma_trailing(mapped, '_');
    let r = sanitized(s);
    assert forall|i: int| 0 <= i < r.len() implies r[i] == safe_char(s[i]) by {
        assert(r[i] == mapped[i]);
    }
    assert forall|i: int| r.len() <= i < mapped.len() implies safe_char(
        #[trigger] s[i],
    ) == '_' by {
        assert(mapped[i] == '_');
        assert(mapped[i] == safe_char(s[i]));
    }
}

proof fn lemma_trailing(s: Seq<char>, c: char)
    ensures
        without_trailing(s, c).len() <= s.len(),
        forall|i: int| without_trailing(s, c).len() <= i < s.len() ==> #[trigger] s[i] == c,
    decreases s.len(),
{
    if s.len() > 0 && s.last() == c {
        lemma_trailing(s.drop_last(), c);
        assert forall|i: int| without_trailing(s, c).len() <= i < s.len() implies #[trigger] s[i]
            == c by {
            if i < s.len() - 1 {
                assert(s.drop_last()[i] == s[i]);
            }
        }
    }
}

/// Whether a text begins with four, two and two digits with dashes between.
pub open spec fn begins_with_day(date: Seq<char>) -> bool {
    &&& date.len() >= 10
    &&& date[4] == '-'
    &&& date[7] == '-'
    &&& forall|i: int| 0 <= i < 10 && i != 4 && i != 7 ==> '0' <= #[trigger] date[i] <= '9'
}

/// The name of a file is made from the sanitized title, or from `untitled` if nothing is left of
/// it. It begins with the day of the date, if there is one, so that files sort by date.
pub proof fn law_names_begin_with_the_day(title: Seq<char>, date: Option<Seq<char>>)
    ensures
        ({
            let name = if sanitized(title).len() > 0 {
                sanitized(title)
            } else {
                "untitled"@
            };
            base_name(title, date) == (if date is Some && begins_with_day(date->0) {
                date->0.take(10) + "_"@ + name
            } else {
                name
            })
        }),
{
    if let Some(d) = date {
        if begins_with_day(d) {
            let head = d.take(10);
            assert forall|i: int| 0 <= i < 10 && i != 4 && i != 7 implies is_digit(
                #[trigger] head[i],
            ) by {
                assert(head[i] == d[i]);
            }
            assert(is_date(head));
        } else if d.len() >= 10 && is_date(d.take(10)) {
            let head = d.take(10);
            assert forall|i: int| 0 <= i < 10 && i != 4 && i != 7 implies '0' <= #[trigger] d[i]
                <= '9' by {
                assert(head[i] == d[i]);
                assert(is_digit(head[i]));
            }
            assert(d[4] == head[4] && d[7] == head[7]);
        }
    }
}

/// A name that is free is taken as it is, with the extension `.html`. If it is taken, the least
/// number from one on under which it is free stands behind an underscore before the extension.
pub proof fn law_taken_names_are_numbered(used: Set<Seq<char>>, base: Seq<char>, name: Seq<char>)
    requires
        is_free_name(used, base, name),
    ensures
        !used.contains(name),
        !used.contains(base + ".html"@) ==> name == base + ".html"@,
        used.contains(base + ".html"@) ==> exists|n: nat|
            n > 0 && name == #[trigger] (base + "_"@ + decimal(n) + ".html"@) && forall|m: nat|
                0 < m < n ==> used.contains(#[trigger] (base + "_"@ + decimal(m) + ".html"@)),
{
    let n = choose|n: nat| #[trigger] is_first_free(used, base, n) && name == numbered(base, n);
    assert(numbered(base, 0) == base + ".html"@);
    if n > 0 {
        assert(used.contains(numbered(base, 0)));
        assert forall|m: nat| 0 < m < n implies used.contains(
            #[trigger] (base + "_"@ + decimal(m) + ".html"@),
        ) by {
            assert(used.contains(numbered(base, m)));
        }
        assert(name == base + "_"@ + decimal(n) + ".html"@);
    }
}

} // verus!
