//! Text primitives: a model of strings as sequences of characters, and the
//! operations on them that the renderers are built from.
use vstd::prelude::*;
use vstd::utf8::encode_utf8;

verus! {

/// `String::push` appends one character to the end of the string.
pub assume_specification[ String::push ](text: &mut String, c: char)
    ensures
        final(text)@ == old(text)@.push(c),
;

/// `String::push_str` appends a string slice to the end of the string.
pub assume_specification[ String::push_str ](text: &mut String, tail: &str)
    ensures
        final(text)@ == old(text)@ + tail@,
;

/// The character sequences of a list of strings.
pub open spec fn views(list: Seq<String>) -> Seq<Seq<char>> {
    list.map_values(|s: String| s@)
}

/// The characters of an optional string.
pub open spec fn opt_view(text: Option<String>) -> Option<Seq<char>> {
    match text {
        Some(s) => Some(s@),
        None => None,
    }
}

/// The characters of an optional string slice.
pub open spec fn opt_str(text: Option<&str>) -> Option<Seq<char>> {
    match text {
        Some(s) => Some(s@),
        None => None,
    }
}

/// Appending a string appends its characters.
pub proof fn lemma_views_push(list: Seq<String>, text: String)
    ensures
        views(list.push(text)) == views(list).push(text@),
{
    assert(views(list.push(text)) =~= views(list).push(text@));
}

/// Appends a string to a list of strings.
pub fn push_text(list: &mut Vec<String>, text: &str)
    ensures
        views(final(list)@) == views(old(list)@).push(text@),
{
    let owned = text.to_string();
    proof {
        lemma_views_push(list@, owned);
    }
    list.push(owned);
}

/// The characters with Unicode's `White_Space` property.
pub open spec fn is_white_space(c: char) -> bool {
    ||| '\u{9}' <= c <= '\u{d}'
    ||| c == '\u{20}'
    ||| c == '\u{85}'
    ||| c == '\u{a0}'
    ||| c == '\u{1680}'
    ||| '\u{2000}' <= c <= '\u{200a}'
    ||| c == '\u{2028}'
    ||| c == '\u{2029}'
    ||| c == '\u{202f}'
    ||| c == '\u{205f}'
    ||| c == '\u{3000}'
}

/// Whether `c` has the `White_Space` property.
pub fn white_space(c: char) -> (r: bool)
    ensures
        r == is_white_space(c),
{
    ('\u{9}' <= c && c <= '\u{d}') || c == '\u{20}' || c == '\u{85}' || c == '\u{a0}' || c
        == '\u{1680}' || ('\u{2000}' <= c && c <= '\u{200a}') || c == '\u{2028}' || c == '\u{2029}'
        || c == '\u{202f}' || c == '\u{205f}' || c == '\u{3000}'
}

/// The characters of `text`.
pub fn chars_of(text: &str) -> (r: Vec<char>)
    ensures
        r@ == text@,
{
    let mut r: Vec<char> = Vec::new();
    for c in it: text.chars()
        invariant
            it.seq() == text@,
            r@ == it.seq().take(it.index()),
    {
        r.push(c);
    }
    r
}

/// Whether two strings hold the same characters.
pub fn same_text(a: &str, b: &str) -> (r: bool)
    ensures
        r == (a@ == b@),
{
    let x = a.as_bytes();
    let y = b.as_bytes();
    proof {
        vstd::utf8::encode_utf8_decode_utf8(a@);
        vstd::utf8::encode_utf8_decode_utf8(b@);
    }
    if x.len() != y.len() {
        return false;
    }
    let mut i: usize = 0;
    while i < x.len()
        invariant
            x@ == encode_utf8(a@),
            y@ == encode_utf8(b@),
            x.len() == y.len(),
            0 <= i <= x.len(),
            forall|k: int| 0 <= k < i ==> x@[k] == y@[k],
        decreases x.len() - i,
    {
        if x[i] != y[i] {
            return false;
        }
        i = i + 1;
    }
    assert(x@ =~= y@);
    true
}


/// Whether `text` is in a list of strings.
pub fn list_has(list: &Vec<String>, text: &str) -> (r: bool)
    ensures
        r == views(list@).contains(text@),
{
    let mut i: usize = 0;
    while i < list.len()
        invariant
            i <= list.len(),
            forall|k: int| 0 <= k < i ==> views(list@)[k] != text@,
        decreases list.len() - i,
    {
        if same_text(list[i].as_str(), text) {
            assert(views(list@)[i as int] == text@);
            return true;
        }
        i = i + 1;
    }
    false
}

/// `s` without the white space that it starts with.
pub open spec fn trimmed_start(s: Seq<char>) -> Seq<char>
    decreases s.len(),
{
    if s.len() > 0 && is_white_space(s[0]) {
        trimmed_start(s.skip(1))
    } else {
        s
    }
}

/// `s` without the white space that it ends with.
pub open spec fn trimmed_end(s: Seq<char>) -> Seq<char>
    decreases s.len(),
{
    if s.len() > 0 && is_white_space(s.last()) {
        trimmed_end(s.drop_last())
    } else {
        s
    }
}

/// `s` without the white space at either end.
pub open spec fn trimmed(s: Seq<char>) -> Seq<char> {
    trimmed_end(trimmed_start(s))
}

/// Nothing is left of a text exactly if it is white space.
pub proof fn lemma_trimmed_empty(s: Seq<char>)
    ensures
        trimmed(s).len() == 0 <==> forall|i: int|
            0 <= i < s.len() ==> is_white_space(#[trigger] s[i]),
    decreases s.len(),
{
    if s.len() > 0 && is_white_space(s[0]) {
        lemma_trimmed_empty(s.skip(1));
        if trimmed(s).len() == 0 {
            assert forall|i: int| 0 <= i < s.len() implies is_white_space(#[trigger] s[i]) by {
                if i > 0 {
                    assert(s.skip(1)[i - 1] == s[i]);
                }
            }
        }
    } else if s.len() > 0 {
        lemma_trimmed_end_keeps(s);
    }
}

proof fn lemma_trimmed_end_keeps(s: Seq<char>)
    requires
        s.len() > 0,
        !is_white_space(s[0]),
    ensures
        trimmed_end(s).len() > 0,
    decreases s.len(),
{
    if is_white_space(s.last()) {
        lemma_trimmed_end_keeps(s.drop_last());
    }
}

/// The part of `text` between its first and its last character that is not white space.
pub fn trim<'a>(text: &'a str) -> (r: &'a str)
    ensures
        r@ == trimmed(text@),
{
    let v = chars_of(text);
    let ghost s = text@;
    let n: usize = v.len();
    let mut i: usize = 0;
    assert(s.subrange(0, n as int) =~= s);
    while i < n && white_space(v[i])
        invariant
            v@ == s,
            n == v.len(),
            0 <= i <= n,
            trimmed_start(s.subrange(i as int, n as int)) == trimmed_start(s),
        decreases n - i,
    {
        assert(s.subrange(i as int, n as int).skip(1) =~= s.subrange(i + 1, n as int));
        i = i + 1;
    }
    assert(trimmed_start(s) == s.subrange(i as int, n as int));
    let mut j: usize = n;
    while i < j && white_space(v[j - 1])
        invariant
            v@ == s,
            n == v.len(),
            0 <= i <= j <= n,
            trimmed_end(s.subrange(i as int, j as int)) == trimmed(s),
        decreases j,
    {
        assert(s.subrange(i as int, j as int).drop_last() =~= s.subrange(i as int, j - 1));
        j = j - 1;
    }
    text.substring_char(i, j)
}

/// `s` without the characters `c` that it ends with.
pub open spec fn without_trailing(s: Seq<char>, c: char) -> Seq<char>
    decreases s.len(),
{
    if s.len() > 0 && s.last() == c {
        without_trailing(s.drop_last(), c)
    } else {
        s
    }
}

/// `s` without the characters `c` that it starts with.
pub open spec fn without_leading(s: Seq<char>, c: char) -> Seq<char>
    decreases s.len(),
{
    if s.len() > 0 && s[0] == c {
        without_leading(s.skip(1), c)
    } else {
        s
    }
}

/// `text` without the characters `c` that it ends with.
pub fn trim_end_char<'a>(text: &'a str, c: char) -> (r: &'a str)
    ensures
        r@ == without_trailing(text@, c),
{
    let v = chars_of(text);
    let ghost s = text@;
    let mut j: usize = v.len();
    assert(s.subrange(0, j as int) =~= s);
    while 0 < j && v[j - 1] == c
        invariant
            v@ == s,
            0 <= j <= v.len(),
            without_trailing(s.subrange(0, j as int), c) == without_trailing(s, c),
        decreases j,
    {
        assert(s.subrange(0, j as int).drop_last() =~= s.subrange(0, j - 1));
        j = j - 1;
    }
    text.substring_char(0, j)
}

/// `text` without the characters `c` that it starts with.
pub fn trim_start_char<'a>(text: &'a str, c: char) -> (r: &'a str)
    ensures
        r@ == without_leading(text@, c),
{
    let v = chars_of(text);
    let ghost s = text@;
    let n: usize = v.len();
    let mut i: usize = 0;
    assert(s.subrange(0, n as int) =~= s);
    while i < n && v[i] == c
        invariant
            v@ == s,
            n == v.len(),
            0 <= i <= n,
            without_leading(s.subrange(i as int, n as int), c) == without_leading(s, c),
        decreases n - i,
    {
        assert(s.subrange(i as int, n as int).skip(1) =~= s.subrange(i + 1, n as int));
        i = i + 1;
    }
    text.substring_char(i, n)
}

/// Whether `pattern` stands in `s` at index `i`.
pub open spec fn occurs_at(s: Seq<char>, pattern: Seq<char>, i: int) -> bool {
    0 <= i <= s.len() - pattern.len() && s.subrange(i, i + pattern.len()) == pattern
}

/// Whether `pattern` stands anywhere in `s`.
pub open spec fn contains_text(s: Seq<char>, pattern: Seq<char>) -> bool {
    exists|i: int| occurs_at(s, pattern, i)
}

/// What stands in a part of a text stands in the text.
pub proof fn lemma_part_contains(
    before: Seq<char>,
    part: Seq<char>,
    after: Seq<char>,
    pattern: Seq<char>,
)
    requires
        contains_text(part, pattern),
    ensures
        contains_text(before + part + after, pattern),
{
    let s = before + part + after;
    let i = choose|i: int| occurs_at(part, pattern, i);
    let j = before.len() + i;
    assert(s.subrange(j, j + pattern.len()) =~= part.subrange(i, i + pattern.len()));
    assert(occurs_at(s, pattern, j));
}

/// What stands in one of two texts, or is the second, stands in both together.
pub proof fn lemma_concat_contains(a: Seq<char>, b: Seq<char>, pattern: Seq<char>)
    requires
        contains_text(a, pattern) || b == pattern,
    ensures
        contains_text(a + b, pattern),
{
    let none = Seq::<char>::empty();
    if b == pattern {
        assert(b.subrange(0, b.len() as int) =~= b);
        assert(occurs_at(b, pattern, 0));
        lemma_part_contains(a, b, none, pattern);
        assert(a + b + none =~= a + b);
    } else {
        lemma_part_contains(none, a, b, pattern);
        assert(none + a + b =~= a + b);
    }
}

/// The first index, from `start` on, at which `pattern` stands in `s`.
pub open spec fn find_from(s: Seq<char>, pattern: Seq<char>, start: int) -> Option<int>
    decreases s.len() - start + 1,
{
    if start < 0 || start > s.len() - pattern.len() {
        None
    } else if occurs_at(s, pattern, start) {
        Some(start)
    } else {
        find_from(s, pattern, start + 1)
    }
}

/// `find_from` gives the least index, and gives one wherever there is one.
pub proof fn lemma_find_from(s: Seq<char>, pattern: Seq<char>, start: int)
    requires
        0 <= start,
    ensures
        match find_from(s, pattern, start) {
            Some(i) => start <= i && occurs_at(s, pattern, i) && forall|k: int|
                start <= k < i ==> !occurs_at(s, pattern, k),
            None => forall|k: int| start <= k ==> !occurs_at(s, pattern, k),
        },
    decreases s.len() - start + 1,
{
    if start <= s.len() - pattern.len() && !occurs_at(s, pattern, start) {
        lemma_find_from(s, pattern, start + 1);
    }
}

/// Whether the characters of `pattern` stand in `v` at index `i`.
fn matches_at(v: &Vec<char>, pattern: &Vec<char>, i: usize) -> (r: bool)
    requires
        i <= v.len(),
    ensures
        r == occurs_at(v@, pattern@, i as int),
{
    if pattern.len() > v.len() - i {
        return false;
    }
    let mut k: usize = 0;
    while k < pattern.len()
        invariant
            i + pattern.len() <= v.len(),
            k <= pattern.len(),
            forall|m: int| 0 <= m < k ==> v@[i + m] == pattern@[m],
        decreases pattern.len() - k,
    {
        if v[i + k] != pattern[k] {
            assert(v@.subrange(i as int, i + pattern@.len())[k as int] != pattern@[k as int]);
            return false;
        }
        k = k + 1;
    }
    assert(v@.subrange(i as int, i + pattern@.len()) =~= pattern@);
    true
}

/// The first index, counted in characters from `start` on, at which `pattern` stands in `text`.
pub fn find_text(text: &str, pattern: &str, start: usize) -> (r: Option<usize>)
    ensures
        r is Some <==> find_from(text@, pattern@, start as int) is Some,
        r matches Some(i) ==> find_from(text@, pattern@, start as int) == Some(i as int),
{
    let v = chars_of(text);
    let p = chars_of(pattern);
    if start > v.len() {
        return None;
    }
    let mut i: usize = start;
    while i < v.len()
        invariant
            v@ == text@,
            p@ == pattern@,
            start <= i <= v.len(),
            find_from(text@, pattern@, start as int) == find_from(text@, pattern@, i as int),
        decreases v.len() - i,
    {
        if matches_at(&v, &p, i) {
            return Some(i);
        }
        i = i + 1;
        proof {
            lemma_find_from(text@, pattern@, i - 1);
            lemma_find_from(text@, pattern@, i as int);
        }
    }
    if p.len() == 0 {
        assert(text@.subrange(i as int, i as int) =~= pattern@);
        Some(i)
    } else {
        None
    }
}

/// Whether `pattern` stands anywhere in `text`.
pub fn has_text(text: &str, pattern: &str) -> (r: bool)
    ensures
        r == contains_text(text@, pattern@),
{
    let found = find_text(text, pattern, 0);
    proof {
        lemma_find_from(text@, pattern@, 0);
    }
    found.is_some()
}

/// Whether `text` begins with `prefix`.
pub fn has_prefix(text: &str, prefix: &str) -> (r: bool)
    ensures
        r == prefix@.is_prefix_of(text@),
{
    let v = chars_of(text);
    let p = chars_of(prefix);
    let r = matches_at(&v, &p, 0);
    assert(r ==> prefix@ =~= text@.subrange(0, prefix@.len() as int));
    r
}

/// Whether the character `c` stands anywhere in `text`.
pub fn has_char(text: &str, c: char) -> (r: bool)
    ensures
        r == text@.contains(c),
{
    let v = chars_of(text);
    let mut i: usize = 0;
    while i < v.len()
        invariant
            v@ == text@,
            i <= v.len(),
            forall|k: int| 0 <= k < i ==> text@[k] != c,
        decreases v.len() - i,
    {
        if v[i] == c {
            return true;
        }
        i = i + 1;
    }
    false
}

/// The index of the first `c` in `s`, or the length of `s` if it holds none.
pub open spec fn first_index<A>(s: Seq<A>, c: A) -> int
    decreases s.len(),
{
    if s.len() == 0 || s[0] == c {
        0
    } else {
        1 + first_index(s.skip(1), c)
    }
}

/// `first_index` is the least index of `c`, or the length.
pub proof fn lemma_first_index<A>(s: Seq<A>, c: A)
    ensures
        0 <= first_index(s, c) <= s.len(),
        first_index(s, c) < s.len() ==> s[first_index(s, c)] == c,
        forall|k: int| 0 <= k < first_index(s, c) ==> s[k] != c,
        first_index(s, c) < s.len() <==> s.contains(c),
    decreases s.len(),
{
    if s.len() > 0 && s[0] != c {
        lemma_first_index(s.skip(1), c);
        assert forall|k: int| 0 <= k < first_index(s, c) implies s[k] != c by {
            if k > 0 {
                assert(s.skip(1)[k - 1] == s[k]);
            }
        }
        if s.contains(c) {
            let k = choose|k: int| 0 <= k < s.len() && s[k] == c;
            assert(s.skip(1)[k - 1] == c);
        }
    }
}

/// An index with `c` at it and none before it is the first.
pub proof fn lemma_first_index_is<A>(s: Seq<A>, c: A, i: int)
    requires
        0 <= i <= s.len(),
        i < s.len() ==> s[i] == c,
        forall|k: int| 0 <= k < i ==> s[k] != c,
    ensures
        first_index(s, c) == i,
{
    lemma_first_index(s, c);
    if first_index(s, c) < i {
        assert(s[first_index(s, c)] != c);
    } else if i < first_index(s, c) {
        assert(s[i] != c);
    }
}

/// The index of the first `c` in `v` from `start` on, or the length of `v`.
pub fn char_index(v: &Vec<char>, c: char, start: usize) -> (r: usize)
    requires
        start <= v.len(),
    ensures
        start <= r <= v.len(),
        r == start + first_index(v@.skip(start as int), c),
{
    let mut i: usize = start;
    while i < v.len() && v[i] != c
        invariant
            start <= i <= v.len(),
            forall|k: int| start <= k < i ==> v@[k] != c,
        decreases v.len() - i,
    {
        i = i + 1;
    }
    proof {
        lemma_first_index_is(v@.skip(start as int), c, i - start);
    }
    i
}

/// The index of the last `c` in `s`, or -1 if it holds none.
pub open spec fn last_index<A>(s: Seq<A>, c: A) -> int
    decreases s.len(),
{
    if s.len() == 0 {
        -1
    } else if s.last() == c {
        s.len() - 1
    } else {
        last_index(s.drop_last(), c)
    }
}

/// How many characters of `v` stand up to and with the last `c`.
pub fn char_end(v: &Vec<char>, c: char) -> (r: usize)
    ensures
        r == last_index(v@, c) + 1,
        r <= v.len(),
{
    let mut j: usize = v.len();
    assert(v@.take(j as int) =~= v@);
    while 0 < j && v[j - 1] != c
        invariant
            j <= v.len(),
            last_index(v@, c) == last_index(v@.take(j as int), c),
        decreases j,
    {
        assert(v@.take(j as int).drop_last() =~= v@.take(j - 1));
        j = j - 1;
    }
    j
}

/// `s` without the carriage return that it ends with, if it ends with one.
pub open spec fn without_carriage_return(s: Seq<char>) -> Seq<char> {
    if s.len() > 0 && s.last() == '\r' {
        s.drop_last()
    } else {
        s
    }
}

/// The lines of `s`: what stands before each line feed, without the carriage
/// return that may precede it, and what stands after the last one, if anything.
pub open spec fn lines_of(s: Seq<char>) -> Seq<Seq<char>>
    decreases s.len(),
{
    proof {
        lemma_first_index(s, '\n');
    }
    if s.len() == 0 {
        Seq::empty()
    } else if first_index(s, '\n') >= s.len() {
        seq![s]
    } else {
        seq![without_carriage_return(s.take(first_index(s, '\n')))] + lines_of(
            s.skip(first_index(s, '\n') + 1),
        )
    }
}

/// The lines of `text`.
pub fn lines(text: &str) -> (r: Vec<String>)
    ensures
        views(r@) == lines_of(text@),
{
    let v = chars_of(text);
    let ghost s = text@;
    let mut r: Vec<String> = Vec::new();
    let mut pos: usize = 0;
    assert(s.skip(0) =~= s);
    assert(views(r@) + lines_of(s) =~= lines_of(s));
    while pos < v.len()
        invariant
            v@ == s,
            s == text@,
            pos <= v.len(),
            views(r@) + lines_of(s.skip(pos as int)) == lines_of(s),
        decreases v.len() - pos,
    {
        let ghost rest = s.skip(pos as int);
        let end: usize = char_index(&v, '\n', pos);
        let ghost before = views(r@);
        if end == v.len() {
            assert(s.subrange(pos as int, end as int) =~= rest);
            r.push(text.substring_char(pos, end).to_string());
            assert(views(r@) =~= before + seq![rest]);
            assert(s.skip(end as int) =~= Seq::empty());
            assert(views(r@) + lines_of(s.skip(end as int)) =~= views(r@));
            pos = end;
        } else {
            let stop: usize = if end > pos && v[end - 1] == '\r' {
                end - 1
            } else {
                end
            };
            let ghost line = without_carriage_return(rest.take(end - pos));
            assert(s.subrange(pos as int, stop as int) =~= line);
            r.push(text.substring_char(pos, stop).to_string());
            assert(views(r@) =~= before + seq![line]);
            assert(rest.skip(end - pos + 1) =~= s.skip(end + 1));
            assert(views(r@) + lines_of(s.skip(end + 1)) =~= before + (seq![line] + lines_of(
                s.skip(end + 1),
            )));
            pos = end + 1;
        }
    }
    assert(s.skip(pos as int) =~= Seq::empty());
    assert(views(r@) + lines_of(s.skip(pos as int)) =~= views(r@));
    r
}

/// The texts of `parts` one after the other, with `separator` between each two.
pub open spec fn joined(parts: Seq<Seq<char>>, separator: Seq<char>) -> Seq<char>
    decreases parts.len(),
{
    if parts.len() == 0 {
        Seq::empty()
    } else if parts.len() == 1 {
        parts[0]
    } else {
        joined(parts.drop_last(), separator) + separator + parts.last()
    }
}

/// The strings of `parts` one after the other, with `separator` between each two.
pub fn join(parts: &Vec<String>, separator: &str) -> (r: String)
    ensures
        r@ == joined(views(parts@), separator@),
{
    let mut r = String::new();
    let mut i: usize = 0;
    assert(views(parts@).take(0) =~= Seq::empty());
    while i < parts.len()
        invariant
            i <= parts.len(),
            r@ == joined(views(parts@).take(i as int), separator@),
        decreases parts.len() - i,
    {
        let ghost p = views(parts@);
        assert(p.take(i + 1).drop_last() =~= p.take(i as int));
        if i > 0 {
            r.push_str(separator);
            r.push_str(parts[i].as_str());
        } else {
            r = parts[i].clone();
        }
        i = i + 1;
    }
    assert(views(parts@).take(i as int) =~= views(parts@));
    r
}

/// The decimal digit for a value below ten.
pub open spec fn digit(d: int) -> char {
    ('0' as u8 + d) as u8 as char
}

/// The decimal notation of `n`.
pub open spec fn decimal(n: nat) -> Seq<char>
    decreases n,
{
    if n < 10 {
        seq![digit(n as int)]
    } else {
        decimal(n / 10).push(digit((n % 10) as int))
    }
}

/// Appends the decimal notation of `n` to `out`.
pub fn push_decimal(out: &mut String, n: u64)
    ensures
        final(out)@ == old(out)@ + decimal(n as nat),
    decreases n,
{
    if n >= 10 {
        push_decimal(out, n / 10);
    }
    let d: u8 = (n % 10) as u8;
    let c: char = (48u8 + d) as char;
    out.push(c);
    assert(out@ =~= old(out)@ + decimal(n as nat));
}

/// The decimal notation of `n`.
pub fn to_decimal(n: u64) -> (r: String)
    ensures
        r@ == decimal(n as nat),
{
    let mut r = String::new();
    push_decimal(&mut r, n);
    assert(r@ =~= decimal(n as nat));
    r
}

/// Texts one after the other.
pub open spec fn concatenated(texts: Seq<Seq<char>>) -> Seq<char>
    decreases texts.len(),
{
    if texts.len() == 0 {
        Seq::empty()
    } else {
        texts[0] + concatenated(texts.skip(1))
    }
}

/// What is appended to a list of texts stands behind them.
pub proof fn lemma_concatenated_push(texts: Seq<Seq<char>>, text: Seq<char>)
    ensures
        concatenated(texts.push(text)) == concatenated(texts) + text,
    decreases texts.len(),
{
    let longer = texts.push(text);
    if texts.len() == 0 {
        assert(longer.skip(1) =~= texts);
        assert(concatenated(longer) =~= concatenated(texts) + text);
    } else {
        lemma_concatenated_push(texts.skip(1), text);
        assert(longer.skip(1) =~= texts.skip(1).push(text));
        assert(concatenated(longer) =~= concatenated(texts) + text);
    }
}

/// What stands in one of several texts stands in all of them together.
pub proof fn lemma_concatenated_contains(texts: Seq<Seq<char>>, k: int, pattern: Seq<char>)
    requires
        0 <= k < texts.len(),
        contains_text(texts[k], pattern),
    ensures
        contains_text(concatenated(texts), pattern),
    decreases texts.len(),
{
    let none = Seq::<char>::empty();
    let rest = concatenated(texts.skip(1));
    if k == 0 {
        lemma_part_contains(none, texts[0], rest, pattern);
        assert(none + texts[0] + rest =~= concatenated(texts));
    } else {
        lemma_concatenated_contains(texts.skip(1), k - 1, pattern);
        lemma_part_contains(texts[0], rest, none, pattern);
        assert(texts[0] + rest + none =~= concatenated(texts));
    }
}

/// What stands in a text that stands in another stands in that one too.
pub proof fn lemma_contains_transitive(s: Seq<char>, part: Seq<char>, pattern: Seq<char>)
    requires
        contains_text(s, part),
        contains_text(part, pattern),
    ensures
        contains_text(s, pattern),
{
    let i = choose|i: int| occurs_at(s, part, i);
    let before = s.take(i);
    let after = s.skip(i + part.len());
    lemma_part_contains(before, part, after, pattern);
    assert(before + part + after =~= s);
}

/// A text stands in itself, with anything before and behind it.
pub proof fn lemma_contains_middle(before: Seq<char>, part: Seq<char>, after: Seq<char>)
    ensures
        contains_text(before + part + after, part),
{
    assert(part.subrange(0, part.len() as int) =~= part);
    assert(occurs_at(part, part, 0));
    lemma_part_contains(before, part, after, part);
}

/// Whether a character is a digit from 0 to 9.
pub open spec fn is_digit(c: char) -> bool {
    '0' <= c <= '9'
}

/// The number that a list of digits stands for.
pub open spec fn number(digits: Seq<char>) -> nat
    decreases digits.len(),
{
    if digits.len() == 0 {
        0
    } else {
        number(digits.drop_last()) * 10 + (digits.last() as int - '0' as int) as nat
    }
}

/// The decimal notation of a number is made of digits.
pub proof fn lemma_decimal_digits(n: nat)
    ensures
        decimal(n).len() > 0,
        forall|i: int| 0 <= i < decimal(n).len() ==> is_digit(#[trigger] decimal(n)[i]),
    decreases n,
{
    if n >= 10 {
        lemma_decimal_digits(n / 10);
    }
}

/// A line holds no line feed, and no character that the text does not hold.
pub proof fn lemma_line_chars(s: Seq<char>, k: int)
    requires
        0 <= k < lines_of(s).len(),
    ensures
        !lines_of(s)[k].contains('\n'),
        forall|i: int|
            0 <= i < lines_of(s)[k].len() ==> s.contains(#[trigger] lines_of(s)[k][i]),
    decreases s.len(),
{
    lemma_first_index(s, '\n');
    let n = first_index(s, '\n');
    let line = lines_of(s)[k];
    if n >= s.len() {
        assert(line == s);
    } else if k == 0 {
        assert(line == without_carriage_return(s.take(n)));
        assert forall|i: int| 0 <= i < line.len() implies line[i] != '\n' && s.contains(
            #[trigger] line[i],
        ) by {
            assert(line[i] == s[i]);
        }
    } else {
        let rest = s.skip(n + 1);
        lemma_line_chars(rest, k - 1);
        assert(line == lines_of(rest)[k - 1]);
        assert forall|i: int| 0 <= i < line.len() implies s.contains(#[trigger] line[i]) by {
            assert(rest.contains(lines_of(rest)[k - 1][i]));
            let j = choose|j: int| 0 <= j < rest.len() && rest[j] == line[i];
            assert(s[n + 1 + j] == line[i]);
        }
    }
}

/// A list of texts that is joined begins with the first of them.
pub proof fn lemma_joined_front(parts: Seq<Seq<char>>, separator: Seq<char>)
    requires
        parts.len() > 1,
    ensures
        joined(parts, separator) == parts[0] + separator + joined(parts.skip(1), separator),
    decreases parts.len(),
{
    if parts.len() == 2 {
        assert(joined(parts.drop_last(), separator) == parts[0]);
        assert(joined(parts.skip(1), separator) == parts[1]);
    } else {
        lemma_joined_front(parts.drop_last(), separator);
        assert(parts.drop_last().skip(1) =~= parts.skip(1).drop_last());
        assert(joined(parts, separator) =~= parts[0] + separator + joined(
            parts.skip(1),
            separator,
        ));
    }
}

/// Lines that are joined are the lines of the text, if none is empty and none but the last
/// ends in a carriage return.
pub proof fn lemma_lines_of_joined(list: Seq<Seq<char>>)
    requires
        forall|k: int|
            0 <= k < list.len() ==> (#[trigger] list[k]).len() > 0 && !list[k].contains('\n') && (k
                < list.len() - 1 ==> list[k].last() != '\r'),
    ensures
        lines_of(joined(list, "\n"@)) == list,
    decreases list.len(),
{
    reveal_strlit("\n");
    let s = joined(list, "\n"@);
    if list.len() == 1 {
        let line = list[0];
        lemma_first_index(line, '\n');
        assert(lines_of(s) =~= list);
    } else if list.len() > 1 {
        let line = list[0];
        let rest = list.skip(1);
        lemma_joined_front(list, "\n"@);
        assert forall|k: int| 0 <= k < rest.len() implies (#[trigger] rest[k]).len() > 0
            && !rest[k].contains('\n') && (k < rest.len() - 1 ==> rest[k].last() != '\r') by {
            assert(rest[k] == list[k + 1]);
        }
        lemma_lines_of_joined(rest);
        let n = line.len() as int;
        assert forall|k: int| 0 <= k < n implies s[k] != '\n' by {
            assert(s[k] == line[k]);
            assert(line.contains(line[k]));
        }
        assert(s[n] == '\n');
        lemma_first_index_is(s, '\n', n);
        assert(s.take(n) =~= line);
        assert(s.skip(n + 1) =~= joined(rest, "\n"@));
        assert(lines_of(s) =~= list);
    }
}

/// The number of bytes of `s` in UTF-8.
pub open spec fn byte_len(s: Seq<char>) -> nat {
    encode_utf8(s).len()
}

/// The number of bytes of `text` in UTF-8.
pub fn text_byte_len(text: &str) -> (r: usize)
    ensures
        r == byte_len(text@),
{
    text.as_bytes().len()
}

/// `text`, or `fallback` if it is empty.
pub open spec fn text_or(text: Seq<char>, fallback: Seq<char>) -> Seq<char> {
    if text.len() == 0 {
        fallback
    } else {
        text
    }
}

/// The number of bytes of a character in UTF-8.
pub open spec fn char_width(c: char) -> int {
    if c <= '\u{7f}' {
        1
    } else if c <= '\u{7ff}' {
        2
    } else if c <= '\u{ffff}' {
        3
    } else {
        4
    }
}

/// The number of characters that take the first `n` bytes of a text, if a character ends there.
pub open spec fn chars_in(s: Seq<char>, n: int) -> Option<int>
    decreases s.len(),
{
    if n == 0 {
        Some(0)
    } else if n < 0 || s.len() == 0 {
        None
    } else {
        match chars_in(s.skip(1), n - char_width(s[0])) {
            Some(k) => Some(k + 1),
            None => None,
        }
    }
}

/// The characters that take the first bytes of a text are characters of the text.
pub proof fn lemma_chars_in(s: Seq<char>, n: int)
    ensures
        chars_in(s, n) matches Some(k) ==> 0 <= k <= s.len(),
    decreases s.len(),
{
    if n > 0 && s.len() > 0 {
        lemma_chars_in(s.skip(1), n - char_width(s[0]));
    }
}

/// Whether the first `n` characters of a text, as far as there are so many, are ASCII.
pub open spec fn starts_ascii(s: Seq<char>, n: int) -> bool {
    forall|i: int| 0 <= i < n && i < s.len() ==> #[trigger] s[i] <= '\u{7f}'
}

/// Whether no character of a text stands across its byte `n`: it begins with ASCII, is
/// shorter than `n` bytes, or a character ends there.
pub open spec fn can_cut(s: Seq<char>, n: int) -> bool {
    starts_ascii(s, n) || byte_len(s) < n || chars_in(s, n) is Some
}

/// A text that begins with ASCII can be cut there, unless it ends before.
pub proof fn lemma_starts_ascii(s: Seq<char>, n: int)
    requires
        starts_ascii(s, n),
        0 <= n,
    ensures
        n <= s.len() ==> chars_in(s, n) == Some(n),
        s.len() < n ==> byte_len(s) == s.len(),
    decreases s.len(),
{
    if n > 0 && s.len() > 0 {
        lemma_ascii_width(s[0]);
        lemma_starts_ascii(s.skip(1), n - 1);
        assert(s.skip(1) =~= s.drop_first());
    }
}

proof fn lemma_ascii_width(c: char)
    requires
        c <= '\u{7f}',
    ensures
        vstd::utf8::encode_scalar(c as u32).len() == 1,
{
}

/// The number of characters that take the first `n` bytes of `text`, if a character ends there.
pub fn count_chars_in(text: &str, n: usize) -> (r: Option<usize>)
    ensures
        match r {
            Some(k) => chars_in(text@, n as int) == Some(k as int) && k <= text@.len(),
            None => chars_in(text@, n as int) is None,
        },
{
    let v = chars_of(text);
    let ghost s = text@;
    let mut i: usize = 0;
    let mut left: usize = n;
    assert(s.skip(0) =~= s);
    while i < v.len() && left > 0
        invariant
            v@ == s,
            s == text@,
            i <= v.len(),
            chars_in(s, n as int) == match chars_in(s.skip(i as int), left as int) {
                Some(k) => Some(k + i),
                None => None,
            },
        decreases v.len() - i,
    {
        let c = v[i];
        let width: usize = if c <= '\u{7f}' {
            1
        } else if c <= '\u{7ff}' {
            2
        } else if c <= '\u{ffff}' {
            3
        } else {
            4
        };
        assert(s.skip(i as int)[0] == c);
        assert(s.skip(i as int).skip(1) =~= s.skip(i + 1));
        if width > left {
            assert(chars_in(s.skip(i + 1), left - width) is None);
            return None;
        }
        left = left - width;
        i = i + 1;
    }
    if left == 0 {
        Some(i)
    } else {
        None
    }
}

/// Whether no character of `text` stands across its byte `n`.
pub fn is_cuttable(text: &str, n: usize) -> (r: bool)
    ensures
        r == can_cut(text@, n as int),
{
    proof {
        if starts_ascii(text@, n as int) {
            lemma_starts_ascii(text@, n as int);
        }
    }
    text_byte_len(text) < n || count_chars_in(text, n).is_some()
}

/// A byte below 128 in the UTF-8 of a text is a character of the text.
pub proof fn lemma_ascii_byte(s: Seq<char>, b: u8)
    requires
        b < 0x80,
        encode_utf8(s).contains(b),
    ensures
        s.contains(b as char),
    decreases s.len(),
{
    if s.len() > 0 {
        let scalar = s[0] as u32;
        let head = vstd::utf8::encode_scalar(scalar);
        let tail = encode_utf8(s.drop_first());
        let k = choose|k: int| 0 <= k < encode_utf8(s).len() && encode_utf8(s)[k] == b;
        if k < head.len() {
            assert(head[k] == b);
            assert forall|x: u8| #[trigger] (0xc0u8 | x) >= 0x80 by {
                assert((0xc0u8 | x) >= 0x80) by (bit_vector);
            }
            assert forall|x: u8| #[trigger] (0xe0u8 | x) >= 0x80 by {
                assert((0xe0u8 | x) >= 0x80) by (bit_vector);
            }
            assert forall|x: u8| #[trigger] (0xf0u8 | x) >= 0x80 by {
                assert((0xf0u8 | x) >= 0x80) by (bit_vector);
            }
            assert forall|x: u8| #[trigger] (0x80u8 | x) >= 0x80 by {
                assert((0x80u8 | x) >= 0x80) by (bit_vector);
            }
            assert(scalar <= 0x7f);
            assert((scalar & 0x7f) as u8 as u32 == scalar) by (bit_vector)
                requires
                    scalar <= 0x7f,
            ;
            assert(b as u32 == scalar);
            vstd::utf8::char_u32_cast(s[0], scalar);
            assert(b as char == scalar as char);
            assert(s.contains(b as char)) by {
                assert(s[0] == b as char);
            }
        } else {
            assert(tail[k - head.len()] == b);
            lemma_ascii_byte(s.drop_first(), b);
            let j = choose|j: int|
                0 <= j < s.drop_first().len() && s.drop_first()[j] == b as char;
            assert(s[j + 1] == b as char);
        }
    }
}

/// The last index of a character is where it stands with none behind it.
pub proof fn lemma_last_index_is<A>(s: Seq<A>, c: A, i: int)
    requires
        -1 <= i < s.len(),
        i >= 0 ==> s[i] == c,
        forall|k: int| i < k < s.len() ==> s[k] != c,
    ensures
        last_index(s, c) == i,
    decreases s.len(),
{
    if s.len() > 0 && i < s.len() - 1 {
        assert(s[s.len() - 1] != c);
        assert forall|k: int| i < k < s.drop_last().len() implies s.drop_last()[k] != c by {
            assert(s[k] != c);
        }
        lemma_last_index_is(s.drop_last(), c, i);
    }
}

/// What stands before a line feed is the first line, without the carriage return that it may end
/// in, and what stands behind it are the other lines.
pub proof fn law_line_feeds_end_lines(line: Seq<char>, rest: Seq<char>)
    requires
        !line.contains('\n'),
    ensures
        lines_of(line + seq!['\n'] + rest) == seq![
            if line.len() > 0 && line.last() == '\r' {
                line.drop_last()
            } else {
                line
            },
        ] + lines_of(rest),
        line.len() > 0 ==> lines_of(line) == seq![line],
        lines_of(Seq::empty()).len() == 0,
{
    let s = line + seq!['\n'] + rest;
    let n = line.len() as int;
    assert forall|k: int| 0 <= k < n implies s[k] != '\n' by {
        assert(s[k] == line[k]);
        assert(line.contains(line[k]));
    }
    lemma_first_index_is(s, '\n', n);
    assert(s.take(n) =~= line);
    assert(s.skip(n + 1) =~= rest);
    lemma_first_index(line, '\n');
}

/// White space at the ends of a text is trimmed, and nothing else is.
pub proof fn law_white_space_is_trimmed(before: Seq<char>, s: Seq<char>, after: Seq<char>)
    requires
        forall|i: int| 0 <= i < before.len() ==> is_white_space(#[trigger] before[i]),
        forall|i: int| 0 <= i < after.len() ==> is_white_space(#[trigger] after[i]),
        s.len() > 0 ==> !is_white_space(s[0]) && !is_white_space(s.last()),
    ensures
        trimmed(before + s + after) == s,
        is_white_space(' ') && is_white_space('\t') && is_white_space('\n') && is_white_space('\r'),
        forall|c: char| '!' <= c <= '~' ==> !(#[trigger] is_white_space(c)),
    decreases before.len() + after.len(),
{
    let all = before + s + after;
    if before.len() > 0 {
        assert(all[0] == before[0]);
        assert(all.skip(1) =~= before.skip(1) + s + after);
        assert forall|i: int| 0 <= i < before.skip(1).len() implies is_white_space(
            #[trigger] before.skip(1)[i],
        ) by {
            assert(before.skip(1)[i] == before[i + 1]);
        }
        law_white_space_is_trimmed(before.skip(1), s, after);
    } else if s.len() == 0 {
        assert(all =~= after);
        lemma_trimmed_empty(after);
        assert(trimmed(all) =~= s);
    } else {
        assert(all[0] == s[0]);
        lemma_trailing_white_space(s, after);
        assert(all =~= s + after);
    }
}

proof fn lemma_trailing_white_space(s: Seq<char>, after: Seq<char>)
    requires
        forall|i: int| 0 <= i < after.len() ==> is_white_space(#[trigger] after[i]),
        s.len() > 0,
        !is_white_space(s.last()),
    ensures
        trimmed_end(s + after) == s,
    decreases after.len(),
{
    let all = s + after;
    if after.len() > 0 {
        assert(all.last() == after[after.len() - 1]);
        assert(all.drop_last() =~= s + after.drop_last());
        assert forall|i: int| 0 <= i < after.drop_last().len() implies is_white_space(
            #[trigger] after.drop_last()[i],
        ) by {
            assert(after.drop_last()[i] == after[i]);
        }
        lemma_trailing_white_space(s, after.drop_last());
    } else {
        assert(all =~= s);
    }
}

} // verus!
