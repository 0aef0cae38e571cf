//! Terminal output with ANSI escape sequences as styled HTML.
use crate::dates::lemma_decimal_number;
use crate::html::{
    ends_inside_tag, lemma_without_tags_concat, lemma_without_tags_tag, lemma_without_tags_text,
    no_angle_brackets, without_tags,
};
use crate::text::{
    chars_of, decimal, first_index, is_digit, join, joined, lemma_decimal_digits,
    lemma_first_index, lemma_first_index_is, number, push_text, views,
};
use vstd::prelude::*;

verus! {

/// The text attributes that select-graphic-rendition (SGR) codes switch on and off.
/// `fg` and `bg` hold the code that chose the colour.
#[derive(Clone, Copy)]
pub struct Style {
    pub fg: Option<u32>,
    pub bg: Option<u32>,
    pub bold: bool,
    pub italic: bool,
    pub underline: bool,
    pub dim: bool,
}

/// The style without any attribute.
pub open spec fn plain() -> Style {
    Style { fg: None, bg: None, bold: false, italic: false, underline: false, dim: false }
}

/// The eight standard colours: black, red, green, yellow, blue, magenta, cyan, white.
pub open spec fn standard_color(index: int) -> Seq<char> {
    if index == 0 {
        "#282c34"@
    } else if index == 1 {
        "#e06c75"@
    } else if index == 2 {
        "#98c379"@
    } else if index == 3 {
        "#e5c07b"@
    } else if index == 4 {
        "#61afef"@
    } else if index == 5 {
        "#c678dd"@
    } else if index == 6 {
        "#56b6c2"@
    } else {
        "#abb2bf"@
    }
}

/// The colour that an SGR code stands for. Bright black and bright white differ
/// from the standard ones, and only as text colours.
pub open spec fn color_of(code: u32) -> Seq<char> {
    if code == 90 {
        "#5c6370"@
    } else if code == 97 {
        "#ffffff"@
    } else {
        standard_color((code % 10) as int)
    }
}

impl Style {
    /// The style without any attribute.
    pub fn new() -> (r: Style)
        ensures
            r == plain(),
    {
        Style { fg: None, bg: None, bold: false, italic: false, underline: false, dim: false }
    }

    /// Whether any attribute is set.
    pub open spec fn active(self) -> bool {
        self.fg is Some || self.bg is Some || self.bold || self.italic || self.underline
            || self.dim
    }

    /// Whether any attribute is set.
    pub fn is_active(&self) -> (r: bool)
        ensures
            r == self.active(),
    {
        self.fg.is_some() || self.bg.is_some() || self.bold || self.italic || self.underline
            || self.dim
    }

    /// The CSS declarations for the attributes that are set.
    pub open spec fn declarations(self) -> Seq<Seq<char>> {
        let d = Seq::<Seq<char>>::empty();
        let d = match self.fg {
            Some(code) => d.push("color:"@ + color_of(code)),
            None => d,
        };
        let d = match self.bg {
            Some(code) => d.push("background-color:"@ + color_of(code)),
            None => d,
        };
        let d = if self.bold { d.push("font-weight:bold"@) } else { d };
        let d = if self.italic { d.push("font-style:italic"@) } else { d };
        let d = if self.underline { d.push("text-decoration:underline"@) } else { d };
        if self.dim { d.push("opacity:0.7"@) } else { d }
    }

    /// The tag that opens a span in this style, or nothing if no attribute is set.
    pub open spec fn opening(self) -> Seq<char> {
        if self.active() {
            "<span style=\""@ + joined(self.declarations(), ";"@) + "\">"@
        } else {
            Seq::empty()
        }
    }

    /// The tag that closes the span that `opening` opens, if it opens one.
    pub open spec fn closing(self) -> Seq<char> {
        if self.active() {
            "</span>"@
        } else {
            Seq::empty()
        }
    }

    /// The tag that opens a span in this style, or nothing if no attribute is set.
    pub fn open_tag(&self) -> (r: String)
        ensures
            r@ == self.opening(),
    {
        if !self.is_active() {
            return String::new();
        }
        let mut styles: Vec<String> = Vec::new();
        assert(views(styles@) =~= Seq::empty());
        if let Some(code) = self.fg {
            let mut d = "color:".to_string();
            d.push_str(color(code));
            push_text(&mut styles, d.as_str());
        }
        if let Some(code) = self.bg {
            let mut d = "background-color:".to_string();
            d.push_str(color(code));
            push_text(&mut styles, d.as_str());
        }
        if self.bold {
            push_text(&mut styles, "font-weight:bold");
        }
        if self.italic {
            push_text(&mut styles, "font-style:italic");
        }
        if self.underline {
            push_text(&mut styles, "text-decoration:underline");
        }
        if self.dim {
            push_text(&mut styles, "opacity:0.7");
        }
        let mut tag = "<span style=\"".to_string();
        tag.push_str(join(&styles, ";").as_str());
        tag.push_str("\">");
        tag
    }
}

/// The colour that an SGR code stands for.
fn color(code: u32) -> (r: &'static str)
    ensures
        r@ == color_of(code),
{
    if code == 90 {
        return "#5c6370";
    }
    if code == 97 {
        return "#ffffff";
    }
    let index: u32 = code % 10;
    if index == 0 {
        "#282c34"
    } else if index == 1 {
        "#e06c75"
    } else if index == 2 {
        "#98c379"
    } else if index == 3 {
        "#e5c07b"
    } else if index == 4 {
        "#61afef"
    } else if index == 5 {
        "#c678dd"
    } else if index == 6 {
        "#56b6c2"
    } else {
        "#abb2bf"
    }
}

/// The style after one SGR code.
pub open spec fn after_code(style: Style, code: u32) -> Style {
    if code == 0 {
        plain()
    } else if code == 1 {
        Style { bold: true, ..style }
    } else if code == 2 {
        Style { dim: true, ..style }
    } else if code == 3 {
        Style { italic: true, ..style }
    } else if code == 4 {
        Style { underline: true, ..style }
    } else if code == 22 {
        Style { bold: false, dim: false, ..style }
    } else if code == 23 {
        Style { italic: false, ..style }
    } else if code == 24 {
        Style { underline: false, ..style }
    } else if 30 <= code <= 37 || 90 <= code <= 97 {
        Style { fg: Some(code), ..style }
    } else if code == 39 {
        Style { fg: None, ..style }
    } else if 40 <= code <= 47 || 100 <= code <= 107 {
        Style { bg: Some(code), ..style }
    } else if code == 49 {
        Style { bg: None, ..style }
    } else {
        style
    }
}

/// The number of codes that a choice of colour at the front takes: 38 or 48, then 5 and an
/// index into a palette, or 2 and three components. It is 0 if there is none.
pub open spec fn color_choice_len(codes: Seq<u32>) -> int {
    if codes.len() > 1 && (codes[0] == 38 || codes[0] == 48) {
        if codes[1] == 5 {
            3
        } else if codes[1] == 2 {
            5
        } else {
            0
        }
    } else {
        0
    }
}

/// The style after a list of SGR codes. A choice of a colour outside the standard ones is
/// passed over.
pub open spec fn after_codes(style: Style, codes: Seq<u32>) -> Style
    decreases codes.len(),
{
    let n = color_choice_len(codes);
    if codes.len() <= n {
        style
    } else if n > 0 {
        after_codes(style, codes.skip(n))
    } else {
        after_codes(after_code(style, codes[0]), codes.skip(1))
    }
}

/// Switches the attributes of `style` as one SGR code says.
fn apply_code(style: &mut Style, code: u32)
    ensures
        *final(style) == after_code(*old(style), code),
{
    if code == 0 {
        *style = Style::new();
    } else if code == 1 {
        style.bold = true;
    } else if code == 2 {
        style.dim = true;
    } else if code == 3 {
        style.italic = true;
    } else if code == 4 {
        style.underline = true;
    } else if code == 22 {
        style.bold = false;
        style.dim = false;
    } else if code == 23 {
        style.italic = false;
    } else if code == 24 {
        style.underline = false;
    } else if (30 <= code && code <= 37) || (90 <= code && code <= 97) {
        style.fg = Some(code);
    } else if code == 39 {
        style.fg = None;
    } else if (40 <= code && code <= 47) || (100 <= code && code <= 107) {
        style.bg = Some(code);
    } else if code == 49 {
        style.bg = None;
    }
}

/// Switches the attributes of `style` as a list of SGR codes says.
fn apply_codes(style: &mut Style, codes: &Vec<u32>)
    ensures
        *final(style) == after_codes(*old(style), codes@),
{
    let ghost all = codes@;
    let ghost result = after_codes(*style, all);
    let mut i: usize = 0;
    assert(all.skip(0) =~= all);
    while i < codes.len()
        invariant
            codes@ == all,
            result == after_codes(*old(style), all),
            i <= codes.len(),
            after_codes(*style, all.skip(i as int)) == result,
        decreases codes.len() - i,
    {
        let code: u32 = codes[i];
        let left: usize = codes.len() - i;
        let n: usize = if left > 1 && (code == 38 || code == 48) {
            if codes[i + 1] == 5 {
                3
            } else if codes[i + 1] == 2 {
                5
            } else {
                0
            }
        } else {
            0
        };
        assert(n == color_choice_len(all.skip(i as int)));
        if left <= n {
            return ;
        }
        if n > 0 {
            assert(all.skip(i as int).skip(n as int) =~= all.skip(i + n));
            i = i + n;
        } else {
            assert(all.skip(i as int).skip(1) =~= all.skip(i + 1));
            apply_code(style, code);
            i = i + 1;
        }
    }
    assert(all.skip(i as int).len() == 0);
}

/// The digits of a number in decimal notation, which may begin with a plus sign.
pub open spec fn unsigned_digits(text: Seq<char>) -> Seq<char> {
    if text.len() > 0 && text[0] == '+' {
        text.skip(1)
    } else {
        text
    }
}

/// The code that a parameter stands for, if it is a decimal number that fits.
pub open spec fn code_of(text: Seq<char>) -> Option<u32> {
    let d = unsigned_digits(text);
    if d.len() > 0 && (forall|i: int| 0 <= i < d.len() ==> is_digit(#[trigger] d[i]))
        && number(d) <= u32::MAX {
        Some(number(d) as u32)
    } else {
        None
    }
}

/// More digits never make a smaller number.
proof fn lemma_number_grows(d: Seq<char>, i: int)
    requires
        0 <= i <= d.len(),
        forall|k: int| 0 <= k < d.len() ==> is_digit(#[trigger] d[k]),
    ensures
        number(d.take(i)) <= number(d),
    decreases d.len() - i,
{
    if i < d.len() {
        assert(d.take(i + 1).drop_last() =~= d.take(i));
        lemma_number_grows(d, i + 1);
    } else {
        assert(d.take(i) =~= d);
    }
}

/// Reads the parameter in `v[start..end]`.
fn parse_code(v: &Vec<char>, start: usize, end: usize) -> (r: Option<u32>)
    requires
        start <= end <= v.len(),
    ensures
        r == code_of(v@.subrange(start as int, end as int)),
{
    let ghost text = v@.subrange(start as int, end as int);
    let ghost d = unsigned_digits(text);
    let from: usize = if start < end && v[start] == '+' {
        start + 1
    } else {
        start
    };
    assert(d =~= v@.subrange(from as int, end as int));
    if from == end {
        return None;
    }
    let mut value: u64 = 0;
    let mut i: usize = from;
    assert(d.take(0) =~= Seq::empty());
    while i < end
        invariant
            from <= i <= end <= v.len(),
            d == v@.subrange(from as int, end as int),
            d == unsigned_digits(text),
            text == v@.subrange(start as int, end as int),
            forall|k: int| 0 <= k < i - from ==> is_digit(#[trigger] d[k]),
            value == number(d.take(i - from)),
            value <= u32::MAX,
        decreases end - i,
    {
        let c = v[i];
        assert(d[i - from] == c);
        if !('0' <= c && c <= '9') {
            assert(!is_digit(d[i - from]));
            return None;
        }
        assert(d.take(i - from + 1).drop_last() =~= d.take(i - from));
        value = value * 10 + (c as u32 - 48) as u64;
        if value > u32::MAX as u64 {
            proof {
                if forall|k: int| 0 <= k < d.len() ==> is_digit(#[trigger] d[k]) {
                    lemma_number_grows(d, i - from + 1);
                }
            }
            return None;
        }
        i = i + 1;
    }
    assert(d.take(i - from) =~= d);
    Some(value as u32)
}

/// The codes of a list of parameters with semicolons between them. A parameter
/// that is no number is passed over.
pub open spec fn codes_of(params: Seq<char>) -> Seq<u32>
    decreases params.len(),
{
    proof {
        lemma_first_index(params, ';');
    }
    let i = first_index(params, ';');
    let head = match code_of(params.take(i)) {
        Some(code) => seq![code],
        None => Seq::empty(),
    };
    if i < params.len() {
        head + codes_of(params.skip(i + 1))
    } else {
        head
    }
}

/// Reads the parameters in `v[start..end]`.
fn parse_codes(v: &Vec<char>, start: usize, end: usize) -> (r: Vec<u32>)
    requires
        start <= end <= v.len(),
    ensures
        r@ == codes_of(v@.subrange(start as int, end as int)),
{
    let ghost params = v@.subrange(start as int, end as int);
    let mut codes: Vec<u32> = Vec::new();
    let mut pos: usize = start;
    assert(codes@ + codes_of(params) =~= codes_of(params));
    loop
        invariant
            start <= pos <= end <= v.len(),
            params == v@.subrange(start as int, end as int),
            codes@ + codes_of(v@.subrange(pos as int, end as int)) == codes_of(params),
        decreases end - pos,
    {
        let ghost rest = v@.subrange(pos as int, end as int);
        let ghost before = codes@;
        let mut i: usize = pos;
        assert(rest.skip(0) =~= rest);
        while i < end && v[i] != ';'
            invariant
                start <= pos <= i <= end <= v.len(),
                rest == v@.subrange(pos as int, end as int),
                first_index(rest, ';') == (i - pos) + first_index(rest.skip(i - pos), ';'),
            decreases end - i,
        {
            assert(rest.skip(i - pos).skip(1) =~= rest.skip(i - pos + 1));
            i = i + 1;
        }
        assert(first_index(rest, ';') == i - pos);
        assert(rest.take(i - pos) =~= v@.subrange(pos as int, i as int));
        let head = parse_code(v, pos, i);
        if let Some(code) = head {
            codes.push(code);
        }
        let ghost piece = match head {
            Some(code) => seq![code],
            None => Seq::empty(),
        };
        assert(codes@ =~= before + piece);
        if i == end {
            return codes;
        }
        assert(rest.skip(i - pos + 1) =~= v@.subrange(i + 1, end as int));
        assert(codes@ + codes_of(v@.subrange(i + 1, end as int)) =~= before + (piece + codes_of(
            v@.subrange(i + 1, end as int),
        )));
        pos = i + 1;
    }
}

/// What terminal output is made of: characters to show, and SGR sequences, of which the
/// parameters count.
pub enum Token {
    Char(char),
    Sgr(Seq<char>),
}

/// The index of the first character, from `i` on, that ends a control sequence: one from
/// `@` to `~`, or an escape character. It is the length if there is none.
pub open spec fn final_index(s: Seq<char>, i: int) -> int
    decreases s.len() - i,
{
    if i >= s.len() || s[i] == '\u{1b}' || '@' <= s[i] <= '~' {
        i
    } else {
        final_index(s, i + 1)
    }
}

/// The end of a control string, from `i` on: the index behind the first bell character, or
/// behind the first escape character and backslash. Any other escape character ends it too
/// and is not taken. The end is the length if there is none of these.
pub open spec fn string_end(s: Seq<char>, i: int) -> int
    decreases s.len() - i,
{
    if i >= s.len() {
        i
    } else if s[i] == '\u{7}' {
        i + 1
    } else if s[i] == '\u{1b}' {
        if i + 1 < s.len() && s[i + 1] == '\\' {
            i + 2
        } else {
            i
        }
    } else {
        string_end(s, i + 1)
    }
}

/// The index of the first character, from `i` on, that is not one from space to `/`.
pub open spec fn intermediates_end(s: Seq<char>, i: int) -> int
    decreases s.len() - i,
{
    if i >= s.len() || !(' ' <= s[i] <= '/') {
        i
    } else {
        intermediates_end(s, i + 1)
    }
}

/// Whether a character after an escape character begins a control string, such as the one
/// that sets the title of a window.
pub open spec fn begins_string(c: char) -> bool {
    c == ']' || c == 'P' || c == 'X' || c == '^' || c == '_'
}

/// The number of characters of the escape sequence at the front. It is 0 if there is none.
/// A sequence without an end takes all that follows up to the next escape character.
pub open spec fn sequence_len(s: Seq<char>) -> int {
    if s.len() < 2 || s[0] != '\u{1b}' {
        0
    } else if s[1] == '[' {
        if final_index(s, 2) < s.len() && s[final_index(s, 2)] != '\u{1b}' {
            final_index(s, 2) + 1
        } else {
            final_index(s, 2)
        }
    } else if begins_string(s[1]) {
        string_end(s, 2)
    } else if intermediates_end(s, 1) < s.len() && '0' <= s[intermediates_end(s, 1)] <= '~' {
        intermediates_end(s, 1) + 1
    } else {
        0
    }
}

/// Whether the escape sequence at the front is an SGR sequence: a control sequence that ends
/// in `m` and is not marked as private.
pub open spec fn is_sgr(s: Seq<char>) -> bool {
    let end = final_index(s, 2);
    s.len() > 1 && s[0] == '\u{1b}' && s[1] == '[' && end < s.len() && s[end] == 'm' && !('<'
        <= s[2] <= '?')
}

/// An escape sequence ends within the text.
pub proof fn lemma_sequence_len(s: Seq<char>)
    ensures
        0 <= sequence_len(s) <= s.len(),
        is_sgr(s) ==> sequence_len(s) == final_index(s, 2) + 1 && 2 <= final_index(s, 2),
{
    if s.len() > 1 {
        lemma_scans(s, 2);
        lemma_scans(s, 1);
    }
}

proof fn lemma_scans(s: Seq<char>, i: int)
    requires
        0 <= i <= s.len(),
    ensures
        i <= final_index(s, i) <= s.len(),
        i <= string_end(s, i) <= s.len(),
        i <= intermediates_end(s, i) <= s.len(),
    decreases s.len() - i,
{
    if i < s.len() {
        lemma_scans(s, i + 1);
    }
}

/// The tokens of terminal output. Escape sequences other than SGR leave no token.
pub open spec fn tokens(s: Seq<char>) -> Seq<Token>
    decreases s.len(),
{
    proof {
        lemma_sequence_len(s);
    }
    let n = sequence_len(s);
    if s.len() == 0 {
        Seq::empty()
    } else if n == 0 {
        seq![Token::Char(s[0])] + tokens(s.skip(1))
    } else if is_sgr(s) {
        seq![Token::Sgr(s.subrange(2, n - 1))] + tokens(s.skip(n))
    } else {
        tokens(s.skip(n))
    }
}

/// The style after an SGR sequence with these parameters. None at all reset it.
pub open spec fn after_sequence(style: Style, params: Seq<char>) -> Style {
    if params.len() == 0 {
        plain()
    } else {
        after_codes(style, codes_of(params))
    }
}

/// The style after a list of tokens.
pub open spec fn style_after(list: Seq<Token>) -> Style
    decreases list.len(),
{
    if list.len() == 0 {
        plain()
    } else {
        match list.last() {
            Token::Char(_) => style_after(list.drop_last()),
            Token::Sgr(params) => after_sequence(style_after(list.drop_last()), params),
        }
    }
}

/// A character as HTML text.
pub open spec fn shown_char(c: char) -> Seq<char> {
    if c == '<' {
        "&lt;"@
    } else if c == '>' {
        "&gt;"@
    } else if c == '&' {
        "&amp;"@
    } else if c == '"' {
        "&quot;"@
    } else {
        seq![c]
    }
}

/// The HTML of a token after a style. An SGR sequence ends the span of the style before it
/// and begins that of the style after it.
pub open spec fn token_html(token: Token, style: Style) -> Seq<char> {
    match token {
        Token::Char(c) => shown_char(c),
        Token::Sgr(params) => style.closing() + after_sequence(style, params).opening(),
    }
}

/// The HTML of a list of tokens. A span is open at its end if the style then has an attribute.
pub open spec fn tokens_html(list: Seq<Token>) -> Seq<char>
    decreases list.len(),
{
    if list.len() == 0 {
        Seq::empty()
    } else {
        tokens_html(list.drop_last()) + token_html(list.last(), style_after(list.drop_last()))
    }
}

/// The HTML of terminal output.
pub open spec fn ansi_html(text: Seq<char>) -> Seq<char> {
    tokens_html(tokens(text)) + style_after(tokens(text)).closing()
}

/// Appends a character as HTML text.
fn push_shown(out: &mut String, c: char)
    ensures
        final(out)@ == old(out)@ + shown_char(c),
{
    if c == '<' {
        out.push_str("&lt;");
    } else if c == '>' {
        out.push_str("&gt;");
    } else if c == '&' {
        out.push_str("&amp;");
    } else if c == '"' {
        out.push_str("&quot;");
    } else {
        out.push(c);
        assert(out@ =~= old(out)@ + shown_char(c));
    }
}

/// Where a sequence ends does not depend on what stands before it.
proof fn lemma_scans_skip(s: Seq<char>, from: int, i: int)
    requires
        0 <= from,
        0 <= i <= s.len() - from,
    ensures
        final_index(s.skip(from), i) == final_index(s, from + i) - from,
        string_end(s.skip(from), i) == string_end(s, from + i) - from,
        intermediates_end(s.skip(from), i) == intermediates_end(s, from + i) - from,
    decreases s.len() - from - i,
{
    if from + i < s.len() {
        lemma_scans_skip(s, from, i + 1);
    }
}

fn find_final(v: &Vec<char>, start: usize) -> (r: usize)
    requires
        start <= v.len(),
    ensures
        r == final_index(v@, start as int),
        start <= r <= v.len(),
{
    let mut i: usize = start;
    while i < v.len() && v[i] != '\u{1b}' && !('@' <= v[i] && v[i] <= '~')
        invariant
            start <= i <= v.len(),
            final_index(v@, start as int) == final_index(v@, i as int),
        decreases v.len() - i,
    {
        i = i + 1;
    }
    i
}

fn find_string_end(v: &Vec<char>, start: usize) -> (r: usize)
    requires
        start <= v.len(),
    ensures
        r == string_end(v@, start as int),
        start <= r <= v.len(),
{
    let mut i: usize = start;
    while i < v.len()
        invariant
            start <= i <= v.len(),
            string_end(v@, start as int) == string_end(v@, i as int),
        decreases v.len() - i,
    {
        if v[i] == '\u{7}' {
            return i + 1;
        }
        if v[i] == '\u{1b}' {
            return if v.len() - i > 1 && v[i + 1] == '\\' {
                i + 2
            } else {
                i
            };
        }
        i = i + 1;
    }
    i
}

fn find_intermediates_end(v: &Vec<char>, start: usize) -> (r: usize)
    requires
        start <= v.len(),
    ensures
        r == intermediates_end(v@, start as int),
        start <= r <= v.len(),
{
    let mut i: usize = start;
    while i < v.len() && ' ' <= v[i] && v[i] <= '/'
        invariant
            start <= i <= v.len(),
            intermediates_end(v@, start as int) == intermediates_end(v@, i as int),
        decreases v.len() - i,
    {
        i = i + 1;
    }
    i
}

/// The end of the escape sequence that begins at `start`; `start` itself if there is none.
fn find_sequence_end(v: &Vec<char>, start: usize) -> (r: usize)
    requires
        start < v.len(),
    ensures
        r == start + sequence_len(v@.skip(start as int)),
        start <= r <= v.len(),
{
    let ghost rest = v@.skip(start as int);
    if v.len() - start < 2 || v[start] != '\u{1b}' {
        return start;
    }
    proof {
        lemma_scans_skip(v@, start as int, 1);
        lemma_scans_skip(v@, start as int, 2);
        assert(rest[1] == v@[start + 1]);
    }
    let c = v[start + 1];
    if c == '[' {
        let end = find_final(v, start + 2);
        assert(end < v.len() ==> rest[end - start] == v@[end as int]);
        return if end < v.len() && v[end] != '\u{1b}' {
            end + 1
        } else {
            end
        };
    }
    if c == ']' || c == 'P' || c == 'X' || c == '^' || c == '_' {
        return find_string_end(v, start + 2);
    }
    let end = find_intermediates_end(v, start + 1);
    if end < v.len() && '0' <= v[end] && v[end] <= '~' {
        assert(rest[end - start] == v@[end as int]);
        end + 1
    } else {
        assert(end < v.len() ==> rest[end - start] == v@[end as int]);
        start
    }
}

/// Converts ANSI SGR escape sequences to styled `<span>` elements.
///
/// Handles the standard and the bright colours of text and background, bold,
/// dim, italic, underline and reset. Text is HTML-escaped; other escape
/// sequences are stripped.
pub fn ansi_to_html(input: &str) -> (r: String)
    ensures
        r@ == ansi_html(input@),
{
    let v = chars_of(input);
    let ghost all = input@;
    let ghost mut done = Seq::<Token>::empty();
    let mut out = String::new();
    let mut style = Style::new();
    let mut i: usize = 0;
    assert(all.skip(0) =~= all);
    assert(done + tokens(all) =~= tokens(all));
    assert(out@ =~= tokens_html(done));
    while i < v.len()
        invariant
            v@ == all,
            i <= v.len(),
            done + tokens(all.skip(i as int)) == tokens(all),
            out@ == tokens_html(done),
            style == style_after(done),
        decreases v.len() - i,
    {
        let ghost rest = all.skip(i as int);
        let end: usize = find_sequence_end(&v, i);
        proof {
            lemma_sequence_len(rest);
            if rest.len() > 1 {
                lemma_scans_skip(all, i as int, 2);
            }
        }
        if end == i {
            let c = v[i];
            proof {
                lemma_char_range(c);
            }
            let ghost now = done.push(Token::Char(c));
            assert(rest.skip(1) =~= all.skip(i + 1));
            assert(now + tokens(all.skip(i + 1)) =~= done + (seq![Token::Char(c)] + tokens(
                all.skip(i + 1),
            )));
            assert(now.drop_last() =~= done);
            push_shown(&mut out, c);
            i = i + 1;
            proof {
                done = now;
            }
        } else {
            assert(rest.skip(end - i) =~= all.skip(end as int));
            assert(rest[1] == all[i + 1] && rest[end - i - 1] == all[end - 1]);
            assert(rest.len() > 2 ==> rest[2] == all[i + 2]);
            let last = v[end - 1];
            let sgr = v[i + 1] == '[' && end - i > 2 && last == 'm' && !('<' <= v[i + 2] && v[i + 2]
                <= '?');
            assert(sgr == is_sgr(rest)) by {
                lemma_final_index(rest, 2);
            }
            if sgr {
                let ghost params = all.subrange(i + 2, end - 1);
                assert(params =~= rest.subrange(2, end - i - 1));
                let ghost now = done.push(Token::Sgr(params));
                assert(now + tokens(all.skip(end as int)) =~= done + (seq![Token::Sgr(params)]
                    + tokens(all.skip(end as int))));
                assert(now.drop_last() =~= done);
                let ghost before = out@;
                let ghost old_style = style;
                if style.is_active() {
                    out.push_str("</span>");
                }
                assert(out@ =~= before + old_style.closing());
                if end - i == 3 {
                    style = Style::new();
                } else {
                    let codes = parse_codes(&v, i + 2, end - 1);
                    apply_codes(&mut style, &codes);
                }
                assert(style == after_sequence(old_style, params));
                out.push_str(style.open_tag().as_str());
                assert(out@ =~= before + (old_style.closing() + style.opening()));
                proof {
                    done = now;
                }
            }
            i = end;
        }
    }
    assert(all.skip(i as int).len() == 0);
    assert(done =~= tokens(all));
    if style.is_active() {
        out.push_str("</span>");
    }
    assert(out@ =~= ansi_html(input@));
    out
}

proof fn lemma_final_index(s: Seq<char>, i: int)
    requires
        0 <= i <= s.len(),
    ensures
        i <= final_index(s, i) <= s.len(),
        final_index(s, i) < s.len() && s[final_index(s, i)] != '\u{1b}' ==> '@' <= s[final_index(
            s,
            i,
        )] <= '~',
        forall|k: int| i <= k < final_index(s, i) ==> !('@' <= #[trigger] s[k] <= '~'),
    decreases s.len() - i,
{
    if i < s.len() && s[i] != '\u{1b}' && !('@' <= s[i] <= '~') {
        lemma_final_index(s, i + 1);
    }
}

/// The text of a list of tokens: its characters, escaped, without the SGR sequences.
pub open spec fn shown_text(list: Seq<Token>) -> Seq<char>
    decreases list.len(),
{
    if list.len() == 0 {
        Seq::empty()
    } else {
        shown_text(list.drop_last()) + match list.last() {
            Token::Char(c) => shown_char(c),
            Token::Sgr(_) => Seq::empty(),
        }
    }
}

proof fn lemma_shown_char(c: char)
    ensures
        no_angle_brackets(shown_char(c)),
        shown_char(c).len() > 0,
{
    reveal_strlit("&lt;");
    reveal_strlit("&gt;");
    reveal_strlit("&amp;");
    reveal_strlit("&quot;");
}

proof fn lemma_color_text(code: u32)
    ensures
        no_angle_brackets(color_of(code)),
{
    reveal_strlit("#5c6370");
    reveal_strlit("#ffffff");
    reveal_strlit("#282c34");
    reveal_strlit("#e06c75");
    reveal_strlit("#98c379");
    reveal_strlit("#e5c07b");
    reveal_strlit("#61afef");
    reveal_strlit("#c678dd");
    reveal_strlit("#56b6c2");
    reveal_strlit("#abb2bf");
}

proof fn lemma_joined_text(parts: Seq<Seq<char>>, separator: Seq<char>)
    requires
        no_angle_brackets(separator),
        forall|i: int| 0 <= i < parts.len() ==> no_angle_brackets(#[trigger] parts[i]),
    ensures
        no_angle_brackets(joined(parts, separator)),
    decreases parts.len(),
{
    if parts.len() > 1 {
        assert forall|i: int| 0 <= i < parts.drop_last().len() implies no_angle_brackets(
            #[trigger] parts.drop_last()[i],
        ) by {
            assert(parts.drop_last()[i] == parts[i]);
        }
        lemma_joined_text(parts.drop_last(), separator);
        assert(no_angle_brackets(parts[parts.len() - 1]));
    }
}

proof fn lemma_declarations_text(style: Style)
    ensures
        no_angle_brackets(joined(style.declarations(), ";"@)),
{
    reveal_strlit(";");
    reveal_strlit("color:");
    reveal_strlit("background-color:");
    reveal_strlit("font-weight:bold");
    reveal_strlit("font-style:italic");
    reveal_strlit("text-decoration:underline");
    reveal_strlit("opacity:0.7");
    if let Some(code) = style.fg {
        lemma_color_text(code);
    }
    if let Some(code) = style.bg {
        lemma_color_text(code);
    }
    lemma_joined_text(style.declarations(), ";"@);
}

/// The tags of a style leave no text.
proof fn lemma_style_tags(style: Style)
    ensures
        without_tags(style.opening(), false) == Seq::<char>::empty(),
        without_tags(style.closing(), false) == Seq::<char>::empty(),
        !ends_inside_tag(style.opening(), false),
        !ends_inside_tag(style.closing(), false),
{
    if style.active() {
        lemma_declarations_text(style);
        reveal_strlit("<span style=\"");
        reveal_strlit("\">");
        reveal_strlit("</span>");
        let d = joined(style.declarations(), ";"@);
        let tag = style.opening();
        assert forall|i: int| 0 <= i < tag.len() - 2 implies #[trigger] tag.subrange(
            1,
            tag.len() - 1,
        )[i] != '<' && tag.subrange(1, tag.len() - 1)[i] != '>' by {
            if 12 <= i < 12 + d.len() {
                assert(tag.subrange(1, tag.len() - 1)[i] == d[i - 12]);
            }
        }
        lemma_without_tags_tag(tag);
        lemma_without_tags_tag("</span>"@);
    }
}

proof fn lemma_tokens_text(list: Seq<Token>)
    ensures
        without_tags(tokens_html(list), false) == shown_text(list),
        !ends_inside_tag(tokens_html(list), false),
    decreases list.len(),
{
    if list.len() > 0 {
        let before = tokens_html(list.drop_last());
        let style = style_after(list.drop_last());
        lemma_tokens_text(list.drop_last());
        lemma_without_tags_concat(before, token_html(list.last(), style), false);
        match list.last() {
            Token::Char(c) => {
                lemma_shown_char(c);
                lemma_without_tags_text(shown_char(c), false);
            },
            Token::Sgr(params) => {
                let next = after_sequence(style, params);
                lemma_style_tags(style);
                lemma_style_tags(next);
                lemma_without_tags_concat(style.closing(), next.opening(), false);
            },
        }
        assert(without_tags(tokens_html(list), false) =~= shown_text(list));
    }
}

/// Without its tags the HTML of terminal output is exactly the text of the output,
/// escaped, without the escape sequences.
pub proof fn law_ansi_html_text(text: Seq<char>)
    ensures
        without_tags(ansi_html(text), false) == shown_text(tokens(text)),
{
    let list = tokens(text);
    lemma_tokens_text(list);
    lemma_style_tags(style_after(list));
    lemma_without_tags_concat(tokens_html(list), style_after(list).closing(), false);
    assert(without_tags(ansi_html(text), false) =~= shown_text(list));
}

/// The number of opening tags in `s` less the number of closing tags.
pub open spec fn tag_balance(s: Seq<char>) -> int
    decreases s.len(),
{
    if s.len() == 0 {
        0
    } else if s[0] != '<' {
        tag_balance(s.skip(1))
    } else if s.len() > 1 && s[1] == '/' {
        tag_balance(s.skip(1)) - 1
    } else {
        tag_balance(s.skip(1)) + 1
    }
}

proof fn lemma_tag_balance_concat(a: Seq<char>, b: Seq<char>)
    requires
        a.len() > 0 ==> a.last() != '<',
    ensures
        tag_balance(a + b) == tag_balance(a) + tag_balance(b),
    decreases a.len(),
{
    if a.len() == 0 {
        assert(a + b =~= b);
    } else {
        assert((a + b).skip(1) =~= a.skip(1) + b);
        if a.len() == 1 {
            assert(a.skip(1) + b =~= b);
            assert(tag_balance(a.skip(1)) == 0);
        } else {
            assert(a.skip(1).last() == a.last());
            assert((a + b)[1] == a[1]);
            lemma_tag_balance_concat(a.skip(1), b);
        }
    }
}

proof fn lemma_tag_balance_text(s: Seq<char>)
    requires
        no_angle_brackets(s),
    ensures
        tag_balance(s) == 0,
    decreases s.len(),
{
    if s.len() > 0 {
        assert(s[0] != '<');
        assert(no_angle_brackets(s.skip(1)));
        lemma_tag_balance_text(s.skip(1));
    }
}

proof fn lemma_style_balance(style: Style)
    ensures
        tag_balance(style.opening()) == if style.active() { 1int } else { 0 },
        tag_balance(style.closing()) == if style.active() { -1int } else { 0 },
        style.opening().len() > 0 ==> style.opening().last() == '>',
        style.closing().len() > 0 ==> style.closing().last() == '>',
{
    if style.active() {
        lemma_declarations_text(style);
        reveal_strlit("<span style=\"");
        reveal_strlit("\">");
        reveal_strlit("</span>");
        let d = joined(style.declarations(), ";"@);
        let tag = style.opening();
        let inner = tag.subrange(1, tag.len() - 1);
        assert forall|i: int| 0 <= i < inner.len() implies #[trigger] inner[i] != '<' && inner[i]
            != '>' by {
            if 12 <= i < 12 + d.len() {
                assert(inner[i] == d[i - 12]);
            }
        }
        lemma_tag_balance_text(inner);
        assert(tag.skip(1) =~= inner + seq!['>']);
        lemma_tag_balance_concat(inner, seq!['>']);
        assert(tag_balance(seq!['>']) == 0) by {
            let end = seq!['>'];
            assert(tag_balance(end.skip(1)) == 0);
            assert(end[0] != '<');
        }
        let close = "</span>"@;
        let name = close.subrange(1, 6);
        assert(no_angle_brackets(name));
        lemma_tag_balance_text(name);
        assert(close.skip(1) =~= name + seq!['>']);
        lemma_tag_balance_concat(name, seq!['>']);
    }
}

/// The number of open spans after a style.
pub open spec fn open_spans(style: Style) -> int {
    if style.active() {
        1
    } else {
        0
    }
}

proof fn lemma_tokens_balance(list: Seq<Token>)
    ensures
        tag_balance(tokens_html(list)) == open_spans(style_after(list)),
        tokens_html(list).len() > 0 ==> tokens_html(list).last() != '<',
    decreases list.len(),
{
    if list.len() > 0 {
        let before = tokens_html(list.drop_last());
        let style = style_after(list.drop_last());
        let piece = token_html(list.last(), style);
        lemma_tokens_balance(list.drop_last());
        lemma_tag_balance_concat(before, piece);
        match list.last() {
            Token::Char(c) => {
                lemma_shown_char(c);
                lemma_tag_balance_text(piece);
                assert(piece[piece.len() - 1] != '<');
            },
            Token::Sgr(params) => {
                let next = after_sequence(style, params);
                lemma_style_balance(style);
                lemma_style_balance(next);
                lemma_tag_balance_concat(style.closing(), next.opening());
                assert(piece.len() > 0 ==> piece.last() == '>');
            },
        }
        assert(piece.len() > 0 ==> tokens_html(list).last() == piece.last());
        assert(piece.len() == 0 ==> tokens_html(list) =~= before);
    }
}

proof fn lemma_tokens_prefix(list: Seq<Token>, k: int)
    requires
        0 <= k <= list.len(),
    ensures
        tokens_html(list.take(k)).is_prefix_of(tokens_html(list)),
    decreases list.len() - k,
{
    let part = tokens_html(list.take(k));
    if k < list.len() {
        lemma_tokens_prefix(list, k + 1);
        assert(list.take(k + 1).drop_last() =~= list.take(k));
        let longer = tokens_html(list.take(k + 1));
        assert(part =~= longer.take(part.len() as int));
        assert(part =~= tokens_html(list).take(part.len() as int));
    } else {
        assert(list.take(k) =~= list);
        assert(part =~= part.take(part.len() as int));
    }
}

/// Spans do not nest, and every span is closed: after each token of terminal output its HTML
/// so far has one open span if the style has an attribute and none otherwise, and in the
/// end there is none.
pub proof fn law_ansi_spans_do_not_nest(text: Seq<char>, k: int)
    requires
        0 <= k <= tokens(text).len(),
    ensures
        tokens_html(tokens(text).take(k)).is_prefix_of(ansi_html(text)),
        tag_balance(tokens_html(tokens(text).take(k))) == open_spans(
            style_after(tokens(text).take(k)),
        ),
        tag_balance(ansi_html(text)) == 0,
{
    let list = tokens(text);
    let part = tokens_html(list.take(k));
    lemma_tokens_balance(list.take(k));
    lemma_tokens_prefix(list, k);
    assert(part =~= ansi_html(text).take(part.len() as int));
    lemma_tokens_balance(list);
    lemma_style_balance(style_after(list));
    lemma_tag_balance_concat(tokens_html(list), style_after(list).closing());
}

/// A text as HTML text, character by character.
pub open spec fn shown(text: Seq<char>) -> Seq<char>
    decreases text.len(),
{
    if text.len() == 0 {
        Seq::empty()
    } else {
        shown(text.drop_last()) + shown_char(text.last())
    }
}

proof fn lemma_char_range(c: char)
    ensures
        0 <= c as int <= 0xd7ff || 0xe000 <= c as int <= 0x10ffff,
{
}

/// The characters of a text as tokens.
pub open spec fn char_tokens(text: Seq<char>) -> Seq<Token>
    decreases text.len(),
{
    if text.len() == 0 {
        Seq::empty()
    } else {
        seq![Token::Char(text[0])] + char_tokens(text.skip(1))
    }
}

proof fn lemma_tokens_without_escapes(text: Seq<char>)
    requires
        !text.contains('\u{1b}'),
    ensures
        tokens(text) == char_tokens(text),
    decreases text.len(),
{
    if text.len() > 0 {
        assert(text[0] != '\u{1b}');
        assert(!text.skip(1).contains('\u{1b}')) by {
            if text.skip(1).contains('\u{1b}') {
                let k = choose|k: int|
                    0 <= k < text.skip(1).len() && text.skip(1)[k] == '\u{1b}';
                assert(text[k + 1] == '\u{1b}');
            }
        }
        lemma_tokens_without_escapes(text.skip(1));
    }
}

proof fn lemma_char_tokens_push(text: Seq<char>, c: char)
    ensures
        char_tokens(text.push(c)) == char_tokens(text).push(Token::Char(c)),
    decreases text.len(),
{
    let longer = text.push(c);
    if text.len() > 0 {
        lemma_char_range(text[0]);
        lemma_char_tokens_push(text.skip(1), c);
        assert(longer.skip(1) =~= text.skip(1).push(c));
        assert(char_tokens(longer) =~= char_tokens(text).push(Token::Char(c)));
    } else {
        assert(longer.skip(1) =~= text);
        assert(char_tokens(longer) =~= char_tokens(text).push(Token::Char(c)));
    }
}

proof fn lemma_char_tokens(text: Seq<char>)
    ensures
        tokens_html(char_tokens(text)) == shown(text),
        style_after(char_tokens(text)) == plain(),
    decreases text.len(),
{
    if text.len() > 0 {
        lemma_char_tokens(text.drop_last());
        lemma_char_range(text.last());
        lemma_char_tokens_push(text.drop_last(), text.last());
        assert(text =~= text.drop_last().push(text.last()));
        assert(char_tokens(text).drop_last() =~= char_tokens(text.drop_last()));
    }
}

/// Output without an escape character is only escaped, character by character.
pub proof fn law_ansi_html_without_escapes(text: Seq<char>)
    requires
        !text.contains('\u{1b}'),
    ensures
        ansi_html(text) == shown(text),
{
    lemma_tokens_without_escapes(text);
    lemma_char_tokens(text);
    assert(ansi_html(text) =~= shown(text));
}

/// An escape sequence that is not SGR leaves no trace, and the text behind it is kept.
pub proof fn law_other_sequences_are_stripped(sequence: Seq<char>, text: Seq<char>)
    requires
        sequence.len() > 0,
        sequence_len(sequence + text) == sequence.len(),
        !is_sgr(sequence + text),
    ensures
        ansi_html(sequence + text) == ansi_html(text),
{
    assert((sequence + text).skip(sequence.len() as int) =~= text);
}

proof fn lemma_final_index_is(s: Seq<char>, i: int, end: int)
    requires
        0 <= i <= end < s.len(),
        '@' <= s[end] <= '~',
        forall|k: int| i <= k < end ==> !('@' <= #[trigger] s[k] <= '~') && s[k] != '\u{1b}',
    ensures
        final_index(s, i) == end,
    decreases end - i,
{
    if i < end {
        lemma_final_index_is(s, i + 1, end);
    }
}

/// A control sequence is stripped with its parameters, unless it ends in `m`, and the text
/// behind it is kept.
pub proof fn law_control_sequence_is_stripped(params: Seq<char>, last: char, text: Seq<char>)
    requires
        forall|k: int|
            0 <= k < params.len() ==> !('@' <= #[trigger] params[k] <= '~') && params[k]
                != '\u{1b}',
        '@' <= last <= '~',
        last != 'm',
    ensures
        ansi_html(seq!['\u{1b}', '['] + params + seq![last] + text) == ansi_html(text),
{
    let sequence = seq!['\u{1b}', '['] + params + seq![last];
    let s = sequence + text;
    let end = params.len() + 2;
    assert forall|k: int| 2 <= k < end implies !('@' <= #[trigger] s[k] <= '~') && s[k]
        != '\u{1b}' by {
        assert(s[k] == params[k - 2]);
    }
    assert(s[end as int] == last);
    lemma_final_index_is(s, 2, end as int);
    law_other_sequences_are_stripped(sequence, text);
}

proof fn lemma_scans_append(a: Seq<char>, rest: Seq<char>, i: int)
    requires
        0 <= i <= a.len(),
        rest.len() > 1,
        rest[0] == '\u{1b}',
        rest[1] != '\\',
    ensures
        final_index(a + rest, i) == final_index(a, i),
        string_end(a + rest, i) == string_end(a, i),
        intermediates_end(a + rest, i) == intermediates_end(a, i),
    decreases a.len() - i,
{
    let s = a + rest;
    if i < a.len() {
        assert(s[i] == a[i]);
        if i + 1 < a.len() {
            assert(s[i + 1] == a[i + 1]);
        } else {
            assert(s[i + 1] == rest[0]);
        }
        lemma_scans_append(a, rest, i + 1);
    } else {
        assert(s[i] == rest[0] && s[i + 1] == rest[1]);
    }
}

proof fn lemma_sequence_append(a: Seq<char>, rest: Seq<char>)
    requires
        a.len() > 0,
        rest.len() > 1,
        rest[0] == '\u{1b}',
        rest[1] != '\\',
    ensures
        sequence_len(a + rest) == sequence_len(a),
        is_sgr(a + rest) == is_sgr(a),
{
    let s = a + rest;
    assert(s[0] == a[0]);
    if a.len() > 1 {
        assert(s[1] == a[1]);
        lemma_scans_append(a, rest, 1);
        lemma_scans_append(a, rest, 2);
        lemma_scans(a, 1);
        lemma_scans(a, 2);
        assert(s[a.len() as int] == '\u{1b}');
        let f = final_index(a, 2);
        let g = intermediates_end(a, 1);
        assert(f < a.len() ==> s[f] == a[f]);
        assert(g < a.len() ==> s[g] == a[g]);
        assert(a.len() > 2 ==> s[2] == a[2]);
    } else {
        assert(s[1] == '\u{1b}');
    }
}

/// An escape character ends what stands before it: the tokens up to a control sequence do not
/// depend on what follows.
proof fn lemma_tokens_append(a: Seq<char>, rest: Seq<char>)
    requires
        rest.len() > 1,
        rest[0] == '\u{1b}',
        rest[1] != '\\',
    ensures
        tokens(a + rest) == tokens(a) + tokens(rest),
    decreases a.len(),
{
    let s = a + rest;
    if a.len() == 0 {
        assert(s =~= rest);
        assert(tokens(a) + tokens(rest) =~= tokens(rest));
    } else {
        lemma_sequence_append(a, rest);
        lemma_sequence_len(a);
        let n = sequence_len(a);
        let step = if n == 0 {
            1
        } else {
            n
        };
        assert(s[0] == a[0]);
        assert(s.skip(step) =~= a.skip(step) + rest);
        lemma_tokens_append(a.skip(step), rest);
        if n == 0 {
            lemma_char_range(a[0]);
            assert(tokens(s) =~= tokens(a) + tokens(rest));
        } else if is_sgr(a) {
            assert(s.subrange(2, n - 1) =~= a.subrange(2, n - 1));
            assert(tokens(s) =~= tokens(a) + tokens(rest));
        }
    }
}

proof fn lemma_html_append(a: Seq<Token>, b: Seq<Token>)
    requires
        style_after(a) == plain(),
    ensures
        tokens_html(a + b) == tokens_html(a) + tokens_html(b),
        style_after(a + b) == style_after(b),
    decreases b.len(),
{
    if b.len() == 0 {
        assert(a + b =~= a);
        assert(tokens_html(a) + tokens_html(b) =~= tokens_html(a));
    } else {
        lemma_html_append(a, b.drop_last());
        assert((a + b).drop_last() =~= a + b.drop_last());
        assert((a + b).last() == b.last());
        assert(tokens_html(a + b) =~= tokens_html(a) + tokens_html(b));
    }
}

proof fn lemma_reset_code(style: Style)
    ensures
        after_sequence(style, seq!['0']) == plain(),
{
    let params = seq!['0'];
    assert(params[0] != ';');
    assert(first_index(params.skip(1), ';') == 0);
    assert(first_index(params, ';') == 1);
    assert(params.take(1) =~= params);
    assert(unsigned_digits(params) == params);
    assert(params.drop_last() =~= Seq::empty());
    assert(number(params) == 0) by {
        assert(number(params.drop_last()) == 0);
    }
    assert(code_of(params) == Some(0u32));
    let codes = codes_of(params);
    assert(codes =~= seq![0u32]);
    assert(codes.skip(1) =~= Seq::empty());
    assert(after_codes(plain(), codes.skip(1)) == plain());
}

proof fn lemma_reset(a: Seq<char>, params: Seq<char>, b: Seq<char>)
    requires
        params == Seq::<char>::empty() || params == seq!['0'],
    ensures
        ansi_html(a + (seq!['\u{1b}', '['] + params + seq!['m'] + b)) == ansi_html(a) + ansi_html(
            b,
        ),
{
    let rest = seq!['\u{1b}', '['] + params + seq!['m'] + b;
    let n = params.len() as int + 3;
    let list = tokens(a);
    let reset = Token::Sgr(params);
    lemma_tokens_append(a, rest);
    lemma_final_index_is(rest, 2, n - 1);
    assert(rest.skip(n) =~= b);
    assert(rest.subrange(2, n - 1) =~= params);
    assert(tokens(rest) == seq![reset] + tokens(b));
    lemma_reset_code(style_after(list));
    let first = list.push(reset);
    assert(first.drop_last() =~= list);
    assert(style_after(first) == plain());
    lemma_html_append(first, tokens(b));
    assert(list + (seq![reset] + tokens(b)) =~= first + tokens(b));
    assert(ansi_html(a + rest) =~= ansi_html(a) + ansi_html(b));
}

/// A reset forgets all that stands before it: what follows is rendered as if it stood alone.
pub proof fn law_reset_forgets(a: Seq<char>, b: Seq<char>)
    ensures
        ansi_html(a + "\u{1b}[0m"@ + b) == ansi_html(a) + ansi_html(b),
        ansi_html(a + "\u{1b}[m"@ + b) == ansi_html(a) + ansi_html(b),
{
    reveal_strlit("\u{1b}[0m");
    reveal_strlit("\u{1b}[m");
    let none = Seq::<char>::empty();
    lemma_reset(a, seq!['0'], b);
    lemma_reset(a, none, b);
    assert(a + "\u{1b}[0m"@ + b =~= a + (seq!['\u{1b}', '['] + seq!['0'] + seq!['m'] + b));
    assert(a + "\u{1b}[m"@ + b =~= a + (seq!['\u{1b}', '['] + none + seq!['m'] + b));
}

proof fn lemma_decimal_code(code: u32)
    ensures
        codes_of(decimal(code as nat)) == seq![code],
        code_of(decimal(code as nat)) == Some(code),
        is_parameters(decimal(code as nat)),
        !decimal(code as nat).contains(';'),
        decimal(code as nat).len() > 0,
{
    let d = decimal(code as nat);
    lemma_decimal_digits(code as nat);
    lemma_decimal_number(code as nat);
    assert forall|k: int| 0 <= k < d.len() implies '0' <= #[trigger] d[k] <= '9' by {
        assert(is_digit(d[k]));
    }
    assert(!d.contains(';')) by {
        if d.contains(';') {
            let k = choose|k: int| 0 <= k < d.len() && d[k] == ';';
            assert('0' <= d[k]);
        }
    }
    lemma_first_index(d, ';');
    assert(d.take(d.len() as int) =~= d);
    assert(unsigned_digits(d) == d);
    assert(codes_of(d) =~= seq![code]);
}

/// Whether a text can stand between the bracket and the end of an SGR sequence.
spec fn is_parameters(params: Seq<char>) -> bool {
    &&& forall|k: int|
        0 <= k < params.len() ==> !('@' <= #[trigger] params[k] <= '~') && params[k] != '\u{1b}'
    &&& params.len() > 0 ==> !('<' <= params[0] <= '?')
}

/// An SGR sequence with these parameters.
spec fn sgr(params: Seq<char>) -> Seq<char> {
    seq!['\u{1b}', '['] + params + seq!['m']
}

proof fn lemma_sgr_token(params: Seq<char>, rest: Seq<char>)
    requires
        is_parameters(params),
    ensures
        tokens(sgr(params) + rest) == seq![Token::Sgr(params)] + tokens(rest),
        tokens(sgr(params)) == seq![Token::Sgr(params)],
    decreases rest.len(),
{
    let s = sgr(params) + rest;
    let n = params.len() as int + 3;
    assert forall|k: int| 2 <= k < n - 1 implies !('@' <= #[trigger] s[k] <= '~') && s[k]
        != '\u{1b}' by {
        assert(s[k] == params[k - 2]);
    }
    assert(s[n - 1] == 'm');
    assert(params.len() > 0 ==> s[2] == params[0]);
    lemma_final_index_is(s, 2, n - 1);
    assert(s.skip(n) =~= rest);
    assert(s.subrange(2, n - 1) =~= params);
    if rest.len() > 0 {
        lemma_sgr_token(params, Seq::empty());
    } else {
        assert(s =~= sgr(params));
        assert(tokens(rest) =~= Seq::empty());
        assert(tokens(s) =~= seq![Token::Sgr(params)]);
    }
}

proof fn lemma_text_tokens(list: Seq<Token>, text: Seq<char>)
    ensures
        tokens_html(list + char_tokens(text)) == tokens_html(list) + shown(text),
        style_after(list + char_tokens(text)) == style_after(list),
    decreases text.len(),
{
    if text.len() == 0 {
        assert(list + char_tokens(text) =~= list);
        assert(tokens_html(list) + shown(text) =~= tokens_html(list));
    } else {
        let start = text.drop_last();
        let c = text.last();
        lemma_char_range(c);
        lemma_text_tokens(list, start);
        lemma_char_tokens_push(start, c);
        assert(text =~= start.push(c));
        let all = list + char_tokens(text);
        assert(all.drop_last() =~= list + char_tokens(start));
        assert(all.last() == Token::Char(c));
        assert(tokens_html(all) =~= tokens_html(list) + shown(text));
    }
}

/// Text behind an SGR sequence stands in a span of the style that the sequence chooses.
proof fn lemma_styled_text(params: Seq<char>, text: Seq<char>)
    requires
        is_parameters(params),
        !text.contains('\u{1b}'),
    ensures
        ({
            let style = after_sequence(plain(), params);
            &&& ansi_html(sgr(params) + text) == style.opening() + ansi_html(text)
                + style.closing()
            &&& ansi_html(sgr(params) + text + "\u{1b}[0m"@) == style.opening() + ansi_html(text)
                + style.closing()
        }),
{
    let style = after_sequence(plain(), params);
    let first = seq![Token::Sgr(params)];
    lemma_sgr_token(params, text);
    lemma_tokens_without_escapes(text);
    lemma_text_tokens(first, text);
    law_ansi_html_without_escapes(text);
    assert(first.drop_last() =~= Seq::empty());
    assert(style_after(first) == style);
    assert(tokens_html(first.drop_last()) =~= Seq::empty());
    assert(tokens_html(first) =~= style.opening());
    let none = Seq::<char>::empty();
    let a = sgr(params) + text;
    law_reset_forgets(a, none);
    assert(a + "\u{1b}[0m"@ + none =~= a + "\u{1b}[0m"@);
    law_ansi_html_without_escapes(none);
    assert(ansi_html(a) + ansi_html(none) =~= ansi_html(a));
}

proof fn lemma_one_code(code: u32, text: Seq<char>)
    requires
        !text.contains('\u{1b}'),
    ensures
        ({
            let style = after_code(plain(), code);
            ansi_html("\u{1b}["@ + decimal(code as nat) + "m"@ + text + "\u{1b}[0m"@)
                == style.opening() + ansi_html(text) + style.closing()
        }),
{
    reveal_strlit("\u{1b}[");
    reveal_strlit("m");
    let params = decimal(code as nat);
    lemma_decimal_code(code);
    lemma_styled_text(params, text);
    assert("\u{1b}["@ + params + "m"@ + text + "\u{1b}[0m"@ =~= sgr(params) + text
        + "\u{1b}[0m"@);
    let codes = seq![code];
    assert(codes.skip(1) =~= Seq::empty());
    assert(after_codes(after_code(plain(), code), codes.skip(1)) == after_code(plain(), code));
}

proof fn lemma_one_declaration(style: Style, declaration: Seq<char>)
    requires
        style.active(),
        style.declarations() == seq![declaration],
    ensures
        style.opening() == "<span style=\""@ + declaration + "\">"@,
        style.closing() == "</span>"@,
{
    assert(joined(style.declarations(), ";"@) == declaration);
}

/// Text in one of the colours 30 to 37 and 90 to 97, up to a reset, stands in a span of that
/// colour.
pub proof fn law_text_has_its_color(code: u32, color: Seq<char>, text: Seq<char>)
    requires
        !text.contains('\u{1b}'),
        (code == 30 && color == "#282c34"@) || (code == 31 && color == "#e06c75"@) || (code == 32
            && color == "#98c379"@) || (code == 33 && color == "#e5c07b"@) || (code == 34 && color
            == "#61afef"@) || (code == 35 && color == "#c678dd"@) || (code == 36 && color
            == "#56b6c2"@) || (code == 37 && color == "#abb2bf"@) || (code == 90 && color
            == "#5c6370"@) || (code == 91 && color == "#e06c75"@) || (code == 92 && color
            == "#98c379"@) || (code == 93 && color == "#e5c07b"@) || (code == 94 && color
            == "#61afef"@) || (code == 95 && color == "#c678dd"@) || (code == 96 && color
            == "#56b6c2"@) || (code == 97 && color == "#ffffff"@),
    ensures
        ansi_html("\u{1b}["@ + decimal(code as nat) + "m"@ + text + "\u{1b}[0m"@)
            == "<span style=\"color:"@ + color + "\">"@ + ansi_html(text) + "</span>"@,
{
    lemma_one_code(code, text);
    let style = after_code(plain(), code);
    let declaration = "color:"@ + color;
    assert(style.declarations() =~= seq![declaration]);
    lemma_one_declaration(style, declaration);
    reveal_strlit("<span style=\"color:");
    reveal_strlit("<span style=\"");
    reveal_strlit("color:");
    assert("<span style=\""@ + ("color:"@ + color) =~= "<span style=\"color:"@ + color);
}

/// Text on one of the colours 40 to 47 and 100 to 107, up to a reset, stands in a span with
/// that background.
pub proof fn law_text_has_its_background(code: u32, color: Seq<char>, text: Seq<char>)
    requires
        !text.contains('\u{1b}'),
        ((code == 40 || code == 100) && color == "#282c34"@) || ((code == 41 || code == 101)
            && color == "#e06c75"@) || ((code == 42 || code == 102) && color == "#98c379"@) || ((
        code == 43 || code == 103) && color == "#e5c07b"@) || ((code == 44 || code == 104) && color
            == "#61afef"@) || ((code == 45 || code == 105) && color == "#c678dd"@) || ((code == 46
            || code == 106) && color == "#56b6c2"@) || ((code == 47 || code == 107) && color
            == "#abb2bf"@),
    ensures
        ansi_html("\u{1b}["@ + decimal(code as nat) + "m"@ + text + "\u{1b}[0m"@)
            == "<span style=\"background-color:"@ + color + "\">"@ + ansi_html(text)
            + "</span>"@,
{
    lemma_one_code(code, text);
    let style = after_code(plain(), code);
    let declaration = "background-color:"@ + color;
    assert(style.declarations() =~= seq![declaration]);
    lemma_one_declaration(style, declaration);
    reveal_strlit("<span style=\"background-color:");
    reveal_strlit("<span style=\"");
    reveal_strlit("background-color:");
    assert("<span style=\""@ + ("background-color:"@ + color)
        =~= "<span style=\"background-color:"@ + color);
}

/// Bold, dim, italic and underlined text, up to a reset, stands in a span of that style.
pub proof fn law_text_has_its_weight(code: u32, declaration: Seq<char>, text: Seq<char>)
    requires
        !text.contains('\u{1b}'),
        (code == 1 && declaration == "font-weight:bold"@) || (code == 2 && declaration
            == "opacity:0.7"@) || (code == 3 && declaration == "font-style:italic"@) || (code == 4
            && declaration == "text-decoration:underline"@),
    ensures
        ansi_html("\u{1b}["@ + decimal(code as nat) + "m"@ + text + "\u{1b}[0m"@)
            == "<span style=\""@ + declaration + "\">"@ + ansi_html(text) + "</span>"@,
{
    lemma_one_code(code, text);
    let style = after_code(plain(), code);
    assert(style.declarations() =~= seq![declaration]);
    lemma_one_declaration(style, declaration);
}

/// A code that stands for no style leaves the text as it is.
pub proof fn law_other_codes_have_no_style(code: u32, text: Seq<char>)
    requires
        !text.contains('\u{1b}'),
        4 < code < 30 || 37 < code < 40 || 47 < code < 90 || 97 < code < 100 || code > 107,
    ensures
        ansi_html("\u{1b}["@ + decimal(code as nat) + "m"@ + text + "\u{1b}[0m"@) == ansi_html(
            text,
        ),
{
    lemma_one_code(code, text);
    let style = after_code(plain(), code);
    assert(style.opening() + ansi_html(text) + style.closing() =~= ansi_html(text));
}

proof fn lemma_code_step(style: Style, code: u32, rest: Seq<u32>)
    requires
        code != 38,
        code != 48,
    ensures
        after_codes(style, seq![code] + rest) == after_codes(after_code(style, code), rest),
{
    assert((seq![code] + rest).skip(1) =~= rest);
}

proof fn lemma_codes_front(code: u32, rest: Seq<char>)
    requires
        is_parameters(rest),
    ensures
        codes_of(decimal(code as nat) + seq![';'] + rest) == seq![code] + codes_of(rest),
        is_parameters(decimal(code as nat) + seq![';'] + rest),
{
    let d = decimal(code as nat);
    let s = d + seq![';'] + rest;
    let n = d.len() as int;
    lemma_decimal_code(code);
    assert forall|k: int| 0 <= k < n implies s[k] != ';' by {
        assert(s[k] == d[k]);
        assert(d.contains(d[k]));
    }
    lemma_first_index_is(s, ';', n);
    assert(s.take(n) =~= d);
    assert(s.skip(n + 1) =~= rest);
    assert(s[0] == d[0]);
    assert forall|k: int| 0 <= k < s.len() implies !('@' <= #[trigger] s[k] <= '~') && s[k]
        != '\u{1b}' by {
        if k < n {
            assert(s[k] == d[k]);
        } else if k > n {
            assert(s[k] == rest[k - n - 1]);
        }
    }
}

/// One code switches one attribute on or off, a reset switches all of them off, and the
/// others stay as they are.
pub proof fn law_code_switches_one_attribute(style: Style, code: u32)
    ensures
        ({
            let next = after_sequence(style, decimal(code as nat));
            &&& next.bold == (code == 1 || (style.bold && code != 0 && code != 22))
            &&& next.dim == (code == 2 || (style.dim && code != 0 && code != 22))
            &&& next.italic == (code == 3 || (style.italic && code != 0 && code != 23))
            &&& next.underline == (code == 4 || (style.underline && code != 0 && code != 24))
            &&& next.fg == (if 30 <= code <= 37 || 90 <= code <= 97 {
                Some(code)
            } else if code == 0 || code == 39 {
                None
            } else {
                style.fg
            })
            &&& next.bg == (if 40 <= code <= 47 || 100 <= code <= 107 {
                Some(code)
            } else if code == 0 || code == 49 {
                None
            } else {
                style.bg
            })
        }),
{
    lemma_decimal_code(code);
    let codes = seq![code];
    assert(codes.skip(1) =~= Seq::empty());
    assert(after_codes(after_code(style, code), codes.skip(1)) == after_code(style, code));
}

/// Several codes in one sequence have the effect of the codes one after the other. A choice of
/// a colour with 38 or 48 is not meant here.
pub proof fn law_codes_apply_in_turn(style: Style, code: u32, rest: Seq<char>)
    requires
        code != 38,
        code != 48,
        rest.len() > 0,
        forall|k: int| 0 <= k < rest.len() ==> is_digit(#[trigger] rest[k]) || rest[k] == ';',
    ensures
        after_sequence(style, decimal(code as nat) + ";"@ + rest) == after_sequence(
            after_sequence(style, decimal(code as nat)),
            rest,
        ),
{
    reveal_strlit(";");
    assert(";"@ =~= seq![';']);
    assert forall|k: int| 0 <= k < rest.len() implies !('@' <= #[trigger] rest[k] <= '~')
        && rest[k] != '\u{1b}' by {
        assert(is_digit(rest[k]) || rest[k] == ';');
    }
    assert(is_digit(rest[0]) || rest[0] == ';');
    lemma_codes_front(code, rest);
    lemma_decimal_code(code);
    lemma_code_step(style, code, codes_of(rest));
    let none = Seq::<u32>::empty();
    lemma_code_step(style, code, none);
    assert(seq![code] + none =~= seq![code]);
}

proof fn lemma_all_styles(front: u32, back: u32, text: Seq<char>)
    requires
        !text.contains('\u{1b}'),
        30 <= front <= 37 || 90 <= front <= 97,
        40 <= back <= 47 || 100 <= back <= 107,
    ensures
        ansi_html(
            "\u{1b}["@ + decimal(front as nat) + ";"@ + decimal(back as nat) + ";1;2;3;4m"@ + text
                + "\u{1b}[0m"@,
        ) == "<span style=\"color:"@ + color_of(front) + ";background-color:"@ + color_of(back)
            + ";font-weight:bold;font-style:italic;text-decoration:underline;opacity:0.7\">"@
            + ansi_html(text) + "</span>"@,
{
    reveal_strlit("\u{1b}[");
    reveal_strlit(";");
    reveal_strlit(";1;2;3;4m");
    let semi = seq![';'];
    assert(decimal(1) =~= seq!['1'] && decimal(2) =~= seq!['2'] && decimal(3) =~= seq!['3']
        && decimal(4) =~= seq!['4']);
    lemma_decimal_code(4);
    let p4 = decimal(4);
    let p3 = decimal(3) + semi + p4;
    lemma_codes_front(3, p4);
    let p2 = decimal(2) + semi + p3;
    lemma_codes_front(2, p3);
    let p1 = decimal(1) + semi + p2;
    lemma_codes_front(1, p2);
    let pb = decimal(back as nat) + semi + p1;
    lemma_codes_front(back, p1);
    let params = decimal(front as nat) + semi + pb;
    lemma_codes_front(front, pb);
    let (c4, c3, c2) = (codes_of(p4), codes_of(p3), codes_of(p2));
    let (c1, cb) = (codes_of(p1), codes_of(pb));
    let none = Seq::<u32>::empty();
    let s0 = plain();
    let s1 = after_code(s0, front);
    let s2 = after_code(s1, back);
    let s3 = after_code(s2, 1);
    let s4 = after_code(s3, 2);
    let s5 = after_code(s4, 3);
    let style = after_code(s5, 4);
    lemma_code_step(s0, front, cb);
    lemma_code_step(s1, back, c1);
    lemma_code_step(s2, 1, c2);
    lemma_code_step(s3, 2, c3);
    lemma_code_step(s4, 3, c4);
    lemma_code_step(s5, 4, none);
    assert(seq![4u32] + none =~= c4);
    assert(after_sequence(plain(), params) == style);
    lemma_styled_text(params, text);
    assert("\u{1b}["@ + decimal(front as nat) + ";"@ + decimal(back as nat) + ";1;2;3;4m"@ + text
        + "\u{1b}[0m"@ =~= sgr(params) + text + "\u{1b}[0m"@);
    let (color, background) = (color_of(front), color_of(back));
    let fg = "color:"@ + color;
    let bg = "background-color:"@ + background;
    let d2 = seq![fg, bg];
    let d3 = d2.push("font-weight:bold"@);
    let d4 = d3.push("font-style:italic"@);
    let d5 = d4.push("text-decoration:underline"@);
    let d6 = d5.push("opacity:0.7"@);
    assert(style.declarations() =~= d6);
    assert(d2.drop_last() =~= seq![fg]);
    assert(d3.drop_last() =~= d2);
    assert(d4.drop_last() =~= d3);
    assert(d5.drop_last() =~= d4);
    assert(d6.drop_last() =~= d5);
    assert(joined(seq![fg], ";"@) == fg);
    assert(joined(d2, ";"@) == fg + ";"@ + bg);
    assert(joined(d3, ";"@) == joined(d2, ";"@) + ";"@ + "font-weight:bold"@);
    assert(joined(d4, ";"@) == joined(d3, ";"@) + ";"@ + "font-style:italic"@);
    assert(joined(d5, ";"@) == joined(d4, ";"@) + ";"@ + "text-decoration:underline"@);
    assert(joined(d6, ";"@) == joined(d5, ";"@) + ";"@ + "opacity:0.7"@);
    lemma_combined_tag(color, background);
    assert(style.opening() == "<span style=\""@ + joined(d6, ";"@) + "\">"@);
}

/// Text in two colours that is bold, dim, italic and underlined, up to a reset, stands in one
/// span with all of its styles.
pub proof fn law_styles_combine(
    front: u32,
    color: Seq<char>,
    back: u32,
    background: Seq<char>,
    text: Seq<char>,
)
    requires
        !text.contains('\u{1b}'),
        (front == 30 && color == "#282c34"@) || (front == 31 && color == "#e06c75"@) || (front == 32
            && color == "#98c379"@) || (front == 33 && color == "#e5c07b"@) || (front == 34 && color
            == "#61afef"@) || (front == 35 && color == "#c678dd"@) || (front == 36 && color
            == "#56b6c2"@) || (front == 37 && color == "#abb2bf"@) || (front == 90 && color
            == "#5c6370"@) || (front == 91 && color == "#e06c75"@) || (front == 92 && color
            == "#98c379"@) || (front == 93 && color == "#e5c07b"@) || (front == 94 && color
            == "#61afef"@) || (front == 95 && color == "#c678dd"@) || (front == 96 && color
            == "#56b6c2"@) || (front == 97 && color == "#ffffff"@),
        ((back == 40 || back == 100) && background == "#282c34"@) || ((back == 41 || back == 101)
            && background == "#e06c75"@) || ((back == 42 || back == 102) && background == "#98c379"@) || ((
        back == 43 || back == 103) && background == "#e5c07b"@) || ((back == 44 || back == 104) && background
            == "#61afef"@) || ((back == 45 || back == 105) && background == "#c678dd"@) || ((back == 46
            || back == 106) && background == "#56b6c2"@) || ((back == 47 || back == 107) && background
            == "#abb2bf"@),
    ensures
        ansi_html(
            "\u{1b}["@ + decimal(front as nat) + ";"@ + decimal(back as nat) + ";1;2;3;4m"@ + text
                + "\u{1b}[0m"@,
        ) == "<span style=\"color:"@ + color + ";background-color:"@ + background
            + ";font-weight:bold;font-style:italic;text-decoration:underline;opacity:0.7\">"@
            + ansi_html(text) + "</span>"@,
{
    lemma_all_styles(front, back, text);
    assert(color_of(front) == color);
    assert(color_of(back) == background);
}

proof fn lemma_combined_tag(color: Seq<char>, background: Seq<char>)
    ensures
        "<span style=\""@ + ("color:"@ + color + ";"@ + ("background-color:"@ + background) + ";"@
            + "font-weight:bold"@ + ";"@ + "font-style:italic"@ + ";"@
            + "text-decoration:underline"@ + ";"@ + "opacity:0.7"@) + "\">"@
            == "<span style=\"color:"@ + color + ";background-color:"@ + background
            + ";font-weight:bold;font-style:italic;text-decoration:underline;opacity:0.7\">"@,
{
    reveal_strlit("<span style=\"");
    reveal_strlit("color:");
    reveal_strlit(";");
    reveal_strlit("background-color:");
    reveal_strlit("font-weight:bold");
    reveal_strlit("font-style:italic");
    reveal_strlit("text-decoration:underline");
    reveal_strlit("opacity:0.7");
    reveal_strlit("\">");
    reveal_strlit("<span style=\"color:");
    reveal_strlit(";background-color:");
    reveal_strlit(
        ";font-weight:bold;font-style:italic;text-decoration:underline;opacity:0.7\">",
    );
    let start = "<span style=\""@ + "color:"@;
    assert(start =~= "<span style=\"color:"@);
    let middle = ";"@ + "background-color:"@;
    assert(middle =~= ";background-color:"@);
    let end = ";"@ + "font-weight:bold"@ + ";"@ + "font-style:italic"@ + ";"@
        + "text-decoration:underline"@ + ";"@ + "opacity:0.7"@ + "\">"@;
    assert(end
        =~= ";font-weight:bold;font-style:italic;text-decoration:underline;opacity:0.7\">"@);
    assert("<span style=\""@ + ("color:"@ + color + ";"@ + ("background-color:"@ + background)
        + ";"@ + "font-weight:bold"@ + ";"@ + "font-style:italic"@ + ";"@
        + "text-decoration:underline"@ + ";"@ + "opacity:0.7"@) + "\">"@ =~= start + color
        + middle + background + end);
}

/// What one code switches on another switches off: 22 bold and dim, 23 italic, 24 underlined,
/// 39 the colour and 49 the background. The text behind it is rendered as if it stood alone.
pub proof fn law_styles_are_switched_off(on: u32, off: u32, text: Seq<char>)
    requires
        !text.contains('\u{1b}'),
        ((on == 1 || on == 2) && off == 22) || (on == 3 && off == 23) || (on == 4 && off == 24)
            || ((30 <= on <= 37 || 90 <= on <= 97) && off == 39) || ((40 <= on <= 47 || 100 <= on
            <= 107) && off == 49),
    ensures
        ansi_html(
            "\u{1b}["@ + decimal(on as nat) + "m"@ + "\u{1b}["@ + decimal(off as nat) + "m"@
                + text,
        ) == ansi_html("\u{1b}["@ + decimal(on as nat) + "m"@) + ansi_html(text),
{
    reveal_strlit("\u{1b}[");
    reveal_strlit("m");
    let (a, b) = (decimal(on as nat), decimal(off as nat));
    lemma_decimal_code(on);
    lemma_decimal_code(off);
    lemma_sgr_token(a, sgr(b) + text);
    lemma_sgr_token(b, text);
    assert("\u{1b}["@ + a + "m"@ + "\u{1b}["@ + b + "m"@ + text =~= sgr(a) + (sgr(b) + text));
    assert("\u{1b}["@ + a + "m"@ =~= sgr(a));
    law_code_switches_one_attribute(plain(), on);
    let style = after_sequence(plain(), a);
    law_code_switches_one_attribute(style, off);
    let first = seq![Token::Sgr(a)];
    let pre = first.push(Token::Sgr(b));
    assert(first.drop_last() =~= Seq::empty());
    assert(pre.drop_last() =~= first);
    assert(style_after(first.drop_last()) == plain());
    assert(style_after(first) == style);
    assert(style_after(pre) == plain());
    assert(tokens_html(first.drop_last()) =~= Seq::empty());
    assert(tokens_html(first) =~= style.opening());
    assert(tokens_html(pre) =~= style.opening() + style.closing());
    lemma_html_append(pre, tokens(text));
    assert(first + (seq![Token::Sgr(b)] + tokens(text)) =~= pre + tokens(text));
    assert(ansi_html(sgr(a)) == style.opening() + style.closing());
    lemma_tokens_without_escapes(text);
    lemma_char_tokens(text);
    assert(ansi_html(sgr(a) + (sgr(b) + text)) =~= ansi_html(sgr(a)) + ansi_html(text));
}

proof fn lemma_shown_concat(a: Seq<char>, b: Seq<char>)
    ensures
        shown(a + b) == shown(a) + shown(b),
    decreases b.len(),
{
    if b.len() == 0 {
        assert(a + b =~= a);
        assert(shown(a) + shown(b) =~= shown(a));
    } else {
        lemma_shown_concat(a, b.drop_last());
        assert((a + b).drop_last() =~= a + b.drop_last());
        assert(shown(a + b) =~= shown(a) + shown(b));
    }
}

/// In output without escape sequences every character is shown as it is, but for angle
/// brackets, ampersands and quotation marks, which are replaced by their entities.
pub proof fn law_characters_are_shown(a: Seq<char>, c: char, b: Seq<char>)
    requires
        !(a + seq![c] + b).contains('\u{1b}'),
    ensures
        ansi_html(a + seq![c] + b) == ansi_html(a) + (if c == '<' {
            "&lt;"@
        } else if c == '>' {
            "&gt;"@
        } else if c == '&' {
            "&amp;"@
        } else if c == '"' {
            "&quot;"@
        } else {
            seq![c]
        }) + ansi_html(b),
{
    let all = a + seq![c] + b;
    lemma_char_range(c);
    assert(!a.contains('\u{1b}')) by {
        if a.contains('\u{1b}') {
            let k = choose|k: int| 0 <= k < a.len() && a[k] == '\u{1b}';
            assert(all[k] == '\u{1b}');
        }
    }
    assert(!b.contains('\u{1b}')) by {
        if b.contains('\u{1b}') {
            let k = choose|k: int| 0 <= k < b.len() && b[k] == '\u{1b}';
            assert(all[a.len() + 1 + k] == '\u{1b}');
        }
    }
    law_ansi_html_without_escapes(a);
    law_ansi_html_without_escapes(b);
    law_ansi_html_without_escapes(all);
    lemma_shown_concat(a + seq![c], b);
    lemma_shown_concat(a, seq![c]);
    assert(seq![c].drop_last() =~= Seq::empty());
    assert(shown(seq![c].drop_last()) =~= Seq::empty());
    assert(shown(seq![c]) =~= shown_char(c));
}

/// A choice of a colour outside the standard ones leaves the text as it is.
pub proof fn law_palette_colors_have_no_style(layer: u32, index: u32, text: Seq<char>)
    requires
        !text.contains('\u{1b}'),
        layer == 38 || layer == 48,
    ensures
        ansi_html(
            "\u{1b}["@ + decimal(layer as nat) + ";5;"@ + decimal(index as nat) + "m"@ + text
                + "\u{1b}[0m"@,
        ) == ansi_html(text),
{
    reveal_strlit("\u{1b}[");
    reveal_strlit(";5;");
    reveal_strlit("m");
    let semi = seq![';'];
    assert(decimal(5) =~= seq!['5']);
    let last = decimal(index as nat);
    let rest = decimal(5) + semi + last;
    let params = decimal(layer as nat) + semi + rest;
    lemma_decimal_code(index);
    lemma_codes_front(5, last);
    lemma_codes_front(layer, rest);
    let codes = codes_of(params);
    assert(codes =~= seq![layer, 5u32, index]);
    assert(after_sequence(plain(), params) == plain());
    lemma_styled_text(params, text);
    assert("\u{1b}["@ + decimal(layer as nat) + ";5;"@ + decimal(index as nat) + "m"@ + text
        + "\u{1b}[0m"@ =~= sgr(params) + text + "\u{1b}[0m"@);
    let style = plain();
    assert(style.opening() + ansi_html(text) + style.closing() =~= ansi_html(text));
}

proof fn lemma_string_end_is(s: Seq<char>, i: int, end: int)
    requires
        0 <= i <= end < s.len(),
        s[end] == '\u{7}',
        forall|k: int| i <= k < end ==> #[trigger] s[k] != '\u{7}' && s[k] != '\u{1b}',
    ensures
        string_end(s, i) == end + 1,
    decreases end - i,
{
    if i < end {
        lemma_string_end_is(s, i + 1, end);
    }
}

/// The title that output gives a window is stripped, and the text behind it is kept.
pub proof fn law_window_titles_are_stripped(title: Seq<char>, text: Seq<char>)
    requires
        !title.contains('\u{7}'),
        !title.contains('\u{1b}'),
    ensures
        ansi_html("\u{1b}]"@ + title + "\u{7}"@ + text) == ansi_html(text),
{
    reveal_strlit("\u{1b}]");
    reveal_strlit("\u{7}");
    let sequence = "\u{1b}]"@ + title + "\u{7}"@;
    let s = sequence + text;
    let end = title.len() as int + 2;
    assert forall|k: int| 2 <= k < end implies #[trigger] s[k] != '\u{7}' && s[k] != '\u{1b}' by {
        assert(s[k] == title[k - 2]);
        assert(title.contains(title[k - 2]));
    }
    lemma_string_end_is(s, 2, end);
    law_other_sequences_are_stripped(sequence, text);
}

proof fn lemma_plain_shown(text: Seq<char>)
    requires
        forall|i: int|
            0 <= i < text.len() ==> #[trigger] text[i] != '<' && text[i] != '>' && text[i] != '&'
                && text[i] != '"',
    ensures
        shown(text) == text,
    decreases text.len(),
{
    if text.len() > 0 {
        assert(text[text.len() - 1] != '<');
        lemma_char_range(text.last());
        lemma_plain_shown(text.drop_last());
        assert(shown(text) =~= text);
    } else {
        assert(shown(text) =~= text);
    }
}

/// Output without escape sequences and without characters that have entities is shown as it is.
pub proof fn law_plain_output_is_shown_as_it_is(text: Seq<char>)
    requires
        forall|i: int|
            0 <= i < text.len() ==> #[trigger] text[i] != '<' && text[i] != '>' && text[i] != '&'
                && text[i] != '"' && text[i] != '\u{1b}',
    ensures
        ansi_html(text) == text,
{
    assert(!text.contains('\u{1b}'));
    law_ansi_html_without_escapes(text);
    lemma_plain_shown(text);
}

} // verus!
