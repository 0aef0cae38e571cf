//! File paths: percent-decoding, file URIs and languages by file name.
use crate::text::{
    char_end, chars_of, concatenated, has_prefix, last_index, lemma_ascii_byte,
    lemma_last_index_is, same_text,
};
use vstd::prelude::*;
use vstd::utf8::{
    decode_utf8, encode_utf8, encode_utf8_decode_utf8, encode_utf8_valid_utf8, is_ascii_chars,
    is_ascii_chars_encode_utf8, valid_utf8,
};

verus! {

/// The value of a hexadecimal digit.
pub open spec fn hex_value(b: u8) -> Option<u8> {
    if 0x30 <= b <= 0x39 {
        Some((b - 0x30) as u8)
    } else if 0x41 <= b <= 0x46 {
        Some((b - 0x41 + 10) as u8)
    } else if 0x61 <= b <= 0x66 {
        Some((b - 0x61 + 10) as u8)
    } else {
        None
    }
}

/// The value of a two-place hexadecimal number. A plus sign may stand in the first place.
pub open spec fn hex_pair(a: u8, b: u8) -> Option<u8> {
    if a == 0x2b {
        hex_value(b)
    } else {
        match (hex_value(a), hex_value(b)) {
            (Some(x), Some(y)) => Some((x * 16 + y) as u8),
            _ => None,
        }
    }
}

/// Whether a percent sign and a hexadecimal number stand at the front.
pub open spec fn begins_encoded(bytes: Seq<u8>) -> bool {
    bytes.len() > 2 && bytes[0] == 0x25 && hex_pair(bytes[1], bytes[2]) is Some
}

/// The bytes with each percent sign and number replaced by the byte it stands for.
pub open spec fn decoded_bytes(bytes: Seq<u8>) -> Seq<u8>
    decreases bytes.len(),
{
    if bytes.len() == 0 {
        Seq::empty()
    } else if begins_encoded(bytes) {
        seq![hex_pair(bytes[1], bytes[2])->0] + decoded_bytes(bytes.skip(3))
    } else {
        seq![bytes[0]] + decoded_bytes(bytes.skip(1))
    }
}

/// The text that a percent-encoded text stands for. One that does not decode to
/// valid UTF-8 stands for itself.
pub open spec fn percent_decoded(s: Seq<char>) -> Seq<char> {
    let bytes = decoded_bytes(encode_utf8(s));
    if valid_utf8(bytes) {
        decode_utf8(bytes)
    } else {
        s
    }
}

/// The value of a hexadecimal digit.
fn hex_digit(b: u8) -> (r: Option<u8>)
    ensures
        r == hex_value(b),
        r matches Some(v) ==> v < 16,
{
    if 0x30 <= b && b <= 0x39 {
        Some(b - 0x30)
    } else if 0x41 <= b && b <= 0x46 {
        Some(b - 0x41 + 10)
    } else if 0x61 <= b && b <= 0x66 {
        Some(b - 0x61 + 10)
    } else {
        None
    }
}

/// The value of a two-place hexadecimal number.
fn parse_hex_pair(a: u8, b: u8) -> (r: Option<u8>)
    ensures
        r == hex_pair(a, b),
{
    if a == 0x2b {
        return hex_digit(b);
    }
    match (hex_digit(a), hex_digit(b)) {
        (Some(x), Some(y)) => Some(x * 16 + y),
        _ => None,
    }
}

/// `String::from_utf8` gives the text that the bytes are the UTF-8 of, and an
/// error exactly if they are not valid UTF-8.
#[verifier::external_body]
fn utf8_text(bytes: Vec<u8>) -> (r: Option<String>)
    ensures
        r is Some <==> valid_utf8(bytes@),
        r matches Some(text) ==> text@ == decode_utf8(bytes@),
{
    String::from_utf8(bytes).ok()
}

/// Decodes percent-encoded strings, such as `%3A` for a colon. UTF-8 sequences
/// may span several percent-encoded bytes.
pub fn percent_decode(input: &str) -> (r: String)
    ensures
        r@ == percent_decoded(input@),
{
    let bytes = input.as_bytes();
    let ghost all = bytes@;
    let mut decoded: Vec<u8> = Vec::new();
    let mut i: usize = 0;
    assert(all.skip(0) =~= all);
    assert(decoded@ + decoded_bytes(all) =~= decoded_bytes(all));
    while i < bytes.len()
        invariant
            bytes@ == all,
            i <= bytes.len(),
            decoded@ + decoded_bytes(all.skip(i as int)) == decoded_bytes(all),
        decreases bytes.len() - i,
    {
        let ghost rest = all.skip(i as int);
        let ghost before = decoded@;
        if bytes[i] == 0x25 && bytes.len() - i > 2 {
            if let Some(byte) = parse_hex_pair(bytes[i + 1], bytes[i + 2]) {
                decoded.push(byte);
                assert(rest.skip(3) =~= all.skip(i + 3));
                assert(decoded@ + decoded_bytes(all.skip(i + 3)) =~= before + (seq![byte]
                    + decoded_bytes(all.skip(i + 3))));
                i = i + 3;
                continue ;
            }
        }
        let byte: u8 = bytes[i];
        decoded.push(byte);
        assert(rest.skip(1) =~= all.skip(i + 1));
        assert(decoded@ + decoded_bytes(all.skip(i + 1)) =~= before + (seq![byte] + decoded_bytes(
            all.skip(i + 1),
        )));
        i = i + 1;
    }
    assert(decoded@ =~= decoded_bytes(all)) by {
        assert(all.skip(i as int).len() == 0);
    }
    match utf8_text(decoded) {
        Some(text) => text,
        None => input.to_string(),
    }
}

/// A path for display: percent-decoded, and without the `file:///` of a URI. A
/// URI's path keeps a leading slash unless it begins with a drive letter.
pub open spec fn display_path(s: Seq<char>) -> Seq<char> {
    if "file:///"@.is_prefix_of(s) {
        let decoded = percent_decoded(s.skip("file:///"@.len() as int));
        if (decoded.len() > 0 && decoded[0] == '/') || (decoded.len() > 1 && decoded[1] == ':') {
            decoded
        } else {
            "/"@ + decoded
        }
    } else {
        percent_decoded(s)
    }
}

/// Decodes a value for display: strips the `file:///` of a URI and decodes
/// percent-encoded bytes.
pub fn decode_path(input: &str) -> (r: String)
    ensures
        r@ == display_path(input@),
{
    if has_prefix(input, "file:///") {
        proof {
            reveal_strlit("file:///");
        }
        let end: usize = input.unicode_len();
        let decoded = percent_decode(input.substring_char(8, end));
        let v = chars_of(decoded.as_str());
        assert(input@.subrange(8, end as int) =~= input@.skip(8));
        if (v.len() > 0 && v[0] == '/') || (v.len() > 1 && v[1] == ':') {
            decoded
        } else {
            let mut r = "/".to_string();
            r.push_str(decoded.as_str());
            r
        }
    } else {
        percent_decode(input)
    }
}

/// The names of arguments that hold a file or directory path.
pub open spec fn names_path(key: Seq<char>) -> bool {
    key == "file_path"@ || key == "filepath"@ || key == "path"@ || key == "file"@ || key
        == "directory"@ || key == "dir"@ || key == "notebook_path"@ || key == "cwd"@
}

/// Whether an argument of this name holds a path, so that its value is decoded for display.
pub fn is_path_key(key: &str) -> (r: bool)
    ensures
        r == names_path(key@),
{
    same_text(key, "file_path") || same_text(key, "filepath") || same_text(key, "path")
        || same_text(key, "file") || same_text(key, "directory") || same_text(key, "dir")
        || same_text(key, "notebook_path") || same_text(key, "cwd")
}

/// The index behind the last slash or backslash of a path.
pub open spec fn base_start(path: Seq<char>) -> int {
    if last_index(path, '/') >= last_index(path, '\\') {
        last_index(path, '/') + 1
    } else {
        last_index(path, '\\') + 1
    }
}

/// The language token for a file: its extension, or the name of a well-known file without one.
pub open spec fn file_language(path: Seq<char>) -> Seq<char> {
    let name = path.skip(base_start(path));
    if name == "Dockerfile"@ || name == "dockerfile"@ {
        "Dockerfile"@
    } else if name == "Makefile"@ || name == "makefile"@ || name == "GNUmakefile"@ {
        "makefile"@
    } else if last_index(name, '.') >= 0 {
        name.skip(last_index(name, '.') + 1)
    } else {
        ""@
    }
}

/// Extracts a language token from a file name or path for syntax highlighting.
pub fn lang_from_filename<'a>(name: &'a str) -> (r: &'a str)
    ensures
        r@ == file_language(name@),
{
    let v = chars_of(name);
    let slash: usize = char_end(&v, '/');
    let backslash: usize = char_end(&v, '\\');
    let start: usize = if slash >= backslash {
        slash
    } else {
        backslash
    };
    let n: usize = v.len();
    let base = name.substring_char(start, n);
    assert(base@ =~= name@.skip(start as int));
    if same_text(base, "Dockerfile") || same_text(base, "dockerfile") {
        return "Dockerfile";
    }
    if same_text(base, "Makefile") || same_text(base, "makefile") || same_text(
        base,
        "GNUmakefile",
    ) {
        return "makefile";
    }
    let w = chars_of(base);
    let dot: usize = char_end(&w, '.');
    if dot > 0 {
        let m: usize = w.len();
        assert(base@.subrange(dot as int, m as int) =~= base@.skip(dot as int));
        base.substring_char(dot, m)
    } else {
        ""
    }
}

proof fn lemma_decoded_without_percent(bytes: Seq<u8>, rest: Seq<u8>)
    requires
        !bytes.contains(0x25),
    ensures
        decoded_bytes(bytes + rest) == bytes + decoded_bytes(rest),
    decreases bytes.len(),
{
    let all = bytes + rest;
    if bytes.len() > 0 {
        assert(bytes[0] != 0x25);
        assert(all[0] == bytes[0]);
        assert(!bytes.skip(1).contains(0x25)) by {
            if bytes.skip(1).contains(0x25) {
                let k = choose|k: int| 0 <= k < bytes.skip(1).len() && bytes.skip(1)[k] == 0x25;
                assert(bytes[k + 1] == 0x25);
            }
        }
        lemma_decoded_without_percent(bytes.skip(1), rest);
        assert(all.skip(1) =~= bytes.skip(1) + rest);
        assert(seq![bytes[0]] + (bytes.skip(1) + decoded_bytes(rest)) =~= bytes + decoded_bytes(
            rest,
        ));
    } else {
        assert(all =~= rest);
        assert(bytes + decoded_bytes(rest) =~= decoded_bytes(rest));
    }
}

/// Text without a percent sign is decoded to itself.
pub proof fn law_decode_keeps_plain_text(s: Seq<char>)
    requires
        !s.contains('%'),
    ensures
        percent_decoded(s) == s,
{
    if encode_utf8(s).contains(0x25) {
        lemma_ascii_byte(s, 0x25);
    }
    let none = Seq::<u8>::empty();
    lemma_decoded_without_percent(encode_utf8(s), none);
    assert(encode_utf8(s) + none =~= encode_utf8(s));
    assert(decoded_bytes(none) =~= none);
    encode_utf8_valid_utf8(s);
    encode_utf8_decode_utf8(s);
}

/// The value of a hexadecimal digit, in upper or in lower case.
pub open spec fn hex_char_value(c: char) -> Option<u8> {
    if c <= '\u{7f}' {
        hex_value(c as u8)
    } else {
        None
    }
}

/// Whether a text is a list of bytes, each of them a percent sign and two hexadecimal digits.
pub open spec fn spells(text: Seq<char>, bytes: Seq<u8>) -> bool
    decreases bytes.len(),
{
    if bytes.len() == 0 {
        text.len() == 0
    } else {
        text.len() > 2 && text[0] == '%' && hex_char_value(text[1]) == Some((bytes[0] / 16) as u8)
            && hex_char_value(text[2]) == Some((bytes[0] % 16) as u8) && spells(
            text.skip(3),
            bytes.skip(1),
        )
    }
}

/// Whether a text stands for a character: it is the character itself, unless that is a
/// percent sign, or its bytes in UTF-8, percent-encoded.
pub open spec fn encodes(text: Seq<char>, c: char) -> bool {
    (text == seq![c] && c != '%') || spells(text, encode_utf8(seq![c]))
}

proof fn lemma_encode_concat(a: Seq<char>, b: Seq<char>)
    ensures
        encode_utf8(a + b) == encode_utf8(a) + encode_utf8(b),
    decreases a.len(),
{
    if a.len() == 0 {
        assert(a + b =~= b);
        assert(encode_utf8(a) + encode_utf8(b) =~= encode_utf8(b));
    } else {
        assert((a + b).drop_first() =~= a.drop_first() + b);
        assert((a + b)[0] == a[0]);
        lemma_encode_concat(a.drop_first(), b);
        assert(encode_utf8(a + b) =~= encode_utf8(a) + encode_utf8(b));
    }
}

proof fn lemma_spelled(text: Seq<char>, bytes: Seq<u8>, rest: Seq<u8>)
    requires
        spells(text, bytes),
    ensures
        decoded_bytes(encode_utf8(text) + rest) == bytes + decoded_bytes(rest),
    decreases bytes.len(),
{
    if bytes.len() == 0 {
        assert(text =~= Seq::empty());
        assert(encode_utf8(text) + rest =~= rest);
        assert(bytes + decoded_bytes(rest) =~= decoded_bytes(rest));
    } else {
        let code = seq![text[0], text[1], text[2]];
        let tail = text.skip(3);
        assert(text =~= code + tail);
        lemma_encode_concat(code, tail);
        lemma_code_bytes(text[1], text[2]);
        lemma_spelled(tail, bytes.skip(1), rest);
        let all = encode_utf8(text) + rest;
        assert(all.skip(3) =~= encode_utf8(tail) + rest);
        assert(all[0] == 0x25 && all[1] == text[1] as u8 && all[2] == text[2] as u8);
        assert(bytes[0] == (bytes[0] / 16) * 16 + bytes[0] % 16);
        assert(hex_pair(all[1], all[2]) == Some(bytes[0]));
        assert(seq![bytes[0]] + (bytes.skip(1) + decoded_bytes(rest)) =~= bytes + decoded_bytes(
            rest,
        ));
    }
}

proof fn lemma_code_bytes(a: char, b: char)
    requires
        a <= '\u{7f}',
        b <= '\u{7f}',
    ensures
        encode_utf8(seq!['%', a, b]) == seq![0x25u8, a as u8, b as u8],
{
    let code = seq!['%', a, b];
    assert(is_ascii_chars(code));
    is_ascii_chars_encode_utf8(code);
    assert(code[0] == '%' && code[1] == a && code[2] == b);
    assert(encode_utf8(code) =~= seq![0x25u8, a as u8, b as u8]);
}

proof fn lemma_decoded_pieces(text: Seq<char>, pieces: Seq<Seq<char>>)
    requires
        pieces.len() == text.len(),
        forall|i: int| 0 <= i < text.len() ==> encodes(#[trigger] pieces[i], text[i]),
    ensures
        decoded_bytes(encode_utf8(concatenated(pieces))) == encode_utf8(text),
    decreases text.len(),
{
    if text.len() > 0 {
        let c = text[0];
        let piece = pieces[0];
        let rest = encode_utf8(concatenated(pieces.skip(1)));
        assert forall|i: int| 0 <= i < text.skip(1).len() implies encodes(
            #[trigger] pieces.skip(1)[i],
            text.skip(1)[i],
        ) by {
            assert(pieces.skip(1)[i] == pieces[i + 1]);
        }
        lemma_decoded_pieces(text.skip(1), pieces.skip(1));
        lemma_encode_concat(piece, concatenated(pieces.skip(1)));
        if piece == seq![c] && c != '%' {
            if encode_utf8(piece).contains(0x25) {
                lemma_ascii_byte(piece, 0x25);
                assert(piece[0] == c);
            }
            lemma_decoded_without_percent(encode_utf8(piece), rest);
        } else {
            lemma_spelled(piece, encode_utf8(seq![c]), rest);
        }
        lemma_encode_concat(seq![c], text.skip(1));
        assert(seq![c] + text.skip(1) =~= text);
    }
}

/// Decoding undoes percent-encoding. Any characters but percent signs may be left as they are;
/// the others are encoded byte by byte, with digits in upper or in lower case.
pub proof fn law_decode_inverts_encoding(text: Seq<char>, pieces: Seq<Seq<char>>)
    requires
        pieces.len() == text.len(),
        forall|i: int| 0 <= i < text.len() ==> encodes(#[trigger] pieces[i], text[i]),
    ensures
        percent_decoded(concatenated(pieces)) == text,
{
    lemma_decoded_pieces(text, pieces);
    encode_utf8_valid_utf8(text);
    encode_utf8_decode_utf8(text);
}

/// The path of a file URI is displayed as an absolute one: with a leading slash,
/// or with a colon behind its first character.
pub proof fn law_file_uri_is_absolute(s: Seq<char>)
    requires
        "file:///"@.is_prefix_of(s),
    ensures
        ({
            let path = display_path(s);
            (path.len() > 0 && path[0] == '/') || (path.len() > 1 && path[1] == ':')
        }),
{
    reveal_strlit("/");
}

/// A path without percent signs is displayed as it is. The path of a file URI stands behind
/// `file:///`: it gets a leading slash, unless it has one or begins with the letter of a
/// drive.
pub proof fn law_plain_paths_are_displayed(path: Seq<char>)
    requires
        !path.contains('%'),
    ensures
        !"file:///"@.is_prefix_of(path) ==> display_path(path) == path,
        display_path("file:///"@ + path) == (if (path.len() > 0 && path[0] == '/') || (path.len()
            > 1 && path[1] == ':') {
            path
        } else {
            "/"@ + path
        }),
{
    law_decode_keeps_plain_text(path);
    let uri = "file:///"@ + path;
    assert("file:///"@.is_prefix_of(uri)) by {
        assert("file:///"@ =~= uri.take("file:///"@.len() as int));
    }
    assert(uri.skip("file:///"@.len() as int) =~= path);
}

/// The language of a file is its extension: what stands behind the last point of its name. The
/// directories before it do not matter, whether slashes or backslashes stand between them.
pub proof fn law_language_is_the_extension(
    directory: Seq<char>,
    separator: char,
    stem: Seq<char>,
    extension: Seq<char>,
)
    requires
        separator == '/' || separator == '\\',
        !stem.contains('/') && !stem.contains('\\'),
        !extension.contains('/') && !extension.contains('\\') && !extension.contains('.'),
    ensures
        file_language(directory + seq![separator] + (stem + seq!['.'] + extension)) == extension,
        file_language(stem + seq!['.'] + extension) == extension,
{
    let name = stem + seq!['.'] + extension;
    assert forall|k: int| 0 <= k < name.len() implies name[k] != '/' && name[k] != '\\' by {
        if k < stem.len() {
            assert(stem.contains(stem[k]));
        } else if k > stem.len() {
            assert(name[k] == extension[k - stem.len() - 1]);
            assert(extension.contains(extension[k - stem.len() - 1]));
        }
    }
    lemma_base_name(directory, separator, name);
    let dot = stem.len() as int;
    assert forall|k: int| dot < k < name.len() implies name[k] != '.' by {
        assert(name[k] == extension[k - dot - 1]);
        assert(extension.contains(extension[k - dot - 1]));
    }
    lemma_last_index_is(name, '.', dot);
    assert(name.skip(dot + 1) =~= extension);
    lemma_special_names();
    assert(name[dot] == '.');
    assert(name.contains('.'));
}

/// Docker files and make files have the languages of that name.
pub proof fn law_special_files_have_their_language(directory: Seq<char>, separator: char)
    requires
        separator == '/' || separator == '\\',
    ensures
        file_language(directory + seq![separator] + "Dockerfile"@) == "Dockerfile"@,
        file_language(directory + seq![separator] + "dockerfile"@) == "Dockerfile"@,
        file_language(directory + seq![separator] + "Makefile"@) == "makefile"@,
        file_language(directory + seq![separator] + "makefile"@) == "makefile"@,
        file_language(directory + seq![separator] + "GNUmakefile"@) == "makefile"@,
{
    lemma_special_names();
    lemma_base_name(directory, separator, "Dockerfile"@);
    lemma_base_name(directory, separator, "dockerfile"@);
    lemma_base_name(directory, separator, "Makefile"@);
    lemma_base_name(directory, separator, "makefile"@);
    lemma_base_name(directory, separator, "GNUmakefile"@);
}

proof fn lemma_special_names()
    ensures
        forall|k: int|
            0 <= k < "Dockerfile"@.len() ==> #[trigger] "Dockerfile"@[k] != '/' && "Dockerfile"@[k]
                != '\\' && "Dockerfile"@[k] != '.',
        forall|k: int|
            0 <= k < "dockerfile"@.len() ==> #[trigger] "dockerfile"@[k] != '/' && "dockerfile"@[k]
                != '\\' && "dockerfile"@[k] != '.',
        forall|k: int|
            0 <= k < "Makefile"@.len() ==> #[trigger] "Makefile"@[k] != '/' && "Makefile"@[k]
                != '\\' && "Makefile"@[k] != '.',
        forall|k: int|
            0 <= k < "makefile"@.len() ==> #[trigger] "makefile"@[k] != '/' && "makefile"@[k]
                != '\\' && "makefile"@[k] != '.',
        forall|k: int|
            0 <= k < "GNUmakefile"@.len() ==> #[trigger] "GNUmakefile"@[k] != '/'
                && "GNUmakefile"@[k] != '\\' && "GNUmakefile"@[k] != '.',
        "Makefile"@ != "Dockerfile"@ && "Makefile"@ != "dockerfile"@,
        "makefile"@ != "Dockerfile"@ && "makefile"@ != "dockerfile"@,
        "GNUmakefile"@ != "Dockerfile"@ && "GNUmakefile"@ != "dockerfile"@,
{
    reveal_strlit("Dockerfile");
    reveal_strlit("dockerfile");
    reveal_strlit("Makefile");
    reveal_strlit("makefile");
    reveal_strlit("GNUmakefile");
    assert("Dockerfile"@.len() == 10 && "dockerfile"@.len() == 10 && "Makefile"@.len() == 8
        && "makefile"@.len() == 8 && "GNUmakefile"@.len() == 11);
}

proof fn lemma_base_name(directory: Seq<char>, separator: char, name: Seq<char>)
    requires
        separator == '/' || separator == '\\',
        forall|k: int| 0 <= k < name.len() ==> #[trigger] name[k] != '/' && name[k] != '\\',
    ensures
        ({
            let path = directory + seq![separator] + name;
            path.skip(base_start(path)) == name
        }),
        name.skip(base_start(name)) == name,
{
    let path = directory + seq![separator] + name;
    let other = if separator == '/' {
        '\\'
    } else {
        '/'
    };
    let n = directory.len() as int;
    assert forall|k: int| n < k < path.len() implies path[k] != '/' && path[k] != '\\' by {
        assert(path[k] == name[k - n - 1]);
    }
    assert(path[n] == separator);
    lemma_last_index_is(path, separator, n);
    lemma_last_index_at_most(path, other, n - 1);
    assert(path.skip(n + 1) =~= name);
    lemma_last_index_is(name, '/', -1);
    lemma_last_index_is(name, '\\', -1);
    assert(name.skip(0) =~= name);
}

proof fn lemma_last_index_at_most(s: Seq<char>, c: char, i: int)
    requires
        -1 <= i < s.len(),
        forall|k: int| i < k < s.len() ==> s[k] != c,
    ensures
        last_index(s, c) <= i,
    decreases s.len(),
{
    if s.len() > 0 && i < s.len() - 1 {
        assert(s[s.len() - 1] != c);
        assert forall|k: int| i < k < s.drop_last().len() implies s.drop_last()[k] != c by {
            assert(s[k] != c);
        }
        lemma_last_index_at_most(s.drop_last(), c, i);
    } else if s.len() > 0 && s.last() != c {
        lemma_last_index_bound(s.drop_last(), c);
    }
}

proof fn lemma_last_index_bound(s: Seq<char>, c: char)
    ensures
        -1 <= last_index(s, c) < s.len(),
    decreases s.len(),
{
    if s.len() > 0 && s.last() != c {
        lemma_last_index_bound(s.drop_last(), c);
    }
}

/// Whether a character is the hexadecimal digit of that value.
pub open spec fn is_hex_digit(c: char, value: int) -> bool {
    ||| '0' <= c <= '9' && value == c as int - '0' as int
    ||| 'A' <= c <= 'F' && value == c as int - 'A' as int + 10
    ||| 'a' <= c <= 'f' && value == c as int - 'a' as int + 10
}

/// A percent sign and two hexadecimal digits stand for the character of that number, where it is an
/// ASCII character, between texts without percent signs.
pub proof fn law_percent_codes_are_hexadecimal(
    before: Seq<char>,
    first: char,
    high: int,
    second: char,
    low: int,
    after: Seq<char>,
)
    requires
        !before.contains('%'),
        !after.contains('%'),
        is_hex_digit(first, high),
        is_hex_digit(second, low),
        high * 16 + low < 128,
    ensures
        percent_decoded(before + seq!['%', first, second] + after) == before + seq![
            (high * 16 + low) as char,
        ] + after,
{
    let c = (high * 16 + low) as char;
    let byte = (high * 16 + low) as u8;
    let code = seq!['%', first, second];
    let bytes = seq![byte];
    assert(is_ascii_chars(seq![c]));
    is_ascii_chars_encode_utf8(seq![c]);
    assert(seq![c][0] == c);
    assert(encode_utf8(seq![c]) =~= bytes);
    assert(hex_char_value(first) == Some(high as u8) && hex_char_value(second) == Some(
        low as u8,
    ));
    assert(byte / 16 == high && byte % 16 == low);
    assert(code.skip(3).len() == 0 && bytes.skip(1).len() == 0);
    assert(spells(code.skip(3), bytes.skip(1)));
    assert(spells(code, bytes));
    lemma_spelled(code, bytes, encode_utf8(after));
    lemma_encode_concat(before + code, after);
    lemma_encode_concat(before, code);
    lemma_encode_concat(before + seq![c], after);
    lemma_encode_concat(before, seq![c]);
    if encode_utf8(before).contains(0x25) {
        lemma_ascii_byte(before, 0x25);
    }
    if encode_utf8(after).contains(0x25) {
        lemma_ascii_byte(after, 0x25);
    }
    let none = Seq::<u8>::empty();
    lemma_decoded_without_percent(encode_utf8(after), none);
    assert(encode_utf8(after) + none =~= encode_utf8(after));
    assert(decoded_bytes(none) =~= none);
    lemma_decoded_without_percent(encode_utf8(before), encode_utf8(code) + encode_utf8(after));
    let text = before + seq![c] + after;
    assert(encode_utf8(before + code + after) =~= encode_utf8(before) + (encode_utf8(code)
        + encode_utf8(after)));
    assert(decoded_bytes(encode_utf8(before + code + after)) =~= encode_utf8(text));
    encode_utf8_valid_utf8(text);
    encode_utf8_decode_utf8(text);
}

/// Whether a character is a hexadecimal digit.
pub open spec fn is_any_hex_digit(c: char) -> bool {
    '0' <= c <= '9' || 'A' <= c <= 'F' || 'a' <= c <= 'f'
}

proof fn lemma_other_percent_signs(bytes: Seq<u8>)
    requires
        forall|i: int|
            0 <= i < bytes.len() - 2 && #[trigger] bytes[i] == 0x25 ==> hex_pair(
                bytes[i + 1],
                bytes[i + 2],
            ) is None,
    ensures
        decoded_bytes(bytes) == bytes,
    decreases bytes.len(),
{
    if bytes.len() > 0 {
        let rest = bytes.skip(1);
        assert(bytes[0] == 0x25 && bytes.len() > 2 ==> hex_pair(bytes[1], bytes[2]) is None);
        assert forall|i: int|
            0 <= i < rest.len() - 2 && #[trigger] rest[i] == 0x25 implies hex_pair(
            rest[i + 1],
            rest[i + 2],
        ) is None by {
            assert(bytes[i + 1] == 0x25);
        }
        lemma_other_percent_signs(rest);
        assert(seq![bytes[0]] + rest =~= bytes);
    } else {
        assert(decoded_bytes(bytes) =~= bytes);
    }
}

/// A percent sign without two hexadecimal digits behind it stays as it is. A plus sign in the place
/// of the first digit is not meant here, and the text is ASCII.
pub proof fn law_other_percent_signs_are_kept(s: Seq<char>)
    requires
        is_ascii_chars(s),
        forall|i: int|
            0 <= i < s.len() - 2 && #[trigger] s[i] == '%' ==> s[i + 1] != '+' && !(
            is_any_hex_digit(s[i + 1]) && is_any_hex_digit(s[i + 2])),
    ensures
        percent_decoded(s) == s,
{
    is_ascii_chars_encode_utf8(s);
    let bytes = encode_utf8(s);
    assert forall|i: int| 0 <= i < bytes.len() implies bytes[i] as int == #[trigger] s[i]
        as int by {}
    assert forall|i: int| 0 <= i < bytes.len() - 2 && #[trigger] bytes[i] == 0x25 implies hex_pair(
        bytes[i + 1],
        bytes[i + 2],
    ) is None by {
        assert(bytes[i] as int == s[i] as int);
        assert(s[i] == '%');
        assert(bytes[i + 1] as int == s[i + 1] as int);
        assert(bytes[i + 2] as int == s[i + 2] as int);
    }
    lemma_other_percent_signs(bytes);
    encode_utf8_valid_utf8(s);
    encode_utf8_decode_utf8(s);
}

} // verus!
