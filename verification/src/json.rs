//! JSON texts, read one level at a time: an array's elements and an object's
//! members are JSON texts again.
use crate::text::{opt_view, push_text, same_text, views};
use vstd::prelude::*;

verus! {

/// A JSON value. Numbers, elements and members are held in JSON notation.
pub enum JsonNode {
    Null,
    Bool(bool),
    Number(String),
    Text(String),
    Array(Vec<String>),
    Object(Vec<(String, String)>),
}

/// The model of a `JsonNode`.
pub enum JsonView {
    Null,
    Bool(bool),
    Number(Seq<char>),
    Text(Seq<char>),
    Array(Seq<Seq<char>>),
    Object(Seq<(Seq<char>, Seq<char>)>),
}

/// The model of a list of members.
pub open spec fn member_views(members: Seq<(String, String)>) -> Seq<(Seq<char>, Seq<char>)> {
    members.map_values(|m: (String, String)| (m.0@, m.1@))
}

impl View for JsonNode {
    type V = JsonView;

    open spec fn view(&self) -> JsonView {
        match *self {
            JsonNode::Null => JsonView::Null,
            JsonNode::Bool(b) => JsonView::Bool(b),
            JsonNode::Number(n) => JsonView::Number(n@),
            JsonNode::Text(t) => JsonView::Text(t@),
            JsonNode::Array(elements) => JsonView::Array(views(elements@)),
            JsonNode::Object(members) => JsonView::Object(member_views(members@)),
        }
    }
}

/// What `serde_json::from_str` reads from a text: the value, or nothing if the
/// text is not JSON. Elements and members appear as `serde_json` writes them.
pub uninterp spec fn json_node(text: Seq<char>) -> Option<JsonView>;

/// `serde_json::from_str` reads a JSON value; the value's parts are written
/// back by its `Display`.
#[verifier::external_body]
pub(crate) fn read_json(text: &str) -> (r: Option<JsonNode>)
    ensures
        r is Some <==> json_node(text@) is Some,
        r matches Some(node) ==> json_node(text@) == Some(node@),
{
    match serde_json::from_str::<serde_json::Value>(text).ok()? {
        serde_json::Value::Null => Some(JsonNode::Null),
        serde_json::Value::Bool(b) => Some(JsonNode::Bool(b)),
        serde_json::Value::Number(n) => Some(JsonNode::Number(n.to_string())),
        serde_json::Value::String(s) => Some(JsonNode::Text(s)),
        serde_json::Value::Array(a) => {
            Some(JsonNode::Array(a.iter().map(|v| v.to_string()).collect()))
        }
        serde_json::Value::Object(m) => {
            Some(JsonNode::Object(m.into_iter().map(|(k, v)| (k, v.to_string())).collect()))
        }
    }
}

/// The indented notation that `serde_json::to_string_pretty` gives the value of a JSON text.
pub uninterp spec fn indented_json(text: Seq<char>) -> Seq<char>;

/// `serde_json::to_string_pretty` writes the value of a JSON text on indented
/// lines. There is one for every text that is JSON, and for no other.
#[verifier::external_body]
pub(crate) fn pretty_json(text: &str) -> (r: Option<String>)
    ensures
        r is Some <==> json_node(text@) is Some,
        r matches Some(pretty) ==> pretty@ == indented_json(text@),
{
    let value = serde_json::from_str::<serde_json::Value>(text).ok()?;
    serde_json::to_string_pretty(&value).ok()
}

/// The text of the first member named `key`.
pub open spec fn member_named(
    members: Seq<(Seq<char>, Seq<char>)>,
    key: Seq<char>,
) -> Option<Seq<char>>
    decreases members.len(),
{
    if members.len() == 0 {
        None
    } else if members[0].0 == key {
        Some(members[0].1)
    } else {
        member_named(members.skip(1), key)
    }
}

/// The member named `key` of a JSON text that is an object.
pub open spec fn json_member(text: Seq<char>, key: Seq<char>) -> Option<Seq<char>> {
    match json_node(text) {
        Some(JsonView::Object(members)) => member_named(members, key),
        _ => None,
    }
}

/// The characters of a JSON text that is a string.
pub open spec fn json_string(text: Seq<char>) -> Option<Seq<char>> {
    match json_node(text) {
        Some(JsonView::Text(s)) => Some(s),
        _ => None,
    }
}

/// The text of the first member named `key`.
pub fn find_member(members: &Vec<(String, String)>, key: &str) -> (r: Option<String>)
    ensures
        opt_view(r) == member_named(member_views(members@), key@),
{
    let ghost all = member_views(members@);
    let mut i: usize = 0;
    assert(all.skip(0) =~= all);
    while i < members.len()
        invariant
            all == member_views(members@),
            i <= members.len(),
            member_named(all, key@) == member_named(all.skip(i as int), key@),
        decreases members.len() - i,
    {
        assert(all.skip(i as int)[0] == (members@[i as int].0@, members@[i as int].1@));
        if same_text(members[i].0.as_str(), key) {
            return Some(members[i].1.clone());
        }
        assert(all.skip(i as int).skip(1) =~= all.skip(i + 1));
        i = i + 1;
    }
    None
}

/// The member named `key` of a JSON text that is an object.
pub fn get_member(text: &str, key: &str) -> (r: Option<String>)
    ensures
        opt_view(r) == json_member(text@, key@),
{
    match read_json(text) {
        Some(JsonNode::Object(members)) => find_member(&members, key),
        _ => None,
    }
}

/// The characters of a JSON text that is a string.
pub fn get_string(text: &str) -> (r: Option<String>)
    ensures
        opt_view(r) == json_string(text@),
{
    match read_json(text) {
        Some(JsonNode::Text(s)) => Some(s),
        _ => None,
    }
}

/// The characters of the strings among the elements of an array.
pub open spec fn strings_of(elements: Seq<Seq<char>>) -> Seq<Seq<char>>
    decreases elements.len(),
{
    if elements.len() == 0 {
        Seq::empty()
    } else {
        match json_string(elements.last()) {
            Some(s) => strings_of(elements.drop_last()).push(s),
            None => strings_of(elements.drop_last()),
        }
    }
}

/// The characters of the strings in the member named `key`, if it is an array.
pub open spec fn member_strings(text: Seq<char>, key: Seq<char>) -> Seq<Seq<char>> {
    match json_member(text, key) {
        Some(member) => match json_node(member) {
            Some(JsonView::Array(elements)) => strings_of(elements),
            _ => Seq::empty(),
        },
        None => Seq::empty(),
    }
}

/// The characters of the member named `key`, if it is a string.
pub open spec fn member_string(text: Seq<char>, key: Seq<char>) -> Option<Seq<char>> {
    match json_member(text, key) {
        Some(member) => json_string(member),
        None => None,
    }
}

/// The strings in the member named `key`, if it is an array.
pub fn get_member_strings(text: &str, key: &str) -> (r: Vec<String>)
    ensures
        views(r@) == member_strings(text@, key@),
{
    let mut r: Vec<String> = Vec::new();
    assert(views(r@) =~= Seq::empty());
    if let Some(member) = get_member(text, key) {
        if let Some(JsonNode::Array(elements)) = read_json(member.as_str()) {
            let ghost all = views(elements@);
            let mut i: usize = 0;
            assert(all.take(0) =~= Seq::empty());
            while i < elements.len()
                invariant
                    all == views(elements@),
                    i <= elements.len(),
                    views(r@) == strings_of(all.take(i as int)),
                decreases elements.len() - i,
            {
                assert(all.take(i + 1).drop_last() =~= all.take(i as int));
                if let Some(s) = get_string(elements[i].as_str()) {
                    push_text(&mut r, s.as_str());
                }
                i = i + 1;
            }
            assert(all.take(i as int) =~= all);
        }
    }
    r
}

/// The member named `key`, if it is a string.
pub fn get_member_string(text: &str, key: &str) -> (r: Option<String>)
    ensures
        opt_view(r) == member_string(text@, key@),
{
    match get_member(text, key) {
        Some(member) => get_string(member.as_str()),
        None => None,
    }
}

/// The first member of a name is the one that is found.
pub proof fn lemma_member_named(members: Seq<(Seq<char>, Seq<char>)>, i: int, key: Seq<char>)
    requires
        0 <= i < members.len(),
        members[i].0 == key,
        forall|k: int| 0 <= k < i ==> (#[trigger] members[k]).0 != key,
    ensures
        member_named(members, key) == Some(members[i].1),
    decreases i,
{
    if i > 0 {
        assert(members[0].0 != key);
        let rest = members.skip(1);
        assert forall|k: int| 0 <= k < i - 1 implies (#[trigger] rest[k]).0 != key by {
            assert(rest[k] == members[k + 1]);
        }
        lemma_member_named(rest, i - 1, key);
    }
}

/// Without a member of a name none is found.
pub proof fn lemma_no_member_named(members: Seq<(Seq<char>, Seq<char>)>, key: Seq<char>)
    requires
        forall|k: int| 0 <= k < members.len() ==> (#[trigger] members[k]).0 != key,
    ensures
        member_named(members, key) is None,
    decreases members.len(),
{
    if members.len() > 0 {
        assert(members[0].0 != key);
        let rest = members.skip(1);
        assert forall|k: int| 0 <= k < rest.len() implies (#[trigger] rest[k]).0 != key by {
            assert(rest[k] == members[k + 1]);
        }
        lemma_no_member_named(rest, key);
    }
}

/// The string under a name is that of the first member of the name, if it is a string.
pub proof fn law_member_string_is_found(
    text: Seq<char>,
    members: Seq<(Seq<char>, Seq<char>)>,
    key: Seq<char>,
)
    requires
        json_node(text) == Some(JsonView::Object(members)),
    ensures
        forall|i: int|
            0 <= i < members.len() && (#[trigger] members[i]).0 == key && (forall|k: int|
                0 <= k < i ==> (#[trigger] members[k]).0 != key) ==> match json_node(
                members[i].1,
            ) {
                Some(JsonView::Text(s)) => member_string(text, key) == Some(s),
                _ => member_string(text, key) is None,
            },
        (forall|k: int| 0 <= k < members.len() ==> (#[trigger] members[k]).0 != key)
            ==> member_string(text, key) is None,
{
    assert forall|i: int|
        0 <= i < members.len() && (#[trigger] members[i]).0 == key && (forall|k: int|
            0 <= k < i ==> (#[trigger] members[k]).0 != key) implies match json_node(
        members[i].1,
    ) {
        Some(JsonView::Text(s)) => member_string(text, key) == Some(s),
        _ => member_string(text, key) is None,
    } by {
        lemma_member_named(members, i, key);
    }
    if forall|k: int| 0 <= k < members.len() ==> (#[trigger] members[k]).0 != key {
        lemma_no_member_named(members, key);
    }
}

proof fn lemma_strings_of(elements: Seq<Seq<char>>, strings: Seq<Seq<char>>)
    requires
        elements.len() == strings.len(),
        forall|i: int|
            0 <= i < elements.len() ==> json_node(#[trigger] elements[i]) == Some(
                JsonView::Text(strings[i]),
            ),
    ensures
        strings_of(elements) == strings,
    decreases elements.len(),
{
    if elements.len() > 0 {
        let n = elements.len() - 1;
        assert forall|i: int| 0 <= i < n implies json_node(#[trigger] elements.drop_last()[i])
            == Some(JsonView::Text(strings.drop_last()[i])) by {
            assert(elements.drop_last()[i] == elements[i]);
        }
        lemma_strings_of(elements.drop_last(), strings.drop_last());
        assert(json_node(elements[n]) == Some(JsonView::Text(strings[n])));
        assert(strings =~= strings.drop_last().push(strings[n]));
    } else {
        assert(strings_of(elements) =~= strings);
    }
}

/// The strings under a name are the elements of the array there, in order.
pub proof fn law_member_strings_are_read(
    text: Seq<char>,
    members: Seq<(Seq<char>, Seq<char>)>,
    i: int,
    elements: Seq<Seq<char>>,
    strings: Seq<Seq<char>>,
)
    requires
        json_node(text) == Some(JsonView::Object(members)),
        0 <= i < members.len(),
        forall|k: int| 0 <= k < i ==> (#[trigger] members[k]).0 != members[i].0,
        json_node(members[i].1) == Some(JsonView::Array(elements)),
        elements.len() == strings.len(),
        forall|k: int|
            0 <= k < elements.len() ==> json_node(#[trigger] elements[k]) == Some(
                JsonView::Text(strings[k]),
            ),
    ensures
        member_strings(text, members[i].0) == strings,
{
    lemma_member_named(members, i, members[i].0);
    lemma_strings_of(elements, strings);
}

} // verus!
