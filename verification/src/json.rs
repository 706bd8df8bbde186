//! JSON documents as trees. Reading a text into a tree and writing a tree as
//! a text are the work of `serde_json`; what a tree means is worked out in
//! the modules that use it.

use vstd::prelude::*;
use vstd::string::*;

verus! {

/// A JSON document.
#[derive(Debug)]
pub enum Json {
    Null,
    Bool(bool),
    /// A number, with its value where that is a whole number from 0 up to the
    /// largest that 64 bits hold.
    Number(Option<u64>),
    Text(String),
    Array(Vec<Json>),
    /// An object: its members in order.
    Object(Vec<(String, Json)>),
}

/// The mathematical value of a [`Json`].
pub enum JsonView {
    Null,
    Bool(bool),
    Number(Option<u64>),
    Text(Seq<char>),
    Array(Seq<JsonView>),
    Object(Seq<(Seq<char>, JsonView)>),
}

/// The value of a document.
pub open spec fn tree_view(tree: Json) -> JsonView
    decreases tree, 1nat,
{
    match tree {
        Json::Null => JsonView::Null,
        Json::Bool(b) => JsonView::Bool(b),
        Json::Number(n) => JsonView::Number(n),
        Json::Text(t) => JsonView::Text(t@),
        Json::Array(items) => JsonView::Array(items_view(items@)),
        Json::Object(members) => JsonView::Object(members_view(members@)),
    }
}

/// The values of a list of documents.
pub open spec fn items_view(items: Seq<Json>) -> Seq<JsonView>
    decreases items, 0nat,
{
    Seq::new(
        items.len(),
        |i: int|
            if 0 <= i < items.len() {
                tree_view(items[i])
            } else {
                JsonView::Null
            },
    )
}

/// The values of the members of an object.
pub open spec fn members_view(members: Seq<(String, Json)>) -> Seq<(Seq<char>, JsonView)>
    decreases members, 0nat,
{
    Seq::new(
        members.len(),
        |i: int|
            if 0 <= i < members.len() {
                (members[i].0@, tree_view(members[i].1))
            } else {
                (Seq::empty(), JsonView::Null)
            },
    )
}

impl View for Json {
    type V = JsonView;

    open spec fn view(&self) -> JsonView {
        tree_view(*self)
    }
}

/// Whether the member at `i` is the first one of the given name.
pub open spec fn member_at(members: Seq<(Seq<char>, JsonView)>, name: Seq<char>, i: int) -> bool {
    &&& 0 <= i < members.len()
    &&& members[i].0 == name
    &&& forall|j: int| 0 <= j < i ==> members[j].0 != name
}

/// The member of the given name: the first one, where there are several.
pub open spec fn member(members: Seq<(Seq<char>, JsonView)>, name: Seq<char>) -> Option<JsonView> {
    if exists|i: int| member_at(members, name, i) {
        Some(members[choose|i: int| member_at(members, name, i)].1)
    } else {
        None
    }
}

/// What `serde_json::from_str` makes of a text: the document it reads, or
/// `None` where it rejects the text.
pub uninterp spec fn json_parse(text: Seq<char>) -> Option<JsonView>;

/// The text that `serde_json` writes for a document.
pub uninterp spec fn json_written(tree: JsonView) -> Seq<char>;

/// Reads a text with `serde_json::from_str` into a `serde_json::Value` and
/// hands the value back as a tree, variant by variant. Trusted: the result is
/// `json_parse` of the text, nothing more is claimed.
#[verifier::external_body]
pub(crate) fn parse_json(text: &str) -> (r: Option<Json>)
    ensures
        match r {
            Some(tree) => json_parse(text@) == Some(tree@),
            None => json_parse(text@) is None,
        },
{
    Some(match serde_json::from_str::<serde_json::Value>(text).ok()? {
        serde_json::Value::Null => Json::Null,
        serde_json::Value::Bool(b) => Json::Bool(b),
        serde_json::Value::Number(n) => Json::Number(n.as_u64()),
        serde_json::Value::String(s) => Json::Text(s),
        serde_json::Value::Array(items) => Json::Array(
            items.iter().map(|v| parse_json(&v.to_string())).collect::<Option<_>>()?,
        ),
        serde_json::Value::Object(map) => Json::Object(
            map.iter().map(|(k, v)| Some((k.clone(), parse_json(&v.to_string())?))).collect::<Option<_>>()?,
        ),
    })
}

/// Hands a tree to `serde_json` as a `serde_json::Value`, variant by variant,
/// and has it written with `to_string`. Trusted: the result is
/// `json_written` of the tree, nothing more is claimed.
#[verifier::external_body]
pub(crate) fn write_json(tree: &Json) -> (r: String)
    ensures
        r@ == json_written(tree@),
{
    let value = match tree {
        Json::Null => serde_json::Value::Null,
        Json::Bool(b) => serde_json::Value::Bool(*b),
        Json::Number(n) => serde_json::Value::from(*n),
        Json::Text(s) => serde_json::Value::String(s.clone()),
        Json::Array(items) => items.iter().map(|j| serde_json::from_str::<serde_json::Value>(
            &write_json(j)).unwrap_or_default()).collect(),
        Json::Object(members) => serde_json::Value::Object(members.iter().map(|(k, j)| (k.clone(),
            serde_json::from_str(&write_json(j)).unwrap_or_default())).collect()),
    };
    value.to_string()
}

/// Finds the member of the given name in an object.
pub fn find_member<'a>(members: &'a Vec<(String, Json)>, name: &str) -> (r: Option<&'a Json>)
    ensures
        match r {
            Some(tree) => member(members_view(members@), name@) == Some(tree@),
            None => member(members_view(members@), name@) is None,
        },
{
    let wanted = name.to_owned();
    let mut i: usize = 0;
    while i < members.len()
        invariant
            i <= members.len(),
            wanted@ == name@,
            forall|j: int| 0 <= j < i ==> members_view(members@)[j].0 != name@,
        decreases members.len() - i,
    {
        if members[i].0 == wanted {
            proof {
                let view = members_view(members@);
                assert(member_at(view, name@, i as int));
                let chosen = choose|c: int| member_at(view, name@, c);
                assert(chosen == i) by {
                    if chosen < i {
                        assert(view[chosen].0 != name@);
                    } else if i < chosen {
                        assert(view[i as int].0 != name@);
                    }
                }
            }
            return Some(&members[i].1);
        }
        i += 1;
    }
    proof {
        let view = members_view(members@);
        assert forall|c: int| !member_at(view, name@, c) by {}
    }
    None
}

} // verus!
