//! A plain tree model of JSON documents, and the call that parses text into
//! it.

use vstd::prelude::*;
use vstd::string::*;

verus! {

/// A JSON number, as far as the gateway reads it: a non-negative integer, a
/// negative integer, or anything else (a fraction, an exponent, an integer
/// beyond 64 bits).
#[derive(Clone, Copy, Debug, PartialEq, Eq, Structural)]
pub enum JsonNumber {
    PosInt(u64),
    NegInt(i64),
    Float,
}

/// A JSON document held as plain values.
#[derive(Debug, PartialEq, Eq)]
pub enum JsonValue {
    Null,
    Boolean(bool),
    Number(JsonNumber),
    Text(String),
    Array(Vec<JsonValue>),
    Object(Vec<(String, JsonValue)>),
}

/// The mathematical form of a [`JsonValue`].
pub enum JsonTree {
    Null,
    Boolean(bool),
    Number(JsonNumber),
    Text(Seq<char>),
    Array(Seq<JsonTree>),
    Object(Seq<(Seq<char>, JsonTree)>),
}

/// The mathematical form of a document, built from the leaves up.
pub open spec fn tree_of(value: JsonValue) -> JsonTree
    decreases value,
{
    match value {
        JsonValue::Null => JsonTree::Null,
        JsonValue::Boolean(b) => JsonTree::Boolean(b),
        JsonValue::Number(n) => JsonTree::Number(n),
        JsonValue::Text(s) => JsonTree::Text(s@),
        JsonValue::Array(items) => JsonTree::Array(
            Seq::new(
                items@.len(),
                |i: int|
                    if 0 <= i < items@.len() {
                        tree_of(items@[i])
                    } else {
                        JsonTree::Null
                    },
            ),
        ),
        JsonValue::Object(members) => JsonTree::Object(
            Seq::new(
                members@.len(),
                |i: int|
                    if 0 <= i < members@.len() {
                        (members@[i].0@, tree_of(members@[i].1))
                    } else {
                        (Seq::empty(), JsonTree::Null)
                    },
            ),
        ),
    }
}

impl View for JsonValue {
    type V = JsonTree;

    open spec fn view(&self) -> JsonTree {
        tree_of(*self)
    }
}

/// The tree type of `serde_json`, which parsed text arrives in.
#[verifier::external_type_specification]
#[verifier::external_body]
pub struct ExValue(::serde_json::Value);

/// The document that `serde_json::from_str` reads from a text, taken over
/// into a [`JsonTree`]; `None` where it rejects the text.
pub uninterp spec fn json_document(text: Seq<char>) -> Option<JsonTree>;

/// Moves a `serde_json::Value` into a [`JsonValue`], variant by variant. A
/// number becomes `PosInt` where `as_u64` gives it, else `NegInt` where
/// `as_i64` gives it, else `Float`. Nothing is claimed of the result here.
#[verifier::external_body]
fn from_serde(value: ::serde_json::Value) -> JsonValue {
    match value {
        ::serde_json::Value::Null => JsonValue::Null,
        ::serde_json::Value::Bool(b) => JsonValue::Boolean(b),
        ::serde_json::Value::Number(n) => JsonValue::Number(match (n.as_u64(), n.as_i64()) {
            (Some(u), _) => JsonNumber::PosInt(u),
            (None, Some(i)) => JsonNumber::NegInt(i),
            (None, None) => JsonNumber::Float,
        }),
        ::serde_json::Value::String(s) => JsonValue::Text(s),
        ::serde_json::Value::Array(a) => JsonValue::Array(a.into_iter().map(from_serde).collect()),
        ::serde_json::Value::Object(o) => JsonValue::Object(o.into_iter().map(|(k, v)| (k, from_serde(v))).collect()),
    }
}

/// Calls `serde_json::from_str` for a `serde_json::Value`. The contract
/// claims only that the outcome is a function of the text: it is the
/// document named [`json_document`].
#[verifier::external_body]
pub(crate) fn parse_document(text: &str) -> (r: Option<JsonValue>)
    ensures
        match r {
            Some(v) => json_document(text@) == Some(v@),
            None => json_document(text@) is None,
        },
{
    match ::serde_json::from_str::<::serde_json::Value>(text) {
        Ok(value) => Some(from_serde(value)),
        Err(_) => None,
    }
}

impl JsonValue {
    /// Reads a document from its text; `None` for a text that is no JSON
    /// document.
    pub fn parse(text: &str) -> (r: Option<JsonValue>)
        ensures
            match r {
                Some(v) => json_document(text@) == Some(v@),
                None => json_document(text@) is None,
            },
    {
        parse_document(text)
    }
}

/// The first member of an object that is filed under `key`.
pub open spec fn member(members: Seq<(Seq<char>, JsonTree)>, key: Seq<char>) -> Option<JsonTree>
    decreases members.len(),
{
    if members.len() == 0 {
        None
    } else if members[0].0 == key {
        Some(members[0].1)
    } else {
        member(members.drop_first(), key)
    }
}

/// The members of an object in mathematical form.
pub open spec fn members_view(members: Seq<(String, JsonValue)>) -> Seq<(Seq<char>, JsonTree)> {
    Seq::new(members.len(), |i: int| (members[i].0@, members[i].1@))
}

/// The items of an array in mathematical form.
pub open spec fn items_view(items: Seq<JsonValue>) -> Seq<JsonTree> {
    Seq::new(items.len(), |i: int| items[i]@)
}

/// The view of an object is that of its members, one by one.
pub proof fn lemma_object_view(members: Vec<(String, JsonValue)>)
    ensures
        JsonValue::Object(members)@ == JsonTree::Object(members_view(members@)),
{
    assert(tree_of(JsonValue::Object(members))->Object_0 =~= members_view(members@));
}

/// The view of an array is that of its items, one by one.
pub proof fn lemma_array_view(items: Vec<JsonValue>)
    ensures
        JsonValue::Array(items)@ == JsonTree::Array(items_view(items@)),
{
    assert(tree_of(JsonValue::Array(items))->Array_0 =~= items_view(items@));
}

/// Looks up the first member of an object that is filed under `key`.
pub fn find_member<'a>(members: &'a Vec<(String, JsonValue)>, key: &str) -> (r: Option<&'a JsonValue>)
    ensures
        match r {
            Some(v) => member(members_view(members@), key@) == Some(v@),
            None => member(members_view(members@), key@) is None,
        },
{
    let ghost all = members_view(members@);
    assert(all.skip(0) =~= all);
    let mut i: usize = 0;
    while i < members.len()
        invariant
            i <= members@.len(),
            all == members_view(members@),
            member(all, key@) == member(all.skip(i as int), key@),
        decreases members@.len() - i,
    {
        let ghost rest = all.skip(i as int);
        assert(rest[0] == all[i as int]);
        assert(rest.drop_first() =~= all.skip(i as int + 1));
        if crate::text::str_eq(members[i].0.as_str(), key) {
            return Some(&members[i].1);
        }
        i += 1;
    }
    None
}

} // verus!
