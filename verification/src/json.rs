//! JSON values as the library reads them.
use crate::assoc::{get, index_of, lemma_index_unique};
use crate::text::str_eq;
use vstd::prelude::*;

verus! {

/// A JSON value. A number is kept as it is written.
#[derive(Debug, PartialEq, Eq)]
pub enum Json {
    Null,
    Bool(bool),
    Number(String),
    String(String),
    Array(Vec<Json>),
    Object(Vec<(String, Json)>),
}

/// The model of [`Json`].
pub enum JsonView {
    Null,
    Bool(bool),
    Number(Seq<char>),
    String(Seq<char>),
    Array(Seq<JsonView>),
    Object(Seq<(Seq<char>, JsonView)>),
}

/// What a JSON value holds.
pub open spec fn json_view(j: Json) -> JsonView
    decreases j,
{
    match j {
        Json::Null => JsonView::Null,
        Json::Bool(b) => JsonView::Bool(b),
        Json::Number(n) => JsonView::Number(n@),
        Json::String(s) => JsonView::String(s@),
        Json::Array(items) => JsonView::Array(
            Seq::new(
                items@.len(),
                |i: int|
                    if 0 <= i < items@.len() {
                        json_view(items@[i])
                    } else {
                        JsonView::Null
                    },
            ),
        ),
        Json::Object(entries) => JsonView::Object(
            Seq::new(
                entries@.len(),
                |i: int|
                    if 0 <= i < entries@.len() {
                        (entries@[i].0@, json_view(entries@[i].1))
                    } else {
                        (Seq::empty(), JsonView::Null)
                    },
            ),
        ),
    }
}

impl View for Json {
    type V = JsonView;

    open spec fn view(&self) -> JsonView {
        json_view(*self)
    }
}

/// `serde_json::Value`: a JSON value as the crate `serde_json` holds it.
/// Nothing of what is inside it is visible here.
#[verifier::external_type_specification]
#[verifier::external_body]
pub struct ExValue(serde_json::Value);

/// The JSON value that a value of `serde_json` holds.
pub uninterp spec fn value_json(value: serde_json::Value) -> JsonView;

/// The JSON value that `serde_json` reads from a text, if it reads one.
pub uninterp spec fn json_of_text(text: Seq<char>) -> Option<JsonView>;

/// The JSON value that `serde_json` reads from bytes, if it reads one.
pub uninterp spec fn json_of_bytes(bytes: Seq<u8>) -> Option<JsonView>;

/// `serde_json::from_str` for a `serde_json::Value`: the value read from
/// the text, or nothing where the text is no JSON value.
#[verifier::external_body]
fn value_from_str(text: &str) -> (r: Option<serde_json::Value>)
    ensures
        match r {
            Some(v) => json_of_text(text@) == Some(value_json(v)),
            None => json_of_text(text@).is_none(),
        },
{
    serde_json::from_str::<serde_json::Value>(text).ok()
}

/// `serde_json::from_slice` for a `serde_json::Value`: the value read from
/// the bytes, or nothing where they are no JSON value.
#[verifier::external_body]
fn value_from_slice(bytes: &[u8]) -> (r: Option<serde_json::Value>)
    ensures
        match r {
            Some(v) => json_of_bytes(bytes@) == Some(value_json(v)),
            None => json_of_bytes(bytes@).is_none(),
        },
{
    serde_json::from_slice::<serde_json::Value>(bytes).ok()
}

/// Takes a `serde_json::Value` apart, variant by variant, into the
/// library's own type. A number is written out by `serde_json`; the entries
/// of an object come in the order in which `serde_json` hands them out.
#[verifier::external_body]
fn json_from_value(value: serde_json::Value) -> (j: Json)
    ensures
        j@ == value_json(value),
{
    match value {
        serde_json::Value::Null => Json::Null,
        serde_json::Value::Bool(b) => Json::Bool(b),
        serde_json::Value::Number(n) => Json::Number(n.to_string()),
        serde_json::Value::String(s) => Json::String(s),
        serde_json::Value::Array(a) => Json::Array(a.into_iter().map(json_from_value).collect()),
        serde_json::Value::Object(m) => Json::Object(
            m.into_iter().map(|(k, v)| (k, json_from_value(v))).collect(),
        ),
    }
}

/// Reads a JSON value from a text.
pub fn parse_json(text: &str) -> (r: Option<Json>)
    ensures
        match r {
            Some(j) => json_of_text(text@) == Some(j@),
            None => json_of_text(text@).is_none(),
        },
{
    match value_from_str(text) {
        Some(v) => Some(json_from_value(v)),
        None => None,
    }
}

/// Reads a JSON value from bytes.
pub fn parse_json_bytes(bytes: &[u8]) -> (r: Option<Json>)
    ensures
        match r {
            Some(j) => json_of_bytes(bytes@) == Some(j@),
            None => json_of_bytes(bytes@).is_none(),
        },
{
    match value_from_slice(bytes) {
        Some(v) => Some(json_from_value(v)),
        None => None,
    }
}

/// The views of the entries of an object.
pub open spec fn entries_view(entries: Seq<(String, Json)>) -> Seq<(Seq<char>, JsonView)> {
    Seq::new(entries.len(), |i: int| (entries[i].0@, entries[i].1@))
}

/// The view of an object is made of the views of its entries.
pub proof fn lemma_object_view(entries: Vec<(String, Json)>)
    ensures
        Json::Object(entries)@ == JsonView::Object(entries_view(entries@)),
{
    let a = Json::Object(entries)@->Object_0;
    let b = entries_view(entries@);
    assert(a.len() == b.len());
    assert forall|i: int| 0 <= i < a.len() implies a[i] == b[i] by {}
    assert(a =~= b);
}

/// The views of the items of an array.
pub open spec fn items_view(items: Seq<Json>) -> Seq<JsonView> {
    Seq::new(items.len(), |i: int| items[i]@)
}

/// The view of an array is made of the views of its items.
pub proof fn lemma_array_view(items: Vec<Json>)
    ensures
        Json::Array(items)@ == JsonView::Array(items_view(items@)),
{
    let a = Json::Array(items)@->Array_0;
    let b = items_view(items@);
    assert(a.len() == b.len());
    assert forall|i: int| 0 <= i < a.len() implies a[i] == b[i] by {}
    assert(a =~= b);
}

/// The value of the first entry of `entries` under `name`.
pub fn get_field<'a>(entries: &'a Vec<(String, Json)>, name: &str) -> (r: Option<&'a Json>)
    ensures
        match r {
            Some(j) => get(entries_view(entries@), name@) == Some(j@),
            None => get(entries_view(entries@), name@).is_none(),
        },
{
    let ghost ev = entries_view(entries@);
    let mut i: usize = 0;
    while i < entries.len() && !str_eq(entries[i].0.as_str(), name)
        invariant
            0 <= i <= entries.len(),
            ev == entries_view(entries@),
            forall|k: int| 0 <= k < i ==> (#[trigger] ev[k]).0 != name@,
        decreases entries.len() - i,
    {
        i += 1;
    }
    proof {
        if i < entries.len() {
            assert(ev[i as int].0 == name@);
        }
        lemma_index_unique(ev, name@, i as int);
    }
    if i < entries.len() {
        Some(&entries[i].1)
    } else {
        None
    }
}

} // verus!
