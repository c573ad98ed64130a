//! The boundary to `serde_json`.
//!
//! A JSON document is opaque to the verifier. What the library reads of one
//! (the members of an object, in iteration order) is given a name here, and
//! the few operations the library performs on documents are declared with
//! contracts over that name. Nothing in this file is proved: each contract is
//! a claim about `serde_json`.

use vstd::prelude::*;

verus! {

/// `serde_json::Value`, a JSON document, as an opaque type.
#[verifier::external_type_specification]
#[verifier::external_body]
pub struct ExJsonValue(serde_json::Value);

/// The members of a JSON object as `(key, value)` pairs, in the order in
/// which `serde_json::Map::iter` yields them; `None` for a document that is
/// not an object.
pub uninterp spec fn json_members(value: serde_json::Value) -> Option<
    Seq<(Seq<char>, serde_json::Value)>,
>;

/// The elements of a JSON array in order; `None` for a document that is not
/// an array.
pub uninterp spec fn json_elements(value: serde_json::Value) -> Option<Seq<serde_json::Value>>;

/// Whether a document is the JSON value `null`, as
/// `serde_json::Value::is_null` tells.
pub uninterp spec fn json_is_null(value: serde_json::Value) -> bool;

/// Where `serde_json::Map::insert` puts a key that the object does not hold
/// yet, given the keys that it holds, in iteration order.
pub uninterp spec fn json_insert_position(keys: Seq<Seq<char>>, key: Seq<char>) -> int;

/// The keys of a sequence of members.
pub open spec fn member_keys(members: Seq<(Seq<char>, serde_json::Value)>) -> Seq<Seq<char>> {
    Seq::new(members.len(), |i: int| members[i].0)
}

/// Whether `index` is the first position of `members` that holds `key`.
pub open spec fn is_member_index(
    members: Seq<(Seq<char>, serde_json::Value)>,
    key: Seq<char>,
    index: int,
) -> bool {
    &&& 0 <= index < members.len()
    &&& members[index].0 == key
    &&& forall|j: int| 0 <= j < index ==> members[j].0 != key
}

/// The members of an object after `key` is set to `value`: a key that is
/// present keeps its place and gets the new value, a new key enters at
/// `position`.
pub open spec fn members_with(
    members: Seq<(Seq<char>, serde_json::Value)>,
    key: Seq<char>,
    value: serde_json::Value,
    position: int,
) -> Seq<(Seq<char>, serde_json::Value)> {
    if exists|i: int| is_member_index(members, key, i) {
        members.update(choose|i: int| is_member_index(members, key, i), (key, value))
    } else {
        members.insert(position, (key, value))
    }
}

/// The members of an object after `serde_json` has set `key` to `value` in
/// it.
pub open spec fn members_set(
    members: Seq<(Seq<char>, serde_json::Value)>,
    key: Seq<char>,
    value: serde_json::Value,
) -> Seq<(Seq<char>, serde_json::Value)> {
    members_with(members, key, value, json_insert_position(member_keys(members), key))
}

/// Whether `serde_json` puts a key that `members` does not hold yet at a
/// place within them or at their end.
pub open spec fn insert_in_range(members: Seq<(Seq<char>, serde_json::Value)>, key: Seq<char>) -> bool {
    0 <= json_insert_position(member_keys(members), key) <= members.len()
}

/// The character sequences of a list of owned members.
pub open spec fn members_view(entries: Seq<(String, serde_json::Value)>) -> Seq<
    (Seq<char>, serde_json::Value),
> {
    Seq::new(entries.len(), |i: int| (entries[i].0@, entries[i].1))
}

/// What the library sees of a document: the members of an object, or a
/// document of another kind, which it only carries along.
pub enum DocView {
    Object(Seq<(Seq<char>, serde_json::Value)>),
    Other(serde_json::Value),
}

/// The view of a document.
pub open spec fn doc_view(value: serde_json::Value) -> DocView {
    match json_members(value) {
        Some(members) => DocView::Object(members),
        None => DocView::Other(value),
    }
}

/// The value of the first member with the given key.
pub open spec fn member_value(
    members: Seq<(Seq<char>, serde_json::Value)>,
    key: Seq<char>,
) -> Option<serde_json::Value> {
    if exists|i: int| is_member_index(members, key, i) {
        Some(members[choose|i: int| is_member_index(members, key, i)].1)
    } else {
        None
    }
}

/// The view of an optional document.
pub open spec fn opt_doc_view(value: Option<serde_json::Value>) -> Option<DocView> {
    match value {
        Some(v) => Some(doc_view(v)),
        None => None,
    }
}

/// `<serde_json::Value as Clone>::clone`: the copy is the same document.
pub assume_specification[ <serde_json::Value as Clone>::clone ](
    value: &serde_json::Value,
) -> (r: serde_json::Value)
    ensures
        r == *value,
;

/// `serde_json::Value::as_object` followed by `serde_json::Map::iter`: the
/// members of an object, copied out in iteration order; `None` for a document
/// that is not an object.
#[verifier::external_body]
pub(crate) fn json_object_members(value: &serde_json::Value) -> (r: Option<
    Vec<(String, serde_json::Value)>,
>)
    ensures
        r is Some <==> json_members(*value) is Some,
        r is Some ==> members_view(r.unwrap()@) == json_members(*value).unwrap(),
{
    match value.as_object() {
        Some(map) => Some(map.iter().map(|(k, v)| (k.clone(), v.clone())).collect()),
        None => None,
    }
}

/// `serde_json::Map::new` inside `serde_json::Value::Object`: an object
/// without members.
#[verifier::external_body]
pub(crate) fn json_empty_object() -> (r: serde_json::Value)
    ensures
        json_members(r) == Some(Seq::<(Seq<char>, serde_json::Value)>::empty()),
        json_elements(r) is None,
{
    serde_json::Value::Object(serde_json::Map::new())
}

/// `serde_json::Value::as_object_mut` followed by `serde_json::Map::insert`:
/// sets `key` to `value` in an object and leaves a document of another kind
/// as it is. A key that the object does not hold yet enters at a place
/// within the members or at their end.
#[verifier::external_body]
pub(crate) fn json_object_insert(doc: &mut serde_json::Value, key: String, value: serde_json::Value)
    ensures
        json_members(*old(doc)) is None ==> *final(doc) == *old(doc),
        json_members(*old(doc)) is Some ==> json_members(*final(doc)) == Some(
            members_with(
                json_members(*old(doc)).unwrap(),
                key@,
                value,
                json_insert_position(member_keys(json_members(*old(doc)).unwrap()), key@),
            ),
        ),
        json_members(*old(doc)) is Some ==> 0 <= json_insert_position(
            member_keys(json_members(*old(doc)).unwrap()),
            key@,
        ) <= json_members(*old(doc)).unwrap().len(),
{
    if let Some(map) = doc.as_object_mut() {
        map.insert(key, value);
    }
}

/// `serde_json::Value::is_object`.
#[verifier::external_body]
pub(crate) fn json_is_object(doc: &serde_json::Value) -> (r: bool)
    ensures
        r == json_members(*doc) is Some,
{
    doc.is_object()
}

/// `serde_json::Value::as_object` followed by `serde_json::Map::get`: the
/// value of the member `key` of an object; `None` where there is no such
/// member or the document is not an object.
#[verifier::external_body]
pub(crate) fn json_member<'a>(doc: &'a serde_json::Value, key: &str) -> (r: Option<
    &'a serde_json::Value,
>)
    ensures
        json_members(*doc) is None ==> r is None,
        json_members(*doc) is Some ==> (match r {
            Some(value) => Some(*value),
            None => None,
        }) == member_value(json_members(*doc)->Some_0, key@),
{
    match doc.as_object() {
        Some(map) => map.get(key),
        None => None,
    }
}

/// `serde_json::Value::as_array` followed by `<[Value]>::get`: the element
/// at `index` of an array; `None` where the array is shorter or the document
/// is not an array.
#[verifier::external_body]
pub(crate) fn json_element<'a>(doc: &'a serde_json::Value, index: usize) -> (r: Option<
    &'a serde_json::Value,
>)
    ensures
        json_elements(*doc) is None ==> r is None,
        json_elements(*doc) is Some ==> (match r {
            Some(value) => Some(*value),
            None => None,
        }) == (if index < json_elements(*doc)->Some_0.len() {
            Some(json_elements(*doc)->Some_0[index as int])
        } else {
            None
        }),
{
    match doc.as_array() {
        Some(list) => list.get(index),
        None => None,
    }
}

/// `serde_json::Value::as_array`, with the elements copied out; `None` for a
/// document that is not an array.
#[verifier::external_body]
pub(crate) fn json_array_elements(doc: &serde_json::Value) -> (r: Option<Vec<serde_json::Value>>)
    ensures
        match r {
            Some(list) => Some(list@),
            None => None,
        } == json_elements(*doc),
{
    match doc.as_array() {
        Some(list) => Some(list.clone()),
        None => None,
    }
}

/// `serde_json::Value::Array`: the array of the given elements, which is no
/// object.
#[verifier::external_body]
pub(crate) fn json_array(elements: Vec<serde_json::Value>) -> (r: serde_json::Value)
    ensures
        json_elements(r) == Some(elements@),
        json_members(r) is None,
{
    serde_json::Value::Array(elements)
}

/// `serde_json::Value::Null`: the value `null`, which is neither an object
/// nor an array.
#[verifier::external_body]
pub(crate) fn json_null() -> (r: serde_json::Value)
    ensures
        json_is_null(r),
        json_members(r) is None,
        json_elements(r) is None,
{
    serde_json::Value::Null
}

} // verus!
