//! JSON documents and the keyed object that holds them, as `serde_json` gives
//! them. A document is carried as it is; what the store needs to know of one is
//! named here and stated of the calls that produce it.

use serde_json::Value;
use vstd::prelude::*;

verus! {

/// `serde_json::Value`, a JSON document. The store carries a document
/// without looking inside it.
#[verifier::external_type_specification]
#[verifier::external_body]
pub struct ExValue(serde_json::Value);

/// `serde_json::Map`, a JSON object: documents under string keys. What one
/// holds is known through `object_entries` alone.
#[verifier::external_type_specification]
#[verifier::external_body]
#[verifier::reject_recursive_types(K)]
#[verifier::reject_recursive_types(V)]
pub struct ExObject<K, V>(serde_json::Map<K, V>);

/// The entries of a JSON object, by key.
pub uninterp spec fn object_entries(m: serde_json::Map<String, Value>) -> Map<Seq<char>, Value>;

/// The order in which a JSON object hands out its keys. An object keeps its
/// keys sorted (the crate's `preserve_order` feature, which would change
/// that, is not used), so the order depends on the keys alone.
pub uninterp spec fn key_order(keys: Set<Seq<char>>) -> Seq<Seq<char>>;

/// The compact JSON text of a document, where it can be written.
pub uninterp spec fn json_text(v: Value) -> Option<Seq<char>>;

/// The document that a text stands for, where the text is well-formed JSON.
pub uninterp spec fn json_parse(text: Seq<char>) -> Option<Value>;

/// Whether a document is JSON `null`.
pub uninterp spec fn is_null(v: Value) -> bool;

/// The characters of each string of a sequence.
pub open spec fn views(strings: Seq<String>) -> Seq<Seq<char>> {
    strings.map_values(|s: String| s@)
}

/// Calls `serde_json::to_string` on a document. The text that comes back
/// depends on the document alone; the call fails exactly where the document
/// has no text.
#[verifier::external_body]
pub(crate) fn value_to_text(v: &Value) -> (r: Result<String, serde_json::Error>)
    ensures
        r.is_ok() == json_text(*v).is_some(),
        r matches Ok(s) ==> json_text(*v) == Some(s@),
{
    serde_json::to_string(v)
}

/// Calls `serde_json::from_str` for a document. The document that comes back
/// depends on the text alone; the call fails exactly where the text is not one
/// well-formed JSON document.
#[verifier::external_body]
pub(crate) fn text_to_value(text: &str) -> (r: Result<Value, serde_json::Error>)
    ensures
        r.is_ok() == json_parse(text@).is_some(),
        r matches Ok(v) ==> json_parse(text@) == Some(v),
{
    serde_json::from_str(text)
}

/// Makes `serde_json::Value::Null`.
#[verifier::external_body]
pub(crate) fn null_value() -> (r: Value)
    ensures
        is_null(r),
{
    Value::Null
}

/// Calls `serde_json::Value::is_null`, which tells `null` from every other
/// document.
#[verifier::external_body]
pub(crate) fn value_is_null(v: &Value) -> (r: bool)
    ensures
        r == is_null(*v),
{
    v.is_null()
}

/// Calls `clone` on a document: the copy is the same document.
#[verifier::external_body]
pub(crate) fn value_clone(v: &Value) -> (r: Value)
    ensures
        r == *v,
{
    v.clone()
}

/// Calls `serde_json::Map::new`, which makes an object without entries.
#[verifier::external_body]
pub(crate) fn object_new() -> (r: serde_json::Map<String, Value>)
    ensures
        object_entries(r) == (Map::<Seq<char>, Value>::empty()),
{
    serde_json::Map::new()
}

/// Calls `serde_json::Map::insert`: the key then holds the new document, every
/// other key holds what it held, and the document that the key held before, if
/// any, comes back.
#[verifier::external_body]
pub(crate) fn object_insert(m: &mut serde_json::Map<String, Value>, key: String, value: Value) -> (r:
    Option<Value>)
    ensures
        object_entries(*final(m)) == object_entries(*old(m)).insert(key@, value),
        r == (if object_entries(*old(m)).contains_key(key@) {
            Some(object_entries(*old(m))[key@])
        } else {
            None
        }),
{
    m.insert(key, value)
}

/// Calls `serde_json::Map::get`: the document under the key, if the object has
/// the key.
#[verifier::external_body]
pub(crate) fn object_get<'a>(m: &'a serde_json::Map<String, Value>, key: &str) -> (r: Option<
    &'a Value,
>)
    ensures
        r.is_some() == object_entries(*m).contains_key(key@),
        r matches Some(v) ==> *v == object_entries(*m)[key@],
{
    m.get(key)
}

/// Calls `serde_json::Map::remove`: the key is gone, every other key holds
/// what it held, and the document that the key held, if any, comes back.
#[verifier::external_body]
pub(crate) fn object_remove(m: &mut serde_json::Map<String, Value>, key: &str) -> (r: Option<
    Value,
>)
    ensures
        object_entries(*final(m)) == object_entries(*old(m)).remove(key@),
        r == (if object_entries(*old(m)).contains_key(key@) {
            Some(object_entries(*old(m))[key@])
        } else {
            None
        }),
{
    m.remove(key)
}

/// Calls `serde_json::Map::keys` and copies each key out: every key of the
/// object once, in the order in which the object keeps its keys.
#[verifier::external_body]
pub(crate) fn object_keys(m: &serde_json::Map<String, Value>) -> (r: Vec<String>)
    ensures
        views(r@) == key_order(object_entries(*m).dom()),
        views(r@).no_duplicates(),
        forall|k: Seq<char>| views(r@).contains(k) <==> object_entries(*m).contains_key(k),
{
    m.keys().cloned().collect()
}

} // verus!
