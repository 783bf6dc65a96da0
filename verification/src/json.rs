//! Reading and changing JSON text through `serde_json`.

use vstd::prelude::*;

use crate::text;

verus! {

/// The string in a JSON text under a JSON pointer, as `serde_json` finds it.
pub uninterp spec fn json_text(doc: Seq<char>, pointer: Seq<char>) -> Option<Seq<char>>;

/// `serde_json::from_str` into a `Value`, then `Value::pointer` and `Value::as_str`: the
/// string under the pointer. `None` where the text is no JSON, nothing stands there, or
/// it is no string. It depends on the two texts alone.
#[verifier::external_body]
pub(crate) fn json_text_at(doc: &str, pointer: &str) -> (r: Option<String>)
    ensures
        text::opt(r) == json_text(doc@, pointer@),
{
    let value = serde_json::from_str::<serde_json::Value>(doc).ok()?;
    value.pointer(pointer)?.as_str().map(str::to_string)
}

/// How many items the array in a JSON text under a JSON pointer has.
pub uninterp spec fn json_items(doc: Seq<char>, pointer: Seq<char>) -> Option<usize>;

/// `serde_json::from_str` into a `Value`, then `Value::pointer` and `Value::as_array`: the
/// length of the array under the pointer. `None` where the text is no JSON, nothing
/// stands there, or it is no array. It depends on the two texts alone.
#[verifier::external_body]
pub(crate) fn json_items_at(doc: &str, pointer: &str) -> (r: Option<usize>)
    ensures
        r == json_items(doc@, pointer@),
{
    let value = serde_json::from_str::<serde_json::Value>(doc).ok()?;
    value.pointer(pointer)?.as_array().map(Vec::len)
}

/// What `serde_json` has against a text, where it is no JSON.
pub uninterp spec fn json_fault(doc: Seq<char>) -> Option<Seq<char>>;

/// `serde_json::from_str` into a `Value`: the message of its error, `None` where the text
/// is JSON. It depends on the text alone.
#[verifier::external_body]
pub(crate) fn json_fault_in(doc: &str) -> (r: Option<String>)
    ensures
        text::opt(r) == json_fault(doc@),
{
    serde_json::from_str::<serde_json::Value>(doc).err().map(|e| e.to_string())
}

/// Whether a JSON text is an object or `null`, so that a key can be put into it.
pub uninterp spec fn json_keyed(doc: Seq<char>) -> bool;

/// `serde_json::from_str` into a `Value`, then `Value::is_object` and `Value::is_null`. It
/// depends on the text alone, and a text that is no JSON is neither.
#[verifier::external_body]
pub(crate) fn json_takes_keys(doc: &str) -> (r: bool)
    ensures
        r == json_keyed(doc@),
        r ==> json_fault(doc@) is None,
{
    serde_json::from_str::<serde_json::Value>(doc).is_ok_and(|v| v.is_object() || v.is_null())
}

/// A JSON text with a string put under a key of its object, as `serde_json` prints it.
pub uninterp spec fn json_with(doc: Seq<char>, key: Seq<char>, value: Seq<char>) -> Seq<char>;

/// `serde_json::from_str` into a `Value`, an assignment through its `IndexMut`, then
/// `serde_json::to_string_pretty`. The assignment makes an object of `null` and would
/// panic on anything else that is no object. The result depends on the three texts alone.
/// It is an object, and under a key without the characters that a pointer escapes the
/// string is read back from it.
#[verifier::external_body]
pub(crate) fn json_put(doc: &str, key: &str, value: &str) -> (r: String)
    requires
        json_keyed(doc@),
    ensures
        r@ == json_with(doc@, key@, value@),
        json_keyed(r@),
        !key@.contains('/') && !key@.contains('~') ==> json_text(r@, "/"@ + key@) == Some(value@),
{
    let mut json = serde_json::from_str::<serde_json::Value>(doc).unwrap_or_default();
    json[key] = serde_json::Value::String(value.to_string());
    serde_json::to_string_pretty(&json).unwrap_or_default()
}

} // verus!
