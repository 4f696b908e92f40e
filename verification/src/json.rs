//! Reading the members of a JSON request body. The parsing is that of the
//! `serde_json` crate; nothing here is proved. Each result depends on the
//! bytes and the key alone, and is spoken of under a name of its own.

use vstd::prelude::*;

verus! {

/// The member `key` of the JSON object that `body` spells, where `body` is
/// valid JSON, spells an object, and the member is a non-negative integer
/// below 2^64.
pub uninterp spec fn json_number(body: Seq<u8>, key: Seq<char>) -> Option<u64>;

/// The member `key` of the JSON object that `body` spells, where `body` is
/// valid JSON, spells an object, and the member is a string.
pub uninterp spec fn json_text(body: Seq<u8>, key: Seq<char>) -> Option<Seq<char>>;

/// The element at place `index` of the member `key` of the JSON object that
/// `body` spells, where `body` is valid JSON, spells an object, the member
/// is an array that long, and the element is a non-negative integer below
/// 2^64.
pub uninterp spec fn json_list_number(body: Seq<u8>, key: Seq<char>, index: usize) -> Option<u64>;

/// `serde_json::from_slice` to a `Value`, then `Value::get` with the key and
/// `Value::as_u64`: nothing where the bytes are no JSON, spell no object,
/// the object has no such member, or the member is no unsigned integer.
#[verifier::external_body]
pub(crate) fn body_number(body: &[u8], key: &str) -> (number: Option<u64>)
    ensures
        number == json_number(body@, key@),
{
    let value: serde_json::Value = serde_json::from_slice(body).ok()?;
    value.get(key)?.as_u64()
}

/// `serde_json::from_slice` to a `Value`, then `Value::get` with the key and
/// `Value::as_str`: nothing where the bytes are no JSON, spell no object,
/// the object has no such member, or the member is no string.
#[verifier::external_body]
pub(crate) fn body_text(body: &[u8], key: &str) -> (text: Option<String>)
    ensures
        match text {
            Some(t) => json_text(body@, key@) == Some(t@),
            None => json_text(body@, key@).is_none(),
        },
{
    let value: serde_json::Value = serde_json::from_slice(body).ok()?;
    Some(value.get(key)?.as_str()?.to_owned())
}

/// `serde_json::from_slice` to a `Value`, then `Value::get` with the key,
/// `Value::get` with the index and `Value::as_u64`: nothing where the bytes
/// are no JSON, spell no object, the object has no such member, the member
/// is no array or a shorter one, or the element is no unsigned integer.
#[verifier::external_body]
pub(crate) fn body_list_number(body: &[u8], key: &str, index: usize) -> (number: Option<u64>)
    ensures
        number == json_list_number(body@, key@, index),
{
    let value: serde_json::Value = serde_json::from_slice(body).ok()?;
    value.get(key)?.get(index)?.as_u64()
}

} // verus!
