//! Reading members of JSON texts, with the parser of `serde_json`.
use serde_json::Value;
use vstd::prelude::*;

verus! {

/// The number under a key of the object that a text holds, as `serde_json` reads it: `None` where the
/// text is no JSON, holds no object with that key, or has another value there than an integer of 64
/// bits that is not negative.
pub uninterp spec fn json_number(body: Seq<char>, key: Seq<char>) -> Option<u64>;

/// The members of the object under a key, in the order in which `serde_json` keeps them, each with its
/// value where that is a text: `None` where there is no such object.
pub uninterp spec fn json_members(body: Seq<char>, key: Seq<char>) -> Option<
    Seq<(Seq<char>, Option<Seq<char>>)>,
>;

/// The items of the list under a key, each with its value where that is an integer of 64 bits that is
/// not negative: `None` where there is no such list.
pub uninterp spec fn json_items(body: Seq<char>, key: Seq<char>) -> Option<Seq<Option<u64>>>;

/// The view of an optional text.
pub open spec fn text_view(text: Option<String>) -> Option<Seq<char>> {
    match text {
        Some(t) => Some(t@),
        None => None,
    }
}

/// The view of named members.
pub open spec fn member_views(members: Seq<(String, Option<String>)>) -> Seq<
    (Seq<char>, Option<Seq<char>>),
> {
    members.map_values(|m: (String, Option<String>)| (m.0@, text_view(m.1)))
}

/// `serde_json::from_str`, `Value::get` and `Value::as_u64`: the number under a key. What a given text
/// holds is left to the name.
#[verifier::external_body]
pub(crate) fn number_under(body: &str, key: &str) -> (r: Option<u64>)
    ensures
        r == json_number(body@, key@),
{
    serde_json::from_str::<Value>(body).ok()?.get(key)?.as_u64()
}

/// `serde_json::from_str`, `Value::get`, `Value::as_object` and `Value::as_str`: the members of the
/// object under a key. What a given text holds is left to the name.
#[verifier::external_body]
pub(crate) fn members_under(body: &str, key: &str) -> (r: Option<Vec<(String, Option<String>)>>)
    ensures
        match r {
            Some(members) => json_members(body@, key@) == Some(member_views(members@)),
            None => json_members(body@, key@) is None,
        },
{
    let value = serde_json::from_str::<Value>(body).ok()?;
    let members = value.get(key)?.as_object()?;
    Some(members.iter().map(|(k, v)| (k.clone(), v.as_str().map(String::from))).collect())
}

/// `serde_json::from_str`, `Value::get`, `Value::as_array` and `Value::as_u64`: the items of the list
/// under a key. What a given text holds is left to the name.
#[verifier::external_body]
pub(crate) fn items_under(body: &str, key: &str) -> (r: Option<Vec<Option<u64>>>)
    ensures
        match r {
            Some(items) => json_items(body@, key@) == Some(items@),
            None => json_items(body@, key@) is None,
        },
{
    let value = serde_json::from_str::<Value>(body).ok()?;
    Some(value.get(key)?.as_array()?.iter().map(|v| v.as_u64()).collect())
}

} // verus!
