//! The one question that is put to a JSON document: which string stands
//! under a given key.
use vstd::prelude::*;

verus! {

/// What `serde_json` finds under `key` in the document `text`: `None` where
/// `text` is not a JSON document; `Some(None)` where it is one, but is no
/// object, has no member `key`, or has one that is not a string; else the
/// string.
pub uninterp spec fn json_string_member(text: Seq<char>, key: Seq<char>) -> Option<
    Option<Seq<char>>,
>;

/// The value of what a lookup returned.
pub open spec fn lookup_view(found: Option<Option<String>>) -> Option<Option<Seq<char>>> {
    match found {
        Some(Some(member)) => Some(Some(member@)),
        Some(None) => Some(None),
        None => None,
    }
}

/// `serde_json::from_str`, then `Value`'s index by a string and `as_str`:
/// parses `text` and looks up the string under `key`. What comes back
/// depends on the two texts alone; why a text is no document is not kept.
#[verifier::external_body]
pub(crate) fn string_member(text: &str, key: &str) -> (found: Option<Option<String>>)
    ensures
        lookup_view(found) == json_string_member(text@, key@),
{
    match serde_json::from_str::<serde_json::Value>(text) {
        Ok(document) => Some(document[key].as_str().map(String::from)),
        Err(_) => None,
    }
}

} // verus!
