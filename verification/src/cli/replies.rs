//! What is picked out of the daemon's replies.

use vstd::prelude::*;

use crate::json::Json;
use crate::json::JsonView;

verus! {

/// The text under a key, or a stand-in.
pub open spec fn text_or(json: JsonView, key: Seq<char>, fallback: Seq<char>) -> Seq<char> {
    match json.member(key) {
        Some(JsonView::Text(s)) => s,
        _ => fallback,
    }
}

/// The count under a key, or zero.
pub open spec fn count_or_zero(json: JsonView, key: Seq<char>) -> u64 {
    match json.member(key) {
        Some(value) => match value.as_number() {
            Some(n) => n,
            None => 0,
        },
        None => 0,
    }
}

/// The text under a key, or a stand-in.
pub fn member_text<'a>(json: &'a Json, key: &str, fallback: &'a str) -> (r: &'a str)
    ensures
        r@ == text_or(json@, key@, fallback@),
{
    match json.get(key) {
        Some(value) => match value.as_str() {
            Some(s) => s,
            None => fallback,
        },
        None => fallback,
    }
}

/// The text under a key as it is shown: a question mark where there is none.
pub fn shown_member<'a>(reply: &'a Json, key: &str) -> (r: &'a str)
    ensures
        r@ == text_or(reply@, key@, "?"@),
{
    member_text(reply, key, "?")
}

/// The count under a key: zero where there is none.
pub fn counted_member(reply: &Json, key: &str) -> (r: u64)
    ensures
        r == count_or_zero(reply@, key@),
{
    match reply.get(key) {
        Some(value) => match value.as_u64() {
            Some(n) => n,
            None => 0,
        },
        None => 0,
    }
}

} // verus!
