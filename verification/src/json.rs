//! JSON documents as plain values.

use vstd::prelude::*;

use crate::numbers::{is_all_digits, parse_unsigned};
use crate::numbers::{all_digits, digits_value};
use crate::text::same;

verus! {

/// A JSON value.
#[derive(Debug, PartialEq)]
pub enum Json {
    /// `null`.
    Null,
    /// `true` or `false`.
    Bool(bool),
    /// A number, as it is written.
    Number(String),
    /// A string.
    Text(String),
    /// An array.
    List(Vec<Json>),
    /// An object: its members in the order the document's reader keeps them.
    Object(Vec<(String, Json)>),
}

/// What a [`Json`] holds.
pub enum JsonView {
    /// See [`Json::Null`].
    Null,
    /// See [`Json::Bool`].
    Bool(bool),
    /// See [`Json::Number`].
    Number(Seq<char>),
    /// See [`Json::Text`].
    Text(Seq<char>),
    /// See [`Json::List`].
    List(Seq<JsonView>),
    /// See [`Json::Object`].
    Object(Seq<(Seq<char>, JsonView)>),
}

/// What a JSON value holds.
pub open spec fn json_view(json: Json) -> JsonView
    decreases json,
{
    match json {
        Json::Null => JsonView::Null,
        Json::Bool(b) => JsonView::Bool(b),
        Json::Number(n) => JsonView::Number(n@),
        Json::Text(s) => JsonView::Text(s@),
        Json::List(items) => JsonView::List(
            Seq::new(
                items@.len(),
                |i: int|
                    if 0 <= i < items@.len() {
                        json_view(items@[i])
                    } else {
                        JsonView::Null
                    },
            ),
        ),
        Json::Object(members) => JsonView::Object(
            Seq::new(
                members@.len(),
                |i: int|
                    if 0 <= i < members@.len() {
                        (members@[i].0@, json_view(members@[i].1))
                    } else {
                        (seq![], JsonView::Null)
                    },
            ),
        ),
    }
}

impl View for Json {
    type V = JsonView;

    open spec fn view(&self) -> JsonView {
        json_view(*self)
    }
}

impl DeepView for Json {
    type V = JsonView;

    open spec fn deep_view(&self) -> JsonView {
        self.view()
    }
}

/// The first of the members, at `from` or later, that has the key.
pub open spec fn member_from(
    members: Seq<(Seq<char>, JsonView)>,
    key: Seq<char>,
    from: int,
) -> Option<JsonView>
    decreases members.len() - from,
{
    if from < 0 || from >= members.len() {
        None
    } else if members[from].0 == key {
        Some(members[from].1)
    } else {
        member_from(members, key, from + 1)
    }
}

impl JsonView {
    /// The member of an object under a key.
    pub open spec fn member(self, key: Seq<char>) -> Option<JsonView> {
        match self {
            JsonView::Object(members) => member_from(members, key, 0),
            _ => None,
        }
    }

    /// The text of a string.
    pub open spec fn as_text(self) -> Option<Seq<char>> {
        match self {
            JsonView::Text(s) => Some(s),
            _ => None,
        }
    }

    /// The value of a number that is an unsigned 64-bit integer.
    pub open spec fn as_number(self) -> Option<u64> {
        match self {
            JsonView::Number(n) => if all_digits(n) && digits_value(n) <= u64::MAX {
                Some(digits_value(n) as u64)
            } else {
                None
            },
            _ => None,
        }
    }
}

impl Json {
    /// The member of an object under a key.
    pub fn get(&self, key: &str) -> (r: Option<&Json>)
        ensures
            match (r, self@.member(key@)) {
                (Some(json), Some(expected)) => json@ == expected,
                (None, None) => true,
                _ => false,
            },
    {
        match self {
            Json::Object(members) => {
                let ghost views = self@->Object_0;
                let mut i: usize = 0;
                while i < members.len()
                    invariant
                        i <= members.len(),
                        self@ == JsonView::Object(views),
                        *self == Json::Object(*members),
                        views.len() == members.len(),
                        member_from(views, key@, 0) == member_from(views, key@, i as int),
                    decreases members.len() - i,
                {
                    assert(views[i as int] == (members@[i as int].0@, members@[i as int].1@));
                    if same(members[i].0.as_str(), key) {
                        return Some(&members[i].1);
                    }
                    i = i + 1;
                }
                None
            },
            _ => None,
        }
    }

    /// The text of a string.
    pub fn as_str(&self) -> (r: Option<&str>)
        ensures
            match (r, self@.as_text()) {
                (Some(s), Some(expected)) => s@ == expected,
                (None, None) => true,
                _ => false,
            },
    {
        match self {
            Json::Text(s) => Some(s.as_str()),
            _ => None,
        }
    }

    /// The value of a number that is an unsigned 64-bit integer.
    pub fn as_u64(&self) -> (r: Option<u64>)
        ensures
            r == self@.as_number(),
    {
        match self {
            Json::Number(n) => if is_all_digits(n.as_str()) {
                parse_unsigned(n.as_str())
            } else {
                None
            },
            _ => None,
        }
    }
}

proof fn lemma_member_from(members: Seq<(Seq<char>, JsonView)>, key: Seq<char>, from: int, i: int)
    requires
        0 <= from <= i <= members.len(),
        forall|k: int| from <= k < i ==> (#[trigger] members[k]).0 != key,
        i < members.len() ==> members[i].0 == key,
    ensures
        member_from(members, key, from) == (if i < members.len() {
            Some(members[i].1)
        } else {
            None
        }),
    decreases i - from,
{
    if from < i {
        lemma_member_from(members, key, from + 1, i);
    }
}

/// The member of an object under a key is the first that has the key; without
/// one there is none, nor in anything but an object.
pub proof fn law_members_are_found_by_key(
    value: JsonView,
    members: Seq<(Seq<char>, JsonView)>,
    key: Seq<char>,
)
    ensures
        value !is Object ==> value.member(key) is None,
        value == JsonView::Object(members) ==> {
            &&& forall|i: int|
                0 <= i < members.len() && (#[trigger] members[i]).0 == key && (forall|k: int|
                    0 <= k < i ==> (#[trigger] members[k]).0 != key) ==> value.member(key) == Some(
                    members[i].1,
                )
            &&& (forall|k: int| 0 <= k < members.len() ==> (#[trigger] members[k]).0 != key)
                ==> value.member(key) is None
        },
{
    if value == JsonView::Object(members) {
        assert forall|i: int|
            0 <= i < members.len() && (#[trigger] members[i]).0 == key && (forall|k: int|
                0 <= k < i ==> (#[trigger] members[k]).0 != key) implies value.member(key) == Some(
            members[i].1,
        ) by {
            lemma_member_from(members, key, 0, i);
        }
        if forall|k: int| 0 <= k < members.len() ==> (#[trigger] members[k]).0 != key {
            lemma_member_from(members, key, 0, members.len() as int);
        }
    }
}

} // verus!
