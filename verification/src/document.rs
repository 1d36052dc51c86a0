//! TOML documents as plain values.

use vstd::prelude::*;

use crate::text::same;

verus! {

/// A TOML value.
#[derive(Debug, PartialEq)]
pub enum TomlValue {
    /// A string.
    Text(String),
    /// An integer.
    Integer(i64),
    /// A float, as it is written.
    Float(String),
    /// `true` or `false`.
    Boolean(bool),
    /// A datetime, as it is written.
    Datetime(String),
    /// An array.
    Array(Vec<TomlValue>),
    /// A table: its entries in the order the document's reader keeps them.
    Table(Vec<(String, TomlValue)>),
}

/// What a [`TomlValue`] holds.
pub enum TomlValueView {
    /// See [`TomlValue::Text`].
    Text(Seq<char>),
    /// See [`TomlValue::Integer`].
    Integer(i64),
    /// See [`TomlValue::Float`].
    Float(Seq<char>),
    /// See [`TomlValue::Boolean`].
    Boolean(bool),
    /// See [`TomlValue::Datetime`].
    Datetime(Seq<char>),
    /// See [`TomlValue::Array`].
    Array(Seq<TomlValueView>),
    /// See [`TomlValue::Table`].
    Table(Seq<(Seq<char>, TomlValueView)>),
}

/// What a TOML value holds.
pub open spec fn toml_view(value: TomlValue) -> TomlValueView
    decreases value,
{
    match value {
        TomlValue::Text(s) => TomlValueView::Text(s@),
        TomlValue::Integer(n) => TomlValueView::Integer(n),
        TomlValue::Float(s) => TomlValueView::Float(s@),
        TomlValue::Boolean(b) => TomlValueView::Boolean(b),
        TomlValue::Datetime(s) => TomlValueView::Datetime(s@),
        TomlValue::Array(items) => TomlValueView::Array(
            Seq::new(
                items@.len(),
                |i: int|
                    if 0 <= i < items@.len() {
                        toml_view(items@[i])
                    } else {
                        TomlValueView::Integer(0)
                    },
            ),
        ),
        TomlValue::Table(entries) => TomlValueView::Table(
            Seq::new(
                entries@.len(),
                |i: int|
                    if 0 <= i < entries@.len() {
                        (entries@[i].0@, toml_view(entries@[i].1))
                    } else {
                        (seq![], TomlValueView::Integer(0))
                    },
            ),
        ),
    }
}

impl View for TomlValue {
    type V = TomlValueView;

    open spec fn view(&self) -> TomlValueView {
        toml_view(*self)
    }
}

impl DeepView for TomlValue {
    type V = TomlValueView;

    open spec fn deep_view(&self) -> TomlValueView {
        self.view()
    }
}

/// What stands under a key at the top level, in the first entry with that key
/// at `from` or later.
pub open spec fn entry_from(
    entries: Seq<(Seq<char>, TomlValueView)>,
    key: Seq<char>,
    from: int,
) -> Option<TomlValueView>
    decreases entries.len() - from,
{
    if from < 0 || from >= entries.len() {
        None
    } else if entries[from].0 == key {
        Some(entries[from].1)
    } else {
        entry_from(entries, key, from + 1)
    }
}

/// The text under a key.
pub open spec fn text_under(
    entries: Seq<(Seq<char>, TomlValueView)>,
    key: Seq<char>,
) -> Option<Seq<char>> {
    match entry_from(entries, key, 0) {
        Some(TomlValueView::Text(s)) => Some(s),
        _ => None,
    }
}

/// The integer under a key.
pub open spec fn integer_under(
    entries: Seq<(Seq<char>, TomlValueView)>,
    key: Seq<char>,
) -> Option<i64> {
    match entry_from(entries, key, 0) {
        Some(TomlValueView::Integer(n)) => Some(n),
        _ => None,
    }
}

fn find_entry<'a>(entries: &'a Vec<(String, TomlValue)>, key: &str) -> (r: Option<&'a TomlValue>)
    ensures
        match (r, entry_from(entries.deep_view(), key@, 0)) {
            (Some(value), Some(expected)) => value@ == expected,
            (None, None) => true,
            _ => false,
        },
{
    let ghost views = entries.deep_view();
    let mut i: usize = 0;
    while i < entries.len()
        invariant
            i <= entries.len(),
            views == entries.deep_view(),
            entry_from(views, key@, 0) == entry_from(views, key@, i as int),
        decreases entries.len() - i,
    {
        assert(views[i as int] == (entries@[i as int].0@, entries@[i as int].1@));
        if same(entries[i].0.as_str(), key) {
            return Some(&entries[i].1);
        }
        i = i + 1;
    }
    None
}

/// The text under a key.
pub fn find_text(entries: &Vec<(String, TomlValue)>, key: &str) -> (r: Option<String>)
    ensures
        r.deep_view() == text_under(entries.deep_view(), key@),
{
    match find_entry(entries, key) {
        Some(TomlValue::Text(s)) => Some(s.clone()),
        _ => None,
    }
}

/// The integer under a key.
pub fn find_integer(entries: &Vec<(String, TomlValue)>, key: &str) -> (r: Option<i64>)
    ensures
        r == integer_under(entries.deep_view(), key@),
{
    match find_entry(entries, key) {
        Some(TomlValue::Integer(n)) => Some(*n),
        _ => None,
    }
}

proof fn lemma_entry_from(
    entries: Seq<(Seq<char>, TomlValueView)>,
    key: Seq<char>,
    from: int,
    i: int,
)
    requires
        0 <= from <= i <= entries.len(),
        forall|k: int| from <= k < i ==> (#[trigger] entries[k]).0 != key,
        i < entries.len() ==> entries[i].0 == key,
    ensures
        entry_from(entries, key, from) == (if i < entries.len() {
            Some(entries[i].1)
        } else {
            None
        }),
    decreases i - from,
{
    if from < i {
        lemma_entry_from(entries, key, from + 1, i);
    }
}

/// A text or an integer is found under its key, and where nothing has the key
/// nothing is found.
pub proof fn law_entries_are_found_by_key(entries: Seq<(Seq<char>, TomlValueView)>, key: Seq<char>)
    ensures
        forall|i: int|
            0 <= i < entries.len() && (#[trigger] entries[i]).0 == key && (forall|k: int|
                0 <= k < i ==> (#[trigger] entries[k]).0 != key) ==> {
                &&& entries[i].1 is Text ==> text_under(entries, key) == Some(entries[i].1->Text_0)
                &&& entries[i].1 !is Text ==> text_under(entries, key) is None
                &&& entries[i].1 is Integer ==> integer_under(entries, key) == Some(
                    entries[i].1->Integer_0,
                )
                &&& entries[i].1 !is Integer ==> integer_under(entries, key) is None
            },
        (forall|k: int| 0 <= k < entries.len() ==> (#[trigger] entries[k]).0 != key)
            ==> text_under(entries, key) is None && integer_under(entries, key) is None,
{
    assert forall|i: int|
        0 <= i < entries.len() && (#[trigger] entries[i]).0 == key && (forall|k: int|
            0 <= k < i ==> (#[trigger] entries[k]).0 != key) implies {
        &&& entries[i].1 is Text ==> text_under(entries, key) == Some(entries[i].1->Text_0)
        &&& entries[i].1 !is Text ==> text_under(entries, key) is None
        &&& entries[i].1 is Integer ==> integer_under(entries, key) == Some(
            entries[i].1->Integer_0,
        )
        &&& entries[i].1 !is Integer ==> integer_under(entries, key) is None
    } by {
        lemma_entry_from(entries, key, 0, i);
    }
    if forall|k: int| 0 <= k < entries.len() ==> (#[trigger] entries[k]).0 != key {
        lemma_entry_from(entries, key, 0, entries.len() as int);
    }
}

} // verus!
