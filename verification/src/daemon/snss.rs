//! Minimal reader for chromium's SNSS session files — just enough to list
//! the open tabs of a browser window at capture time.
//!
//! Chromium continuously journals its session to
//! `<profile>/Sessions/Session_<timestamp>` as a command log: fixed-header
//! records (u16 size, u8 command id) whose payloads are either raw structs
//! or "pickles" (u32 payload size, then 4-byte-aligned fields). Replaying
//! the commands of the newest file yields the live windows and their tabs.
//! Only the handful of commands needed for tab URLs are interpreted; all
//! others are skipped by size. Covers SNSS versions 1 and 3.

use vstd::prelude::*;
use vstd::slice::slice_to_vec;

use crate::outside::{from_utf16_lossy, from_utf8_lossy};
use crate::outside::{utf16_text, utf8_text};
use crate::text::{
    chars, comes_before, decimal_digit, ends_with, position_from, same, starts_with, text_range,
};
use crate::text::{
    begins, find_from, finishes, is_digit, lemma_find_from, lemma_precedes_total,
    lemma_precedes_transitive, precedes,
};

verus! {

// ---- numbers ------------------------------------------------------------------------------

/// The 16-bit number that two bytes hold, the low one first.
pub open spec fn word(s: Seq<u8>) -> nat {
    (s[0] + 256 * s[1]) as nat
}

/// The 32-bit number that four bytes hold, the lowest first.
pub open spec fn long_word(s: Seq<u8>) -> int {
    s[0] + 0x100 * s[1] + 0x1_0000 * s[2] + 0x100_0000 * s[3]
}

/// The signed 32-bit number that bytes begin with, in two's complement and
/// with the lowest byte first.
pub open spec fn raw_number(s: Seq<u8>) -> Option<i32> {
    if s.len() < 4 {
        None
    } else if long_word(s) < 0x8000_0000 {
        Some(long_word(s) as i32)
    } else {
        Some((long_word(s) - 0x1_0000_0000) as i32)
    }
}

/// The two numbers that bytes begin with.
pub open spec fn raw_numbers(s: Seq<u8>) -> Option<(i32, i32)> {
    match (raw_number(s), raw_number(s.skip(4))) {
        (Some(a), Some(b)) => if s.len() >= 4 {
            Some((a, b))
        } else {
            None
        },
        _ => None,
    }
}

fn number_at(data: &Vec<u8>, at: usize, end: usize) -> (r: Option<i32>)
    requires
        at <= end <= data.len(),
    ensures
        r == raw_number(data@.subrange(at as int, end as int)),
{
    let ghost s = data@.subrange(at as int, end as int);
    if end - at < 4 {
        return None;
    }
    assert(s[0] == data@[at as int] && s[1] == data@[at + 1] && s[2] == data@[at + 2] && s[3]
        == data@[at + 3]);
    let low: u32 = data[at] as u32 + 0x100 * (data[at + 1] as u32);
    let high: u32 = data[at + 2] as u32 + 0x100 * (data[at + 3] as u32);
    let value: u32 = low + 0x1_0000 * high;
    assert(value == long_word(s));
    if value < 0x8000_0000 {
        Some(value as i32)
    } else {
        Some((value as i64 - 0x1_0000_0000) as i32)
    }
}

fn numbers_at(data: &Vec<u8>, at: usize, end: usize) -> (r: Option<(i32, i32)>)
    requires
        at <= end <= data.len(),
    ensures
        r == raw_numbers(data@.subrange(at as int, end as int)),
{
    let ghost s = data@.subrange(at as int, end as int);
    let a: i32 = match number_at(data, at, end) {
        Some(a) => a,
        None => {
            return None;
        },
    };
    assert(s.skip(4) =~= data@.subrange(at + 4, end as int));
    match number_at(data, at + 4, end) {
        Some(b) => Some((a, b)),
        None => None,
    }
}

// ---- the log ------------------------------------------------------------------------------

/// The records of a log: size, command id and payload, up to the first that
/// is cut off or empty.
pub open spec fn records(s: Seq<u8>) -> Seq<(u8, Seq<u8>)>
    decreases s.len(),
{
    if s.len() < 2 || word(s) == 0 || s.len() < 2 + word(s) {
        seq![]
    } else {
        let end = 2 + word(s) as int;
        seq![(s[2], s.subrange(3, end))] + records(s.skip(end))
    }
}

/// Whether bytes begin as a session file does.
pub open spec fn is_session_file(data: Seq<u8>) -> bool {
    data.len() >= 8 && data[0] == 0x53 && data[1] == 0x4e && data[2] == 0x53 && data[3] == 0x53
}

/// The commands of a session file, none for bytes that are not one.
pub open spec fn commands(data: Seq<u8>) -> Seq<(u8, Seq<u8>)> {
    if is_session_file(data) {
        records(data.skip(8))
    } else {
        seq![]
    }
}

// ---- pickles ------------------------------------------------------------------------------

/// A length rounded up to a multiple of four.
pub open spec fn aligned(n: int) -> int {
    n + (4 - n % 4) % 4
}

/// What is left of bytes behind a field of a length, with its padding.
pub open spec fn behind_field(s: Seq<u8>, n: int) -> Seq<u8> {
    if aligned(n) <= s.len() {
        s.skip(aligned(n))
    } else {
        seq![]
    }
}

/// A text field: its length in bytes and its bytes, and what is left.
pub open spec fn text_field(s: Seq<u8>) -> Option<(Seq<char>, Seq<u8>)> {
    match raw_number(s) {
        Some(n) => if 0 <= n <= s.skip(4).len() {
            Some((utf8_text(s.skip(4).take(n as int)), behind_field(s.skip(4), n as int)))
        } else {
            None
        },
        None => None,
    }
}

/// The 16-bit units that bytes hold.
pub open spec fn units(s: Seq<u8>) -> Seq<u16> {
    Seq::new(s.len() / 2, |i: int| (s[2 * i] + 256 * s[2 * i + 1]) as u16)
}

/// A text field of 16-bit units: its length in units and its bytes, and what
/// is left.
pub open spec fn wide_text_field(s: Seq<u8>) -> Option<(Seq<char>, Seq<u8>)> {
    match raw_number(s) {
        Some(n) => if 0 <= n && 2 * n <= s.skip(4).len() {
            Some(
                (
                    utf16_text(units(s.skip(4).take(2 * n as int))),
                    behind_field(s.skip(4), 2 * n as int),
                ),
            )
        } else {
            None
        },
        None => None,
    }
}

/// A navigation entry: tab, index, url and title.
pub open spec fn navigation(payload: Seq<u8>) -> Option<(i32, i32, Seq<char>, Seq<char>)> {
    if payload.len() < 4 {
        None
    } else {
        let fields = payload.skip(4);
        match raw_numbers(fields) {
            Some((tab, index)) => match text_field(fields.skip(8)) {
                Some((url, rest)) => match wide_text_field(rest) {
                    Some((title, _)) => Some((tab, index, url, title)),
                    None => None,
                },
                None => None,
            },
            None => None,
        }
    }
}

/// A reader of the bytes from `at` up to `end`.
struct Pickle {
    at: usize,
    end: usize,
}

impl Pickle {
    spec fn rest(self, data: Seq<u8>) -> Seq<u8> {
        data.subrange(self.at as int, self.end as int)
    }

    fn skip_field(&mut self, data: &Vec<u8>, n: usize)
        requires
            old(self).at + n <= old(self).end,
            old(self).end <= data.len(),
        ensures
            final(self).end == old(self).end,
            final(self).at <= final(self).end,
            final(self).rest(data@) == behind_field(old(self).rest(data@), n as int),
    {
        let room: usize = self.end - self.at;
        let padding: usize = (4 - n % 4) % 4;
        let ghost before = self.rest(data@);
        if padding <= room - n {
            self.at = self.at + n + padding;
            assert(self.rest(data@) =~= before.skip(aligned(n as int)));
        } else {
            self.at = self.end;
            assert(self.rest(data@) =~= seq![]);
        }
    }

    fn read_string(&mut self, data: &Vec<u8>) -> (r: Option<String>)
        requires
            old(self).at <= old(self).end <= data.len(),
        ensures
            final(self).end == old(self).end,
            final(self).at <= final(self).end,
            match (r, text_field(old(self).rest(data@))) {
                (Some(s), Some((text, rest))) => s@ == text && final(self).rest(data@) == rest,
                (None, None) => true,
                _ => false,
            },
    {
        let ghost before = self.rest(data@);
        let n: i32 = match number_at(data, self.at, self.end) {
            Some(n) => n,
            None => {
                return None;
            },
        };
        let start: usize = self.at + 4;
        assert(before.skip(4) =~= data@.subrange(start as int, self.end as int));
        if n < 0 || n as usize > self.end - start {
            return None;
        }
        self.at = start;
        let n: usize = n as usize;
        let bytes = bytes_of(data, start, start + n);
        assert(bytes@ =~= before.skip(4).take(n as int));
        self.skip_field(data, n);
        Some(from_utf8_lossy(bytes.as_slice()))
    }

    fn read_string16(&mut self, data: &Vec<u8>) -> (r: Option<String>)
        requires
            old(self).at <= old(self).end <= data.len(),
        ensures
            final(self).end == old(self).end,
            final(self).at <= final(self).end,
            match (r, wide_text_field(old(self).rest(data@))) {
                (Some(s), Some((text, rest))) => s@ == text && final(self).rest(data@) == rest,
                (None, None) => true,
                _ => false,
            },
    {
        let ghost before = self.rest(data@);
        let n: i32 = match number_at(data, self.at, self.end) {
            Some(n) => n,
            None => {
                return None;
            },
        };
        let start: usize = self.at + 4;
        assert(before.skip(4) =~= data@.subrange(start as int, self.end as int));
        if n < 0 || n as usize > (self.end - start) / 2 {
            return None;
        }
        self.at = start;
        let n: usize = n as usize;
        let ghost bytes = before.skip(4).take(2 * n as int);
        let mut out: Vec<u16> = Vec::new();
        let mut i: usize = 0;
        while i < n
            invariant
                i <= n,
                start + 2 * n <= data.len(),
                bytes == data@.subrange(start as int, start + 2 * n),
                out.len() == i,
                forall|k: int| 0 <= k < i ==> #[trigger] out@[k] == units(bytes)[k],
            decreases n - i,
        {
            assert(bytes[2 * i] == data@[start + 2 * i]);
            assert(bytes[2 * i + 1] == data@[start + 2 * i + 1]);
            out.push(data[start + 2 * i] as u16 + 256 * (data[start + 2 * i + 1] as u16));
            i = i + 1;
        }
        assert(out@ =~= units(bytes));
        self.skip_field(data, 2 * n);
        Some(from_utf16_lossy(out.as_slice()))
    }
}

fn bytes_of(data: &Vec<u8>, from: usize, to: usize) -> (r: Vec<u8>)
    requires
        from <= to <= data.len(),
    ensures
        r@ == data@.subrange(from as int, to as int),
{
    let mut out: Vec<u8> = Vec::new();
    let mut i: usize = from;
    while i < to
        invariant
            from <= i <= to <= data.len(),
            out@ == data@.subrange(from as int, i as int),
        decreases to - i,
    {
        out.push(data[i]);
        i = i + 1;
        assert(out@ =~= data@.subrange(from as int, i as int));
    }
    out
}

fn read_navigation(data: &Vec<u8>, at: usize, end: usize) -> (r: Option<(i32, i32, String, String)>)
    requires
        at <= end <= data.len(),
    ensures
        match (r, navigation(data@.subrange(at as int, end as int))) {
            (Some((tab, index, url, title)), Some(expected)) => (tab, index, url@, title@)
                == expected,
            (None, None) => true,
            _ => false,
        },
{
    let ghost payload = data@.subrange(at as int, end as int);
    if end - at < 4 {
        return None;
    }
    assert(payload.skip(4) =~= data@.subrange(at + 4, end as int));
    let (tab, index) = match numbers_at(data, at + 4, end) {
        Some((tab, index)) => (tab, index),
        None => {
            return None;
        },
    };
    assert(payload.skip(4).len() >= 8);
    let mut pickle = Pickle { at: at + 12, end };
    assert(payload.skip(4).skip(8) =~= pickle.rest(data@));
    let url = match pickle.read_string(data) {
        Some(url) => url,
        None => {
            return None;
        },
    };
    let title = match pickle.read_string16(data) {
        Some(title) => title,
        None => {
            return None;
        },
    };
    Some((tab, index, url, title))
}

// ---- the replay ---------------------------------------------------------------------------

const SET_TAB_WINDOW: u8 = 0;

const SET_TAB_INDEX_IN_WINDOW: u8 = 2;

const UPDATE_TAB_NAVIGATION: u8 = 6;

const SET_SELECTED_NAVIGATION_INDEX: u8 = 7;

const SET_SELECTED_TAB_IN_INDEX: u8 = 8;

const TAB_CLOSED: u8 = 16;

const WINDOW_CLOSED: u8 = 17;

/// What a command log has said so far.
#[verifier::ext_equal]
pub struct ReplayView {
    /// The window of each tab.
    pub tab_window: Map<i32, i32>,
    /// The strip index of each tab.
    pub tab_index: Map<i32, i32>,
    /// Url and title of each tab's navigation entries.
    pub navs: Map<(i32, i32), (Seq<char>, Seq<char>)>,
    /// The selected navigation entry of each tab.
    pub selected_nav: Map<i32, i32>,
    /// The strip index of each window's selected tab.
    pub selected_tab: Map<i32, i32>,
    /// The tabs that were closed.
    pub closed_tabs: Set<i32>,
    /// The windows that were closed.
    pub closed_windows: Set<i32>,
}

impl ReplayView {
    /// Before the first command.
    pub open spec fn blank() -> ReplayView {
        ReplayView {
            tab_window: Map::empty(),
            tab_index: Map::empty(),
            navs: Map::empty(),
            selected_nav: Map::empty(),
            selected_tab: Map::empty(),
            closed_tabs: Set::empty(),
            closed_windows: Set::empty(),
        }
    }

    /// After one more command. A payload that is too short says nothing.
    pub open spec fn after(self, id: u8, payload: Seq<u8>) -> ReplayView {
        if id == 0 {
            match raw_numbers(payload) {
                Some((window, tab)) => ReplayView {
                    tab_window: self.tab_window.insert(tab, window),
                    closed_tabs: self.closed_tabs.remove(tab),
                    closed_windows: self.closed_windows.remove(window),
                    ..self
                },
                None => self,
            }
        } else if id == 2 {
            match raw_numbers(payload) {
                Some((tab, index)) => ReplayView {
                    tab_index: self.tab_index.insert(tab, index),
                    ..self
                },
                None => self,
            }
        } else if id == 6 {
            match navigation(payload) {
                Some((tab, index, url, title)) => ReplayView {
                    navs: self.navs.insert((tab, index), (url, title)),
                    ..self
                },
                None => self,
            }
        } else if id == 7 {
            match raw_numbers(payload) {
                Some((tab, index)) => ReplayView {
                    selected_nav: self.selected_nav.insert(tab, index),
                    ..self
                },
                None => self,
            }
        } else if id == 8 {
            match raw_numbers(payload) {
                Some((window, index)) => ReplayView {
                    selected_tab: self.selected_tab.insert(window, index),
                    ..self
                },
                None => self,
            }
        } else if id == 16 {
            match raw_number(payload) {
                Some(tab) => ReplayView { closed_tabs: self.closed_tabs.insert(tab), ..self },
                None => self,
            }
        } else if id == 17 {
            match raw_number(payload) {
                Some(window) => ReplayView {
                    closed_windows: self.closed_windows.insert(window),
                    ..self
                },
                None => self,
            }
        } else {
            self
        }
    }

    /// After a list of commands.
    pub open spec fn after_all(self, log: Seq<(u8, Seq<u8>)>) -> ReplayView
        decreases log.len(),
    {
        if log.len() == 0 {
            self
        } else {
            self.after(log[0].0, log[0].1).after_all(log.skip(1))
        }
    }

    /// Whether a tab of a window is open.
    pub open spec fn is_open(self, tab: i32, window: i32) -> bool {
        &&& self.tab_window.dom().contains(tab)
        &&& self.tab_window[tab] == window
        &&& !self.closed_tabs.contains(tab)
        &&& !self.closed_windows.contains(window)
    }

    /// Whether an entry is the highest one recorded for a tab.
    pub open spec fn is_highest(self, tab: i32, index: i32) -> bool {
        &&& self.navs.dom().contains((tab, index))
        &&& forall|other: i32| #[trigger]
            self.navs.dom().contains((tab, other)) ==> other <= index
    }

    /// The entry that a tab shows: the selected one, else the highest one
    /// recorded.
    pub open spec fn shown_entry(self, tab: i32) -> Option<i32> {
        if self.selected_nav.dom().contains(tab) && self.navs.dom().contains(
            (tab, self.selected_nav[tab]),
        ) {
            Some(self.selected_nav[tab])
        } else if exists|index: i32| self.is_highest(tab, index) {
            Some(choose|index: i32| self.is_highest(tab, index))
        } else {
            None
        }
    }

    /// What a tab looks like: strip index, url and title.
    pub open spec fn shown_tab(self, tab: i32) -> (i32, Seq<char>, Seq<char>) {
        let page = self.navs[(tab, self.shown_entry(tab)->0)];
        (
            if self.tab_index.dom().contains(tab) {
                self.tab_index[tab]
            } else {
                0
            },
            page.0,
            page.1,
        )
    }

    /// Whether a tab shows up in a window: it is open and has a page.
    pub open spec fn shows(self, tab: i32, window: i32) -> bool {
        self.is_open(tab, window) && self.shown_entry(tab) is Some
    }
}

/// The newest of pairs by their first parts.
spec fn newest(rows: Seq<(i32, i32)>) -> Map<i32, i32>
    decreases rows.len(),
{
    if rows.len() == 0 {
        Map::empty()
    } else {
        newest(rows.drop_last()).insert(rows.last().0, rows.last().1)
    }
}

/// What is marked after a list of marks set and taken away.
spec fn marked(rows: Seq<(i32, bool)>) -> Set<i32>
    decreases rows.len(),
{
    if rows.len() == 0 {
        Set::empty()
    } else if rows.last().1 {
        marked(rows.drop_last()).insert(rows.last().0)
    } else {
        marked(rows.drop_last()).remove(rows.last().0)
    }
}

/// One navigation entry.
struct Page {
    tab: i32,
    index: i32,
    url: String,
    title: String,
}

/// The newest of navigation entries by tab and index.
spec fn newest_pages(rows: Seq<Page>) -> Map<(i32, i32), (Seq<char>, Seq<char>)>
    decreases rows.len(),
{
    if rows.len() == 0 {
        Map::empty()
    } else {
        let page = rows.last();
        newest_pages(rows.drop_last()).insert((page.tab, page.index), (page.url@, page.title@))
    }
}

fn lookup(rows: &Vec<(i32, i32)>, key: i32) -> (r: Option<i32>)
    ensures
        match r {
            Some(value) => newest(rows@).dom().contains(key) && newest(rows@)[key] == value,
            None => !newest(rows@).dom().contains(key),
        },
{
    let mut i: usize = rows.len();
    assert(rows@.take(i as int) =~= rows@);
    while i > 0
        invariant
            i <= rows.len(),
            newest(rows@).dom().contains(key) == newest(rows@.take(i as int)).dom().contains(key),
            newest(rows@)[key] == newest(rows@.take(i as int))[key],
        decreases i,
    {
        assert(rows@.take(i as int).drop_last() =~= rows@.take(i - 1));
        if rows[i - 1].0 == key {
            return Some(rows[i - 1].1);
        }
        i = i - 1;
    }
    assert(rows@.take(0) =~= seq![]);
    None
}

fn is_marked(rows: &Vec<(i32, bool)>, key: i32) -> (r: bool)
    ensures
        r == marked(rows@).contains(key),
{
    let mut i: usize = rows.len();
    assert(rows@.take(i as int) =~= rows@);
    while i > 0
        invariant
            i <= rows.len(),
            marked(rows@).contains(key) == marked(rows@.take(i as int)).contains(key),
        decreases i,
    {
        assert(rows@.take(i as int).drop_last() =~= rows@.take(i - 1));
        if rows[i - 1].0 == key {
            return rows[i - 1].1;
        }
        i = i - 1;
    }
    assert(rows@.take(0) =~= seq![]);
    false
}

fn find_page(rows: &Vec<Page>, tab: i32, index: i32) -> (r: Option<usize>)
    ensures
        match r {
            Some(i) => i < rows.len() && newest_pages(rows@).dom().contains((tab, index))
                && newest_pages(rows@)[(tab, index)] == (rows@[i as int].url@, rows@[i as int].title@),
            None => !newest_pages(rows@).dom().contains((tab, index)),
        },
{
    let mut i: usize = rows.len();
    assert(rows@.take(i as int) =~= rows@);
    while i > 0
        invariant
            i <= rows.len(),
            newest_pages(rows@).dom().contains((tab, index)) == newest_pages(
                rows@.take(i as int),
            ).dom().contains((tab, index)),
            newest_pages(rows@)[(tab, index)] == newest_pages(rows@.take(i as int))[(tab, index)],
        decreases i,
    {
        assert(rows@.take(i as int).drop_last() =~= rows@.take(i - 1));
        if rows[i - 1].tab == tab && rows[i - 1].index == index {
            return Some(i - 1);
        }
        i = i - 1;
    }
    assert(rows@.take(0) =~= seq![]);
    None
}

proof fn lemma_page_recorded(rows: Seq<Page>, key: (i32, i32))
    ensures
        newest_pages(rows).dom().contains(key) <==> exists|i: int|
            0 <= i < rows.len() && (#[trigger] rows[i]).tab == key.0 && rows[i].index == key.1,
    decreases rows.len(),
{
    if rows.len() > 0 {
        let front = rows.drop_last();
        lemma_page_recorded(front, key);
        if newest_pages(front).dom().contains(key) {
            let i = choose|i: int|
                0 <= i < front.len() && (#[trigger] front[i]).tab == key.0 && front[i].index
                    == key.1;
            assert(rows[i] == front[i]);
        }
        if rows.last().tab == key.0 && rows.last().index == key.1 {
            assert(rows[rows.len() - 1].tab == key.0);
        }
        if exists|i: int|
            0 <= i < rows.len() && (#[trigger] rows[i]).tab == key.0 && rows[i].index == key.1 {
            let i = choose|i: int|
                0 <= i < rows.len() && (#[trigger] rows[i]).tab == key.0 && rows[i].index == key.1;
            if i < front.len() {
                assert(front[i] == rows[i]);
            }
        }
    }
}

/// What a command log has said so far: for each kind of statement all of them
/// in order, of which the newest counts.
struct Replay {
    tab_window: Vec<(i32, i32)>,
    tab_index: Vec<(i32, i32)>,
    navs: Vec<Page>,
    selected_nav: Vec<(i32, i32)>,
    selected_tab: Vec<(i32, i32)>,
    closed_tabs: Vec<(i32, bool)>,
    closed_windows: Vec<(i32, bool)>,
}

impl Replay {
    spec fn said(self) -> ReplayView {
        ReplayView {
            tab_window: newest(self.tab_window@),
            tab_index: newest(self.tab_index@),
            navs: newest_pages(self.navs@),
            selected_nav: newest(self.selected_nav@),
            selected_tab: newest(self.selected_tab@),
            closed_tabs: marked(self.closed_tabs@),
            closed_windows: marked(self.closed_windows@),
        }
    }

    fn apply(&mut self, id: u8, data: &Vec<u8>, at: usize, end: usize)
        requires
            at <= end <= data.len(),
        ensures
            final(self).said() == old(self).said().after(
                id,
                data@.subrange(at as int, end as int),
            ),
    {
        let ghost before = *self;
        if id == SET_TAB_WINDOW {
            if let Some((window, tab)) = numbers_at(data, at, end) {
                self.tab_window.push((tab, window));
                self.closed_tabs.push((tab, false));
                self.closed_windows.push((window, false));
                assert(self.tab_window@.drop_last() =~= before.tab_window@);
                assert(self.closed_tabs@.drop_last() =~= before.closed_tabs@);
                assert(self.closed_windows@.drop_last() =~= before.closed_windows@);
            }
        } else if id == SET_TAB_INDEX_IN_WINDOW {
            if let Some((tab, index)) = numbers_at(data, at, end) {
                self.tab_index.push((tab, index));
                assert(self.tab_index@.drop_last() =~= before.tab_index@);
            }
        } else if id == UPDATE_TAB_NAVIGATION {
            if let Some((tab, index, url, title)) = read_navigation(data, at, end) {
                self.navs.push(Page { tab, index, url, title });
                assert(self.navs@.drop_last() =~= before.navs@);
            }
        } else if id == SET_SELECTED_NAVIGATION_INDEX {
            if let Some((tab, index)) = numbers_at(data, at, end) {
                self.selected_nav.push((tab, index));
                assert(self.selected_nav@.drop_last() =~= before.selected_nav@);
            }
        } else if id == SET_SELECTED_TAB_IN_INDEX {
            if let Some((window, index)) = numbers_at(data, at, end) {
                self.selected_tab.push((window, index));
                assert(self.selected_tab@.drop_last() =~= before.selected_tab@);
            }
        } else if id == TAB_CLOSED {
            if let Some(tab) = number_at(data, at, end) {
                self.closed_tabs.push((tab, true));
                assert(self.closed_tabs@.drop_last() =~= before.closed_tabs@);
            }
        } else if id == WINDOW_CLOSED {
            if let Some(window) = number_at(data, at, end) {
                self.closed_windows.push((window, true));
                assert(self.closed_windows@.drop_last() =~= before.closed_windows@);
            }
        }
    }

    fn of(data: &Vec<u8>) -> (r: Self)
        ensures
            r.said() == ReplayView::blank().after_all(commands(data@)),
    {
        let mut replay = Replay {
            tab_window: Vec::new(),
            tab_index: Vec::new(),
            navs: Vec::new(),
            selected_nav: Vec::new(),
            selected_tab: Vec::new(),
            closed_tabs: Vec::new(),
            closed_windows: Vec::new(),
        };
        assert(replay.said() =~= ReplayView::blank());
        if data.len() < 8 || data[0] != 0x53 || data[1] != 0x4e || data[2] != 0x53 || data[3]
            != 0x53 {
            return replay;
        }
        let ghost wanted = ReplayView::blank().after_all(records(data@.skip(8)));
        let mut at: usize = 8;
        loop
            invariant
                at <= data.len(),
                wanted == replay.said().after_all(records(data@.skip(at as int))),
            ensures
                wanted == replay.said(),
            decreases data.len() - at,
        {
            let ghost rest = data@.skip(at as int);
            let ghost log = records(rest);
            if data.len() - at < 2 {
                break;
            }
            let size: usize = data[at] as usize + 256 * (data[at + 1] as usize);
            assert(size == word(rest));
            if size == 0 || size > data.len() - at - 2 {
                break;
            }
            let end: usize = at + 2 + size;
            assert(rest.subrange(3, 2 + size) =~= data@.subrange(at + 3, end as int));
            assert(rest.skip(2 + size) =~= data@.skip(end as int));
            assert(log.skip(1) =~= records(data@.skip(end as int)));
            replay.apply(data[at + 2], data, at + 3, end);
            at = end;
        }
        replay
    }

    fn shown_entry(&self, tab: i32) -> (r: Option<usize>)
        ensures
            match (r, self.said().shown_entry(tab)) {
                (Some(i), Some(index)) => i < self.navs.len() && self.said().navs[(tab, index)]
                    == (self.navs@[i as int].url@, self.navs@[i as int].title@),
                (None, None) => true,
                _ => false,
            },
    {
        if let Some(index) = lookup(&self.selected_nav, tab) {
            if let Some(i) = find_page(&self.navs, tab, index) {
                return Some(i);
            }
        }
        let ghost said = self.said();
        let mut best: Option<i32> = None;
        let mut i: usize = 0;
        while i < self.navs.len()
            invariant
                i <= self.navs.len(),
                match best {
                    Some(index) => {
                        &&& exists|k: int|
                            0 <= k < i && (#[trigger] self.navs@[k]).tab == tab
                                && self.navs@[k].index == index
                        &&& forall|k: int|
                            0 <= k < i && (#[trigger] self.navs@[k]).tab == tab
                                ==> self.navs@[k].index <= index
                    },
                    None => forall|k: int| 0 <= k < i ==> (#[trigger] self.navs@[k]).tab != tab,
                },
            decreases self.navs.len() - i,
        {
            if self.navs[i].tab == tab {
                let index: i32 = self.navs[i].index;
                let better = match best {
                    Some(other) => index > other,
                    None => true,
                };
                if better {
                    assert(self.navs@[i as int].tab == tab && self.navs@[i as int].index == index);
                    best = Some(index);
                }
            }
            i = i + 1;
        }
        match best {
            Some(index) => {
                proof {
                    lemma_page_recorded(self.navs@, (tab, index));
                    assert forall|other: i32| #[trigger]
                        said.navs.dom().contains((tab, other)) implies other <= index by {
                        lemma_page_recorded(self.navs@, (tab, other));
                    }
                    assert(said.is_highest(tab, index));
                    let chosen = choose|index: i32| said.is_highest(tab, index);
                    assert(said.navs.dom().contains((tab, chosen)));
                    assert(chosen == index);
                }
                find_page(&self.navs, tab, index)
            },
            None => {
                proof {
                    assert forall|index: i32| !said.is_highest(tab, index) by {
                        lemma_page_recorded(self.navs@, (tab, index));
                    }
                }
                None
            },
        }
    }
}

// ---- the open windows ---------------------------------------------------------------------

/// One open browser window: tabs in strip order.
#[derive(Debug, PartialEq)]
pub struct BrowserWindow {
    /// `(strip index, url, title)` per tab, sorted by strip index.
    pub tabs: Vec<(i32, String, String)>,
    /// Strip index of the selected (foreground) tab.
    pub selected_index: Option<i32>,
}

/// What a [`BrowserWindow`] holds.
#[verifier::ext_equal]
pub struct BrowserWindowView {
    /// See [`BrowserWindow::tabs`].
    pub tabs: Seq<(i32, Seq<char>, Seq<char>)>,
    /// See [`BrowserWindow::selected_index`].
    pub selected_index: Option<i32>,
}

/// The tabs of a window.
pub open spec fn tab_views(tabs: Seq<(i32, String, String)>) -> Seq<(i32, Seq<char>, Seq<char>)> {
    Seq::new(tabs.len(), |i: int| (tabs[i].0, tabs[i].1@, tabs[i].2@))
}

impl View for BrowserWindow {
    type V = BrowserWindowView;

    open spec fn view(&self) -> BrowserWindowView {
        BrowserWindowView {
            tabs: tab_views(self.tabs@),
            selected_index: self.selected_index,
        }
    }
}

impl DeepView for BrowserWindow {
    type V = BrowserWindowView;

    open spec fn deep_view(&self) -> BrowserWindowView {
        self.view()
    }
}

/// Whether a tab stands before another: by strip index, then url, then title.
pub open spec fn tab_before(
    a: (i32, Seq<char>, Seq<char>),
    b: (i32, Seq<char>, Seq<char>),
) -> bool {
    a.0 < b.0 || a.0 == b.0 && (precedes(a.1, b.1) || a.1 == b.1 && precedes(a.2, b.2))
}

/// Whether tabs stand in order.
pub open spec fn in_strip_order(tabs: Seq<(i32, Seq<char>, Seq<char>)>) -> bool {
    forall|i: int, j: int|
        0 <= i < j < tabs.len() ==> !tab_before(#[trigger] tabs[j], #[trigger] tabs[i])
}

/// Tabs as they are shown.
pub open spec fn shown_tabs(replay: ReplayView, order: Seq<i32>) -> Seq<
    (i32, Seq<char>, Seq<char>),
> {
    Seq::new(order.len(), |i: int| replay.shown_tab(order[i]))
}

/// Whether tab ids are those that show up in a window, each once.
pub open spec fn are_tabs_of(replay: ReplayView, window: i32, order: Seq<i32>) -> bool {
    &&& order.no_duplicates()
    &&& forall|tab: i32| #[trigger] order.contains(tab) <==> replay.shows(tab, window)
}

/// Whether a window is what a replay gives: exactly the tabs that show up in
/// it, in strip order, and its selected tab.
pub open spec fn is_window_of(replay: ReplayView, id: i32, window: BrowserWindowView) -> bool {
    &&& in_strip_order(window.tabs)
    &&& exists|order: Seq<i32>| #[trigger]
        are_tabs_of(replay, id, order) && window.tabs == shown_tabs(replay, order)
    &&& window.selected_index == (if replay.selected_tab.dom().contains(id) {
        Some(replay.selected_tab[id])
    } else {
        None
    })
}

/// Whether a window has a tab that shows up.
pub open spec fn has_tabs(replay: ReplayView, window: i32) -> bool {
    exists|tab: i32| #[trigger] replay.shows(tab, window)
}

/// Whether windows are those that a replay leaves open: one for each that has
/// tabs, by ascending id.
pub open spec fn are_windows_of(
    replay: ReplayView,
    windows: Seq<(i32, BrowserWindowView)>,
) -> bool {
    &&& forall|i: int, j: int|
        0 <= i < j < windows.len() ==> (#[trigger] windows[i]).0 < (#[trigger] windows[j]).0
    &&& forall|i: int|
        0 <= i < windows.len() ==> has_tabs(replay, (#[trigger] windows[i]).0) && is_window_of(
            replay,
            windows[i].0,
            windows[i].1,
        )
    &&& forall|id: i32| #[trigger]
        has_tabs(replay, id) ==> exists|i: int|
            0 <= i < windows.len() && (#[trigger] windows[i]).0 == id
}

proof fn lemma_tab_order(
    a: (i32, Seq<char>, Seq<char>),
    b: (i32, Seq<char>, Seq<char>),
    c: (i32, Seq<char>, Seq<char>),
)
    ensures
        tab_before(a, b) && tab_before(b, c) ==> tab_before(a, c),
        !tab_before(a, a),
        tab_before(a, b) || tab_before(b, a) || a == b,
        !(tab_before(a, b) && tab_before(b, a)),
{
    lemma_precedes_total(a.1, b.1);
    lemma_precedes_total(a.2, b.2);
    lemma_precedes_total(b.1, c.1);
    lemma_precedes_total(b.2, c.2);
    lemma_precedes_total(a.1, a.1);
    lemma_precedes_total(a.2, a.2);
    if precedes(a.1, b.1) && precedes(b.1, c.1) {
        lemma_precedes_transitive(a.1, b.1, c.1);
    }
    if precedes(a.2, b.2) && precedes(b.2, c.2) {
        lemma_precedes_transitive(a.2, b.2, c.2);
    }
    if precedes(a.1, b.1) && precedes(b.1, a.1) {
        lemma_precedes_transitive(a.1, b.1, a.1);
    }
    if precedes(a.2, b.2) && precedes(b.2, a.2) {
        lemma_precedes_transitive(a.2, b.2, a.2);
    }
}

/// A tab put where it belongs.
proof fn lemma_insert_in_order(
    tabs: Seq<(i32, Seq<char>, Seq<char>)>,
    tab: (i32, Seq<char>, Seq<char>),
    at: int,
)
    requires
        in_strip_order(tabs),
        0 <= at <= tabs.len(),
        forall|k: int| at <= k < tabs.len() ==> tab_before(tab, #[trigger] tabs[k]),
        at > 0 ==> !tab_before(tab, tabs[at - 1]),
    ensures
        in_strip_order(tabs.insert(at, tab)),
{
    let all = tabs.insert(at, tab);
    assert forall|i: int, j: int| 0 <= i < j < all.len() implies !tab_before(
        #[trigger] all[j],
        #[trigger] all[i],
    ) by {
        if j == at {
            assert(all[i] == tabs[i]);
            if i < at - 1 {
                assert(!tab_before(tabs[at - 1], tabs[i]));
                lemma_tab_order(tabs[at - 1], tabs[i], tab);
                lemma_tab_order(tab, tabs[i], tabs[at - 1]);
            }
        } else if i == at {
            assert(all[j] == tabs[j - 1]);
            lemma_tab_order(tab, tabs[j - 1], tab);
        } else {
            let x = if i < at {
                i
            } else {
                i - 1
            };
            let y = if j < at {
                j
            } else {
                j - 1
            };
            assert(all[i] == tabs[x]);
            assert(all[j] == tabs[y]);
        }
    }
}

fn stands_before(a: &(i32, String, String), b: &(i32, String, String)) -> (r: bool)
    ensures
        r == tab_before((a.0, a.1@, a.2@), (b.0, b.1@, b.2@)),
{
    if a.0 != b.0 {
        return a.0 < b.0;
    }
    if comes_before(a.1.as_str(), b.1.as_str()) {
        return true;
    }
    same(a.1.as_str(), b.1.as_str()) && comes_before(a.2.as_str(), b.2.as_str())
}

/// Whether the tab of a row occurs in a later one.
spec fn repeated_later(rows: Seq<(i32, i32)>, i: int) -> bool {
    exists|k: int| i < k < rows.len() && (#[trigger] rows[k]).0 == rows[i].0
}

fn is_repeated_later(rows: &Vec<(i32, i32)>, i: usize) -> (r: bool)
    requires
        i < rows.len(),
    ensures
        r == repeated_later(rows@, i as int),
{
    let mut k: usize = i + 1;
    while k < rows.len()
        invariant
            i < k <= rows.len(),
            forall|m: int| i < m < k ==> (#[trigger] rows@[m]).0 != rows@[i as int].0,
        decreases rows.len() - k,
    {
        if rows[k].0 == rows[i].0 {
            return true;
        }
        k = k + 1;
    }
    false
}

proof fn lemma_newest(rows: Seq<(i32, i32)>, key: i32)
    ensures
        newest(rows).dom().contains(key) <==> exists|i: int|
            0 <= i < rows.len() && (#[trigger] rows[i]).0 == key && !repeated_later(rows, i),
        forall|i: int|
            0 <= i < rows.len() && (#[trigger] rows[i]).0 == key && !repeated_later(rows, i)
                ==> newest(rows)[key] == rows[i].1,
    decreases rows.len(),
{
    if rows.len() > 0 {
        let front = rows.drop_last();
        let last = rows.len() - 1;
        lemma_newest(front, key);
        assert(!repeated_later(rows, last));
        if rows[last].0 == key {
            assert forall|i: int|
                0 <= i < rows.len() && (#[trigger] rows[i]).0 == key && !repeated_later(
                    rows,
                    i,
                ) implies newest(rows)[key] == rows[i].1 by {
                if i < last {
                    assert(rows[last].0 == rows[i].0);
                }
            }
        } else {
            assert forall|i: int|
                0 <= i < last && (#[trigger] rows[i]).0 == key implies repeated_later(rows, i)
                == repeated_later(front, i) by {
                if repeated_later(rows, i) {
                    let k = choose|k: int|
                        i < k < rows.len() && (#[trigger] rows[k]).0 == rows[i].0;
                    assert(front[k] == rows[k]);
                }
                if repeated_later(front, i) {
                    let k = choose|k: int|
                        i < k < front.len() && (#[trigger] front[k]).0 == front[i].0;
                    assert(front[k] == rows[k]);
                }
            }
            if newest(front).dom().contains(key) {
                let i = choose|i: int|
                    0 <= i < front.len() && (#[trigger] front[i]).0 == key && !repeated_later(
                        front,
                        i,
                    );
                assert(rows[i] == front[i]);
            }
            if exists|i: int|
                0 <= i < rows.len() && (#[trigger] rows[i]).0 == key && !repeated_later(rows, i) {
                let i = choose|i: int|
                    0 <= i < rows.len() && (#[trigger] rows[i]).0 == key && !repeated_later(
                        rows,
                        i,
                    );
                assert(front[i] == rows[i]);
            }
            assert forall|i: int|
                0 <= i < rows.len() && (#[trigger] rows[i]).0 == key && !repeated_later(
                    rows,
                    i,
                ) implies newest(rows)[key] == rows[i].1 by {
                assert(front[i] == rows[i]);
            }
        }
    }
}

/// Whether a tab of a window has a row that counts among the first ones.
spec fn counts_before(rows: Seq<(i32, i32)>, tab: i32, window: i32, n: int) -> bool {
    exists|m: int|
        0 <= m < n && #[trigger] rows[m] == (tab, window) && !repeated_later(rows, m)
}

proof fn lemma_counts_later(rows: Seq<(i32, i32)>, tab: i32, window: i32, n: int)
    requires
        counts_before(rows, tab, window, n),
    ensures
        counts_before(rows, tab, window, n + 1),
{
    let m = choose|m: int|
        0 <= m < n && #[trigger] rows[m] == (tab, window) && !repeated_later(rows, m);
    assert(rows[m] == (tab, window));
}

impl Replay {
    /// The tab of a row and how it is shown, if the row counts and the tab
    /// shows up.
    fn row_tab(&self, i: usize) -> (r: Option<(i32, (i32, String, String))>)
        requires
            i < self.tab_window.len(),
        ensures
            ({
                let (tab, window) = self.tab_window@[i as int];
                match r {
                    Some((w, (index, url, title))) => {
                        &&& !repeated_later(self.tab_window@, i as int)
                        &&& w == window
                        &&& self.said().shows(tab, window)
                        &&& (index, url@, title@) == self.said().shown_tab(tab)
                    },
                    None => repeated_later(self.tab_window@, i as int) || !self.said().shows(
                        tab,
                        window,
                    ),
                }
            }),
    {
        let ghost said = self.said();
        let (tab, window) = self.tab_window[i];
        if is_repeated_later(&self.tab_window, i) {
            return None;
        }
        proof {
            lemma_newest(self.tab_window@, tab);
            assert(self.tab_window@[i as int].0 == tab);
            assert(said.tab_window.dom().contains(tab));
            assert(said.tab_window[tab] == window);
        }
        if is_marked(&self.closed_tabs, tab) || is_marked(&self.closed_windows, window) {
            return None;
        }
        match self.shown_entry(tab) {
            Some(entry) => {
                let index: i32 = match lookup(&self.tab_index, tab) {
                    Some(index) => index,
                    None => 0,
                };
                Some((window, (index, self.navs[entry].url.clone(), self.navs[entry].title.clone())))
            },
            None => None,
        }
    }

    /// Every tab that shows up has a row that counts.
    proof fn lemma_row_exists(self, tab: i32, window: i32)
        requires
            self.said().shows(tab, window),
        ensures
            exists|i: int|
                0 <= i < self.tab_window@.len() && #[trigger] self.tab_window@[i] == (tab, window)
                    && !repeated_later(self.tab_window@, i),
    {
        lemma_newest(self.tab_window@, tab);
        let i = choose|i: int|
            0 <= i < self.tab_window@.len() && (#[trigger] self.tab_window@[i]).0 == tab
                && !repeated_later(self.tab_window@, i);
        assert(self.tab_window@[i] == (tab, window));
    }

    fn window(&self, id: i32) -> (r: BrowserWindow)
        ensures
            is_window_of(self.said(), id, r@),
    {
        let ghost said = self.said();
        let ghost rows = self.tab_window@;
        let mut tabs: Vec<(i32, String, String)> = Vec::new();
        let ghost mut order: Seq<i32> = seq![];
        let mut i: usize = 0;
        assert(tab_views(tabs@) =~= shown_tabs(said, order));
        while i < self.tab_window.len()
            invariant
                i <= self.tab_window.len(),
                said == self.said(),
                rows == self.tab_window@,
                in_strip_order(tab_views(tabs@)),
                tab_views(tabs@) == shown_tabs(said, order),
                order.no_duplicates(),
                forall|k: int|
                    0 <= k < order.len() ==> counts_before(rows, #[trigger] order[k], id, i as int)
                        && said.shows(order[k], id),
                forall|m: int|
                    0 <= m < i && (#[trigger] rows[m]).1 == id && !repeated_later(rows, m)
                        && said.shows(rows[m].0, id) ==> order.contains(rows[m].0),
            decreases self.tab_window.len() - i,
        {
            let ghost before = tab_views(tabs@);
            let ghost old_order = order;
            let found = self.row_tab(i);
            let mut added = false;
            if let Some((window, tab)) = found {
                if window == id {
                    let ghost shown = (tab.0, tab.1@, tab.2@);
                    let mut at: usize = tabs.len();
                    while at > 0 && stands_before(&tab, &tabs[at - 1])
                        invariant
                            at <= tabs.len(),
                            before == tab_views(tabs@),
                            shown == (tab.0, tab.1@, tab.2@),
                            forall|k: int|
                                at <= k < before.len() ==> tab_before(shown, #[trigger] before[k]),
                        decreases at,
                    {
                        assert(before[at - 1] == (
                            tabs@[at - 1].0,
                            tabs@[at - 1].1@,
                            tabs@[at - 1].2@,
                        ));
                        at = at - 1;
                    }
                    proof {
                        if at > 0 {
                            assert(before[at - 1] == (
                                tabs@[at - 1].0,
                                tabs@[at - 1].1@,
                                tabs@[at - 1].2@,
                            ));
                        }
                        lemma_insert_in_order(before, shown, at as int);
                        let id_of = rows[i as int].0;
                        assert(!old_order.contains(id_of)) by {
                            if old_order.contains(id_of) {
                                let k = choose|k: int|
                                    0 <= k < old_order.len() && old_order[k] == id_of;
                                let m = choose|m: int|
                                    0 <= m < i && #[trigger] rows[m] == (old_order[k], id)
                                        && !repeated_later(rows, m);
                                assert(rows[i as int].0 == rows[m].0);
                                assert(repeated_later(rows, m));
                            }
                        }
                        order = old_order.insert(at as int, id_of);
                        assert forall|a: int, b: int|
                            0 <= a < order.len() && 0 <= b < order.len() && a
                                != b implies order[a] != order[b] by {
                            let x = if a < at {
                                a
                            } else {
                                a - 1
                            };
                            let y = if b < at {
                                b
                            } else {
                                b - 1
                            };
                            if a == at {
                                assert(old_order.contains(old_order[y]));
                            } else if b == at {
                                assert(old_order.contains(old_order[x]));
                            } else {
                                assert(old_order[x] != old_order[y]);
                            }
                        }
                    }
                    tabs.insert(at, tab);
                    added = true;
                    proof {
                        assert(tab_views(tabs@) =~= before.insert(at as int, shown));
                        assert(shown_tabs(said, order) =~= shown_tabs(said, old_order).insert(
                            at as int,
                            shown,
                        ));
                        assert forall|k: int| 0 <= k < order.len() implies counts_before(
                            rows,
                            #[trigger] order[k],
                            id,
                            i + 1,
                        ) && said.shows(order[k], id) by {
                            if k == at {
                                assert(rows[i as int] == (order[k], id));
                            } else {
                                let o = if k < at {
                                    k
                                } else {
                                    k - 1
                                };
                                assert(order[k] == old_order[o]);
                                lemma_counts_later(rows, old_order[o], id, i as int);
                            }
                        }
                        assert forall|m: int|
                            0 <= m < i + 1 && (#[trigger] rows[m]).1 == id && !repeated_later(
                                rows,
                                m,
                            ) && said.shows(rows[m].0, id) implies order.contains(rows[m].0) by {
                            if m == i {
                                assert(order[at as int] == rows[m].0);
                            } else {
                                assert(old_order.contains(rows[m].0));
                                let k = choose|k: int|
                                    0 <= k < old_order.len() && old_order[k] == rows[m].0;
                                if k < at {
                                    assert(order[k] == rows[m].0);
                                } else {
                                    assert(order[k + 1] == rows[m].0);
                                }
                            }
                        }
                    }
                }
            }
            proof {
                if !added {
                    assert forall|k: int| 0 <= k < order.len() implies counts_before(
                        rows,
                        #[trigger] order[k],
                        id,
                        i + 1,
                    ) && said.shows(order[k], id) by {
                        lemma_counts_later(rows, order[k], id, i as int);
                    }
                }
            }
            i = i + 1;
        }
        let selected_index = lookup(&self.selected_tab, id);
        let r = BrowserWindow { tabs, selected_index };
        proof {
            assert forall|tab: i32| #[trigger] order.contains(tab) <==> said.shows(tab, id) by {
                if order.contains(tab) {
                    let k = choose|k: int| 0 <= k < order.len() && order[k] == tab;
                    assert(said.shows(order[k], id));
                }
                if said.shows(tab, id) {
                    self.lemma_row_exists(tab, id);
                    let m = choose|m: int|
                        0 <= m < rows.len() && #[trigger] rows[m] == (tab, id) && !repeated_later(
                            rows,
                            m,
                        );
                    assert(rows[m].1 == id);
                }
            }
            assert(are_tabs_of(said, id, order));
            assert(r@.tabs == shown_tabs(said, order));
        }
        r
    }

    fn window_ids(&self) -> (r: Vec<i32>)
        ensures
            forall|i: int, j: int| 0 <= i < j < r.len() ==> #[trigger] r@[i] < #[trigger] r@[j],
            forall|id: i32| #[trigger] r@.contains(id) <==> has_tabs(self.said(), id),
    {
        let ghost said = self.said();
        let ghost rows = self.tab_window@;
        let mut ids: Vec<i32> = Vec::new();
        let mut i: usize = 0;
        while i < self.tab_window.len()
            invariant
                i <= self.tab_window.len(),
                said == self.said(),
                rows == self.tab_window@,
                forall|a: int, b: int|
                    0 <= a < b < ids.len() ==> #[trigger] ids@[a] < #[trigger] ids@[b],
                forall|id: i32| #[trigger] ids@.contains(id) ==> has_tabs(said, id),
                forall|m: int|
                    0 <= m < i && !repeated_later(rows, m) && said.shows(
                        (#[trigger] rows[m]).0,
                        rows[m].1,
                    ) ==> ids@.contains(rows[m].1),
            decreases self.tab_window.len() - i,
        {
            let ghost before = ids@;
            if let Some((id, _)) = self.row_tab(i) {
                assert(said.shows(rows[i as int].0, id));
                let mut at: usize = ids.len();
                while at > 0 && ids[at - 1] > id
                    invariant
                        at <= ids.len(),
                        forall|k: int| at <= k < ids.len() ==> #[trigger] ids@[k] > id,
                    decreases at,
                {
                    at = at - 1;
                }
                if at > 0 && ids[at - 1] == id {
                    assert(ids@.contains(id));
                } else {
                    ids.insert(at, id);
                    proof {
                        assert(ids@ =~= before.insert(at as int, id));
                        assert forall|a: int, b: int|
                            0 <= a < b < ids.len() implies #[trigger] ids@[a] < #[trigger] ids@[b] by {
                            let x = if a < at {
                                a
                            } else {
                                a - 1
                            };
                            let y = if b < at {
                                b
                            } else {
                                b - 1
                            };
                            if a == at {
                                assert(before[y] > id);
                            } else if b == at {
                                assert(before[x] <= before[at - 1]);
                            } else {
                                assert(before[x] < before[y]);
                            }
                        }
                        assert forall|x: i32| #[trigger] ids@.contains(x) implies has_tabs(
                            said,
                            x,
                        ) by {
                            let k = choose|k: int| 0 <= k < ids.len() && ids@[k] == x;
                            if k != at {
                                let o = if k < at {
                                    k
                                } else {
                                    k - 1
                                };
                                assert(before[o] == x);
                                assert(before.contains(x));
                            }
                        }
                        assert forall|x: i32| before.contains(x) implies #[trigger] ids@.contains(
                            x,
                        ) by {
                            let k = choose|k: int| 0 <= k < before.len() && before[k] == x;
                            if k < at {
                                assert(ids@[k] == x);
                            } else {
                                assert(ids@[k + 1] == x);
                            }
                        }
                        assert(ids@[at as int] == id);
                        assert(ids@.contains(id));
                    }
                }
            }
            i = i + 1;
        }
        proof {
            assert forall|id: i32| #[trigger] ids@.contains(id) <==> has_tabs(said, id) by {
                if has_tabs(said, id) {
                    let tab = choose|tab: i32| #[trigger] said.shows(tab, id);
                    self.lemma_row_exists(tab, id);
                    let m = choose|m: int|
                        0 <= m < rows.len() && #[trigger] rows[m] == (tab, id) && !repeated_later(
                            rows,
                            m,
                        );
                    assert(said.shows(rows[m].0, rows[m].1));
                }
            }
        }
        ids
    }
}

/// Windows with their ids.
pub open spec fn window_views(windows: Seq<(i32, BrowserWindow)>) -> Seq<
    (i32, BrowserWindowView),
> {
    Seq::new(windows.len(), |i: int| (windows[i].0, windows[i].1@))
}

/// Replay a session file's command log into its open windows, by ascending
/// id.
pub fn open_windows(data: &[u8]) -> (r: Vec<(i32, BrowserWindow)>)
    ensures
        are_windows_of(
            ReplayView::blank().after_all(commands(data@)),
            window_views(r@),
        ),
{
    let replay = Replay::of(&slice_to_vec(data));
    let ghost said = replay.said();
    let ids = replay.window_ids();
    let mut out: Vec<(i32, BrowserWindow)> = Vec::new();
    let mut i: usize = 0;
    while i < ids.len()
        invariant
            i <= ids.len(),
            said == replay.said(),
            out.len() == i,
            forall|k: int|
                0 <= k < i ==> (#[trigger] out@[k]).0 == ids@[k] && is_window_of(
                    said,
                    ids@[k],
                    out@[k].1@,
                ),
        decreases ids.len() - i,
    {
        out.push((ids[i], replay.window(ids[i])));
        i = i + 1;
    }
    proof {
        let views = window_views(out@);
        assert forall|a: int, b: int| 0 <= a < b < views.len() implies (#[trigger] views[a]).0 < (
        #[trigger] views[b]).0 by {
            assert(out@[a].0 == ids@[a]);
            assert(out@[b].0 == ids@[b]);
        }
        assert forall|a: int| 0 <= a < views.len() implies has_tabs(said, (#[trigger] views[a]).0)
            && is_window_of(said, views[a].0, views[a].1) by {
            assert(out@[a].0 == ids@[a]);
            assert(ids@.contains(ids@[a]));
        }
        assert forall|id: i32| #[trigger] has_tabs(said, id) implies exists|a: int|
            0 <= a < views.len() && (#[trigger] views[a]).0 == id by {
            assert(ids@.contains(id));
            let k = choose|k: int| 0 <= k < ids.len() && ids@[k] == id;
            assert(out@[k].0 == id);
            assert(views[k].0 == id);
        }
    }
    out
}

// ---- finding a window ---------------------------------------------------------------------

/// A window title without the browser's name behind it.
pub open spec fn without_browser(title: Seq<char>) -> Seq<char> {
    if finishes(title, " - Chromium"@) {
        title.take(title.len() - " - Chromium"@.len())
    } else if finishes(title, " - Google Chrome"@) {
        title.take(title.len() - " - Google Chrome"@.len())
    } else if finishes(title, " - Brave"@) {
        title.take(title.len() - " - Brave"@.len())
    } else {
        title
    }
}

/// A title without a leading unread-count marker: a number in parentheses and
/// a space.
pub open spec fn normalized(title: Seq<char>) -> Seq<char> {
    if begins(title, "("@) {
        let rest = title.skip(1);
        match find_from(rest, ") "@, 0) {
            Some(close) => if close > 0 && (forall|i: int|
                0 <= i < close ==> is_digit(#[trigger] rest[i])) {
                rest.skip(close + 2)
            } else {
                title
            },
            None => title,
        }
    } else {
        title
    }
}

fn cut_suffix(title: &str, suffix: &str) -> (r: Option<String>)
    ensures
        match r {
            Some(s) => finishes(title@, suffix@) && s@ == title@.take(
                title@.len() - suffix@.len(),
            ),
            None => !finishes(title@, suffix@),
        },
{
    if ends_with(title, suffix) {
        let v = chars(title);
        let n: usize = chars(suffix).len();
        let s = text_range(&v, 0, v.len() - n);
        assert(s@ =~= title@.take(title@.len() - suffix@.len()));
        Some(s)
    } else {
        None
    }
}

/// Drop the browser's name behind a window title.
pub fn strip_browser_suffix(title: &str) -> (r: String)
    ensures
        r@ == without_browser(title@),
{
    if let Some(s) = cut_suffix(title, " - Chromium") {
        return s;
    }
    if let Some(s) = cut_suffix(title, " - Google Chrome") {
        return s;
    }
    if let Some(s) = cut_suffix(title, " - Brave") {
        return s;
    }
    title.to_owned()
}

/// Drop a leading unread-count marker: `(3) Calendar` → `Calendar`.
pub fn normalize_title(title: &str) -> (r: String)
    ensures
        r@ == normalized(title@),
{
    proof {
        reveal_strlit("(");
        reveal_strlit(") ");
    }
    if !starts_with(title, "(") {
        return title.to_owned();
    }
    let v = chars(title);
    let rest_text = text_range(&v, 1, v.len());
    let rest = chars(rest_text.as_str());
    assert(rest@ =~= title@.skip(1));
    let close: usize = match position_from(&rest, &chars(") "), 0) {
        Some(close) => close,
        None => {
            return title.to_owned();
        },
    };
    proof {
        lemma_find_from(rest@, ") "@, 0);
    }
    let mut digits = close > 0;
    let mut i: usize = 0;
    while i < close
        invariant
            i <= close <= rest.len(),
            digits == (close > 0 && forall|k: int| 0 <= k < i ==> is_digit(#[trigger] rest@[k])),
        decreases close - i,
    {
        if !decimal_digit(rest[i]) {
            assert(!is_digit(rest@[i as int]));
            digits = false;
        }
        i = i + 1;
    }
    if digits {
        let s = text_range(&rest, close + 2, rest.len());
        assert(s@ =~= rest@.skip(close + 2));
        s
    } else {
        title.to_owned()
    }
}

/// The title of the first tab, at `from` or later, with a strip index.
pub open spec fn title_at(
    tabs: Seq<(i32, Seq<char>, Seq<char>)>,
    index: i32,
    from: int,
) -> Option<Seq<char>>
    decreases tabs.len() - from,
{
    if from < 0 || from >= tabs.len() {
        None
    } else if tabs[from].0 == index {
        Some(tabs[from].2)
    } else {
        title_at(tabs, index, from + 1)
    }
}

impl BrowserWindowView {
    /// The selected tab's title, if known.
    pub open spec fn selected_title(self) -> Option<Seq<char>> {
        match self.selected_index {
            Some(index) => title_at(self.tabs, index, 0),
            None => None,
        }
    }

    /// Whether the selected tab has a title, up to the unread-count marker.
    pub open spec fn selects(self, wanted: Seq<char>) -> bool {
        match self.selected_title() {
            Some(title) => normalized(title) == wanted,
            None => false,
        }
    }

    /// Whether some tab has a title, up to the unread-count marker.
    pub open spec fn lists(self, wanted: Seq<char>) -> bool {
        exists|i: int| 0 <= i < self.tabs.len() && normalized((#[trigger] self.tabs[i]).2) == wanted
    }
}

impl BrowserWindow {
    /// The selected tab's title, if known.
    pub fn selected_title(&self) -> (r: Option<&str>)
        ensures
            match (r, self@.selected_title()) {
                (Some(s), Some(expected)) => s@ == expected,
                (None, None) => true,
                _ => false,
            },
    {
        let index: i32 = match self.selected_index {
            Some(index) => index,
            None => {
                return None;
            },
        };
        let ghost views = tab_views(self.tabs@);
        let mut i: usize = 0;
        while i < self.tabs.len()
            invariant
                i <= self.tabs.len(),
                views == tab_views(self.tabs@),
                self@.selected_title() == title_at(views, index, i as int),
            decreases self.tabs.len() - i,
        {
            assert(views[i as int] == (
                self.tabs@[i as int].0,
                self.tabs@[i as int].1@,
                self.tabs@[i as int].2@,
            ));
            if self.tabs[i].0 == index {
                return Some(self.tabs[i].2.as_str());
            }
            i = i + 1;
        }
        None
    }

    fn is_selecting(&self, wanted: &str) -> (r: bool)
        ensures
            r == self@.selects(wanted@),
    {
        match self.selected_title() {
            Some(title) => same(normalize_title(title).as_str(), wanted),
            None => false,
        }
    }

    fn is_listing(&self, wanted: &str) -> (r: bool)
        ensures
            r == self@.lists(wanted@),
    {
        let ghost views = tab_views(self.tabs@);
        let mut i: usize = 0;
        while i < self.tabs.len()
            invariant
                i <= self.tabs.len(),
                views == tab_views(self.tabs@),
                forall|k: int|
                    0 <= k < i ==> normalized((#[trigger] views[k]).2) != wanted@,
            decreases self.tabs.len() - i,
        {
            assert(views[i as int] == (
                self.tabs@[i as int].0,
                self.tabs@[i as int].1@,
                self.tabs@[i as int].2@,
            ));
            if same(normalize_title(self.tabs[i].2.as_str()).as_str(), wanted) {
                assert(normalized(self@.tabs[i as int].2) == wanted@);
                return true;
            }
            i = i + 1;
        }
        false
    }
}

/// The first window, at `from` or later, whose selected tab has the title.
pub open spec fn first_selecting(
    windows: Seq<(i32, BrowserWindowView)>,
    wanted: Seq<char>,
    from: int,
) -> Option<int>
    decreases windows.len() - from,
{
    if from < 0 || from >= windows.len() {
        None
    } else if windows[from].1.selects(wanted) {
        Some(from)
    } else {
        first_selecting(windows, wanted, from + 1)
    }
}

/// The first window, at `from` or later, with a tab that has the title.
pub open spec fn first_listing(
    windows: Seq<(i32, BrowserWindowView)>,
    wanted: Seq<char>,
    from: int,
) -> Option<int>
    decreases windows.len() - from,
{
    if from < 0 || from >= windows.len() {
        None
    } else if windows[from].1.lists(wanted) {
        Some(from)
    } else {
        first_listing(windows, wanted, from + 1)
    }
}

/// The session window that belongs to a compositor window: the one whose
/// selected tab has its title, else the one with a tab that has it, else the
/// only one there is. Where several have it, none is picked.
pub open spec fn matched_window(
    windows: Seq<(i32, BrowserWindowView)>,
    window_title: Seq<char>,
) -> Option<int> {
    let wanted = normalized(without_browser(window_title));
    match first_selecting(windows, wanted, 0) {
        Some(i) => if first_selecting(windows, wanted, i + 1) is None {
            Some(i)
        } else {
            None
        },
        None => match first_listing(windows, wanted, 0) {
            Some(i) => if first_listing(windows, wanted, i + 1) is None {
                Some(i)
            } else {
                None
            },
            None => if windows.len() == 1 {
                Some(0)
            } else {
                None
            },
        },
    }
}

fn find_selecting(windows: &Vec<(i32, BrowserWindow)>, wanted: &str, from: usize) -> (r: Option<
    usize,
>)
    requires
        from <= windows.len(),
    ensures
        match (r, first_selecting(window_views(windows@), wanted@, from as int)) {
            (Some(i), Some(expected)) => i == expected && i < windows.len(),
            (None, None) => true,
            _ => false,
        },
{
    let ghost views = window_views(windows@);
    let mut i: usize = from;
    while i < windows.len()
        invariant
            from <= i <= windows.len(),
            views == window_views(windows@),
            first_selecting(views, wanted@, from as int) == first_selecting(
                views,
                wanted@,
                i as int,
            ),
        decreases windows.len() - i,
    {
        assert(views[i as int] == (windows@[i as int].0, windows@[i as int].1@));
        if windows[i].1.is_selecting(wanted) {
            return Some(i);
        }
        i = i + 1;
    }
    None
}

fn find_listing(windows: &Vec<(i32, BrowserWindow)>, wanted: &str, from: usize) -> (r: Option<
    usize,
>)
    requires
        from <= windows.len(),
    ensures
        match (r, first_listing(window_views(windows@), wanted@, from as int)) {
            (Some(i), Some(expected)) => i == expected && i < windows.len(),
            (None, None) => true,
            _ => false,
        },
{
    let ghost views = window_views(windows@);
    let mut i: usize = from;
    while i < windows.len()
        invariant
            from <= i <= windows.len(),
            views == window_views(windows@),
            first_listing(views, wanted@, from as int) == first_listing(views, wanted@, i as int),
        decreases windows.len() - i,
    {
        assert(views[i as int] == (windows@[i as int].0, windows@[i as int].1@));
        if windows[i].1.is_listing(wanted) {
            return Some(i);
        }
        i = i + 1;
    }
    None
}

/// Pick the session window belonging to a compositor window. The window
/// title is the active tab's title plus a browser suffix; unread-count
/// prefixes like `(3) ` drift, so titles compare with those stripped. `None`
/// when several windows would do.
pub fn match_window<'w>(windows: &'w Vec<(i32, BrowserWindow)>, window_title: &str) -> (r: Option<
    &'w BrowserWindow,
>)
    ensures
        match (r, matched_window(window_views(windows@), window_title@)) {
            (Some(window), Some(i)) => 0 <= i < windows.len() && *window == windows@[i].1,
            (None, None) => true,
            _ => false,
        },
{
    let wanted = normalize_title(strip_browser_suffix(window_title).as_str());
    if let Some(i) = find_selecting(windows, wanted.as_str(), 0) {
        return match find_selecting(windows, wanted.as_str(), i + 1) {
            Some(_) => None,
            None => Some(&windows[i].1),
        };
    }
    if let Some(i) = find_listing(windows, wanted.as_str(), 0) {
        return match find_listing(windows, wanted.as_str(), i + 1) {
            Some(_) => None,
            None => Some(&windows[i].1),
        };
    }
    // No title matched (title drifted since the last journal write): with a
    // single open window there is nothing to confuse it with.
    if windows.len() == 1 {
        Some(&windows[0].1)
    } else {
        None
    }
}

/// Whether a url can be opened again from outside the browser.
pub open spec fn launchable(url: Seq<char>) -> bool {
    begins(url, "https://"@) || begins(url, "http://"@) || begins(url, "file://"@)
}

/// Whether a url can be opened again from outside the browser.
pub fn is_launchable(url: &str) -> (r: bool)
    ensures
        r == launchable(url@),
{
    starts_with(url, "https://") || starts_with(url, "http://") || starts_with(url, "file://")
}

/// The urls of tabs that can be opened again, in strip order.
pub open spec fn launchable_urls(tabs: Seq<(i32, Seq<char>, Seq<char>)>) -> Seq<Seq<char>>
    decreases tabs.len(),
{
    if tabs.len() == 0 {
        seq![]
    } else {
        let before = launchable_urls(tabs.drop_last());
        if launchable(tabs.last().1) {
            before.push(tabs.last().1)
        } else {
            before
        }
    }
}

/// The launchable urls of the window among `windows` that belongs to a
/// compositor window; nothing when none does or it has none.
pub fn tabs_of(windows: &Vec<(i32, BrowserWindow)>, window_title: &str) -> (r: Option<Vec<String>>)
    ensures
        r.deep_view() == (match matched_window(window_views(windows@), window_title@) {
            Some(i) => {
                let urls = launchable_urls(window_views(windows@)[i].1.tabs);
                if urls.len() > 0 {
                    Some(urls)
                } else {
                    None
                }
            },
            None => None,
        }),
{
    let window = match match_window(windows, window_title) {
        Some(window) => window,
        None => {
            return None;
        },
    };
    let ghost views = tab_views(window.tabs@);
    let mut urls: Vec<String> = Vec::new();
    let mut i: usize = 0;
    assert(views.take(0) =~= seq![]);
    assert(urls.deep_view() =~= seq![]);
    while i < window.tabs.len()
        invariant
            i <= window.tabs.len(),
            views == tab_views(window.tabs@),
            urls.deep_view() == launchable_urls(views.take(i as int)),
        decreases window.tabs.len() - i,
    {
        let ghost before = urls.deep_view();
        assert(views.take(i + 1).drop_last() =~= views.take(i as int));
        assert(views[i as int].1 == window.tabs@[i as int].1@);
        if is_launchable(window.tabs[i].1.as_str()) {
            urls.push(window.tabs[i].1.clone());
            assert(urls.deep_view() =~= before.push(views[i as int].1));
        }
        i = i + 1;
    }
    assert(views.take(i as int) =~= views);
    if urls.len() == 0 {
        return None;
    }
    Some(urls)
}

/// The launchable tab urls of the session's window best matching a compositor
/// window title. Best-effort: `None` when the bytes are no session, no window
/// matches, or the match is ambiguous.
pub fn window_tabs(session: &[u8], window_title: &str) -> (r: Option<Vec<String>>)
    ensures
        exists|windows: Seq<(i32, BrowserWindowView)>| #[trigger]
            are_windows_of(ReplayView::blank().after_all(commands(session@)), windows)
                && r.deep_view() == (match matched_window(windows, window_title@) {
                Some(i) => {
                    let urls = launchable_urls(windows[i].1.tabs);
                    if urls.len() > 0 {
                        Some(urls)
                    } else {
                        None
                    }
                },
                None => None,
            }),
{
    let windows = open_windows(session);
    tabs_of(&windows, window_title)
}

/// Whether an entry is a session file that none is newer than; of several the
/// last one counts.
pub open spec fn is_newest(entries: Seq<(Seq<char>, u128)>, i: int) -> bool {
    &&& 0 <= i < entries.len()
    &&& begins(entries[i].0, "Session_"@)
    &&& forall|k: int|
        0 <= k < entries.len() && begins((#[trigger] entries[k]).0, "Session_"@) ==> entries[k].1
            < entries[i].1 || entries[k].1 == entries[i].1 && k <= i
}

/// Names and modification times of directory entries.
pub open spec fn entry_views(entries: Seq<(String, u128)>) -> Seq<(Seq<char>, u128)> {
    Seq::new(entries.len(), |i: int| (entries[i].0@, entries[i].1))
}

/// Where the newest `Session_*` file stands among directory entries with
/// their modification times — the one chromium is journaling right now.
pub fn newest_session(entries: &Vec<(String, u128)>) -> (r: Option<usize>)
    ensures
        match r {
            Some(i) => is_newest(entry_views(entries@), i as int),
            None => forall|k: int|
                0 <= k < entries.len() ==> !begins((#[trigger] entries@[k]).0@, "Session_"@),
        },
{
    let ghost views = entry_views(entries@);
    let mut best: Option<usize> = None;
    let mut i: usize = 0;
    while i < entries.len()
        invariant
            i <= entries.len(),
            views == entry_views(entries@),
            match best {
                Some(b) => {
                    &&& b < i
                    &&& begins(views[b as int].0, "Session_"@)
                    &&& forall|k: int|
                        0 <= k < i && begins((#[trigger] views[k]).0, "Session_"@) ==> views[k].1
                            < views[b as int].1 || views[k].1 == views[b as int].1 && k <= b
                },
                None => forall|k: int|
                    0 <= k < i ==> !begins((#[trigger] views[k]).0, "Session_"@),
            },
        decreases entries.len() - i,
    {
        assert(views[i as int] == (entries@[i as int].0@, entries@[i as int].1));
        if starts_with(entries[i].0.as_str(), "Session_") {
            let newer = match best {
                Some(b) => {
                    assert(views[b as int] == (entries@[b as int].0@, entries@[b as int].1));
                    entries[i].1 >= entries[b].1
                },
                None => true,
            };
            if newer {
                best = Some(i);
            }
        }
        i = i + 1;
    }
    proof {
        if best is None {
            assert forall|k: int| 0 <= k < entries.len() implies !begins(
                (#[trigger] entries@[k]).0@,
                "Session_"@,
            ) by {
                assert(views[k].0 == entries@[k].0@);
            }
        }
    }
    best
}

// ---- laws ---------------------------------------------------------------------------------

/// Bytes that are no session file open no window.
pub proof fn law_garbage_yields_nothing(data: Seq<u8>, windows: Seq<(i32, BrowserWindowView)>)
    requires
        !is_session_file(data),
        are_windows_of(ReplayView::blank().after_all(commands(data)), windows),
    ensures
        windows.len() == 0,
{
    let replay = ReplayView::blank().after_all(commands(data));
    assert(replay == ReplayView::blank());
    if windows.len() > 0 {
        assert(has_tabs(replay, windows[0].0));
        let tab = choose|tab: i32| #[trigger] replay.shows(tab, windows[0].0);
        assert(replay.is_open(tab, windows[0].0));
    }
}

proof fn lemma_same_tabs(replay: ReplayView, a: Seq<i32>, b: Seq<i32>)
    requires
        a.no_duplicates(),
        b.no_duplicates(),
        forall|tab: i32| #[trigger] a.contains(tab) <==> b.contains(tab),
    ensures
        shown_tabs(replay, a).to_multiset() == shown_tabs(replay, b).to_multiset(),
    decreases a.len(),
{
    broadcast use vstd::seq_lib::group_to_multiset_ensures;

    if a.len() == 0 {
        if b.len() > 0 {
            assert(b.contains(b[0]));
            assert(a.contains(b[0]));
        }
        assert(shown_tabs(replay, a) =~= shown_tabs(replay, b));
    } else {
        let last = a[a.len() - 1];
        assert(a.contains(last));
        let k = choose|k: int| 0 <= k < b.len() && b[k] == last;
        let fa = a.drop_last();
        let fb = b.remove(k);
        assert forall|tab: i32| #[trigger] fa.contains(tab) <==> fb.contains(tab) by {
            if fa.contains(tab) {
                let i = choose|i: int| 0 <= i < fa.len() && fa[i] == tab;
                assert(a[i] == tab);
                assert(a.contains(tab));
                let j = choose|j: int| 0 <= j < b.len() && b[j] == tab;
                assert(fb[if j < k {
                    j
                } else {
                    j - 1
                }] == tab);
            }
            if fb.contains(tab) {
                let j = choose|j: int| 0 <= j < fb.len() && fb[j] == tab;
                assert(b[if j < k {
                    j
                } else {
                    j + 1
                }] == tab);
                assert(b.contains(tab));
                assert(a.contains(tab));
                let i = choose|i: int| 0 <= i < a.len() && a[i] == tab;
                assert(fa[i] == tab);
            }
        }
        lemma_same_tabs(replay, fa, fb);
        let sa = shown_tabs(replay, a);
        let sb = shown_tabs(replay, b);
        assert(sa =~= shown_tabs(replay, fa).push(replay.shown_tab(last)));
        assert(sb.remove(k) =~= shown_tabs(replay, fb));
        assert(sb.contains(sb[k]));
        assert(sb.to_multiset() =~= shown_tabs(replay, fb).to_multiset().insert(
            replay.shown_tab(last),
        ));
    }
}

proof fn lemma_same_window(
    replay: ReplayView,
    id: i32,
    a: BrowserWindowView,
    b: BrowserWindowView,
)
    requires
        is_window_of(replay, id, a),
        is_window_of(replay, id, b),
    ensures
        a == b,
{
    let first = choose|order: Seq<i32>| #[trigger]
        are_tabs_of(replay, id, order) && a.tabs == shown_tabs(replay, order);
    let second = choose|order: Seq<i32>| #[trigger]
        are_tabs_of(replay, id, order) && b.tabs == shown_tabs(replay, order);
    assert forall|tab: i32| #[trigger] first.contains(tab) <==> second.contains(tab) by {
        assert(first.contains(tab) <==> replay.shows(tab, id));
        assert(second.contains(tab) <==> replay.shows(tab, id));
    }
    lemma_same_tabs(replay, first, second);
    let leq = |x: (i32, Seq<char>, Seq<char>), y: (i32, Seq<char>, Seq<char>)|
        !tab_before(y, x);
    assert(vstd::relations::total_ordering(leq)) by {
        assert forall|x: (i32, Seq<char>, Seq<char>)| #[trigger] leq(x, x) by {
            lemma_tab_order(x, x, x);
        }
        assert forall|x: (i32, Seq<char>, Seq<char>), y: (i32, Seq<char>, Seq<char>)| #[trigger]
            leq(x, y) && #[trigger] leq(y, x) implies x == y by {
            lemma_tab_order(x, y, x);
        }
        assert forall|
            x: (i32, Seq<char>, Seq<char>),
            y: (i32, Seq<char>, Seq<char>),
            z: (i32, Seq<char>, Seq<char>),
        | #[trigger] leq(x, y) && #[trigger] leq(y, z) implies leq(x, z) by {
            lemma_tab_order(x, y, z);
            lemma_tab_order(z, x, y);
            lemma_tab_order(y, x, z);
            lemma_tab_order(z, y, x);
        }
        assert forall|x: (i32, Seq<char>, Seq<char>), y: (i32, Seq<char>, Seq<char>)| #[trigger]
            leq(x, y) || #[trigger] leq(y, x) by {
            lemma_tab_order(x, y, x);
        }
    }
    assert(vstd::relations::sorted_by(a.tabs, leq));
    assert(vstd::relations::sorted_by(b.tabs, leq));
    vstd::seq_lib::lemma_sorted_unique(a.tabs, b.tabs, leq);
}

proof fn lemma_same_windows(
    replay: ReplayView,
    a: Seq<(i32, BrowserWindowView)>,
    b: Seq<(i32, BrowserWindowView)>,
    n: int,
)
    requires
        are_windows_of(replay, a),
        are_windows_of(replay, b),
        0 <= n <= a.len(),
    ensures
        n <= b.len(),
        forall|i: int| 0 <= i < n ==> (#[trigger] a[i]).0 == b[i].0,
    decreases n,
{
    if n > 0 {
        lemma_same_windows(replay, a, b, n - 1);
        let at = n - 1;
        // What stands at the place in one list stands in the other, and in
        // neither of them before the place.
        assert(has_tabs(replay, a[at].0));
        let k = choose|k: int| 0 <= k < b.len() && (#[trigger] b[k]).0 == a[at].0;
        if k < at {
            assert(a[k].0 == b[k].0);
            assert(a[k].0 < a[at].0);
        }
        if k > at {
            assert(b[at].0 < b[k].0);
            assert(has_tabs(replay, b[at].0));
            let m = choose|m: int| 0 <= m < a.len() && (#[trigger] a[m]).0 == b[at].0;
            if m < at {
                assert(a[m].0 == b[m].0);
                assert(b[m].0 < b[at].0);
            } else if m > at {
                assert(a[at].0 < a[m].0);
            }
        }
    }
}

/// A log leaves one list of open windows: the order of its tabs and windows
/// leaves nothing open.
pub proof fn law_open_windows_are_unique(
    replay: ReplayView,
    a: Seq<(i32, BrowserWindowView)>,
    b: Seq<(i32, BrowserWindowView)>,
)
    requires
        are_windows_of(replay, a),
        are_windows_of(replay, b),
    ensures
        a == b,
{
    lemma_same_windows(replay, a, b, a.len() as int);
    lemma_same_windows(replay, b, a, b.len() as int);
    assert forall|i: int| 0 <= i < a.len() implies a[i] == b[i] by {
        assert(a[i].0 == b[i].0);
        lemma_same_window(replay, a[i].0, a[i].1, b[i].1);
    }
    assert(a =~= b);
}

/// A closed window is not listed until a tab is put into it again, whatever
/// else the log says of it.
pub proof fn law_closed_windows_are_gone(
    replay: ReplayView,
    payload: Seq<u8>,
    id: i32,
    windows: Seq<(i32, BrowserWindowView)>,
)
    requires
        raw_number(payload) == Some(id),
        are_windows_of(replay.after(17, payload), windows),
    ensures
        forall|i: int| 0 <= i < windows.len() ==> (#[trigger] windows[i]).0 != id,
{
    let after = replay.after(17, payload);
    assert forall|i: int| 0 <= i < windows.len() implies (#[trigger] windows[i]).0 != id by {
        assert(has_tabs(after, windows[i].0));
        let tab = choose|tab: i32| #[trigger] after.shows(tab, windows[i].0);
        assert(after.is_open(tab, windows[i].0));
    }
}

/// With a single open window there is nothing to confuse it with: every title
/// finds it.
pub proof fn law_single_window_is_found(
    windows: Seq<(i32, BrowserWindowView)>,
    window_title: Seq<char>,
)
    requires
        windows.len() == 1,
    ensures
        matched_window(windows, window_title) == Some(0int),
{
    let wanted = normalized(without_browser(window_title));
    reveal_with_fuel(first_selecting, 2);
    reveal_with_fuel(first_listing, 2);
}

proof fn lemma_first_selecting(
    windows: Seq<(i32, BrowserWindowView)>,
    wanted: Seq<char>,
    from: int,
    at: int,
)
    requires
        0 <= from <= at < windows.len(),
        windows[at].1.selects(wanted),
    ensures
        first_selecting(windows, wanted, from) matches Some(i) && from <= i <= at,
    decreases at - from,
{
    if from < at && !windows[from].1.selects(wanted) {
        lemma_first_selecting(windows, wanted, from + 1, at);
    }
}

proof fn lemma_first_listing(
    windows: Seq<(i32, BrowserWindowView)>,
    wanted: Seq<char>,
    from: int,
    at: int,
)
    requires
        0 <= from <= at < windows.len(),
        windows[at].1.lists(wanted),
    ensures
        first_listing(windows, wanted, from) matches Some(i) && from <= i <= at,
    decreases at - from,
{
    if from < at && !windows[from].1.lists(wanted) {
        lemma_first_listing(windows, wanted, from + 1, at);
    }
}

proof fn lemma_none_selecting(
    windows: Seq<(i32, BrowserWindowView)>,
    wanted: Seq<char>,
    from: int,
)
    requires
        0 <= from,
        forall|i: int| 0 <= i < windows.len() ==> !(#[trigger] windows[i]).1.selects(wanted),
    ensures
        first_selecting(windows, wanted, from) is None,
    decreases windows.len() - from,
{
    if from < windows.len() {
        lemma_none_selecting(windows, wanted, from + 1);
    }
}

/// An ambiguous match finds nothing: neither where two windows show the
/// title, nor where none shows it and two list it.
pub proof fn law_ambiguous_titles_find_nothing(
    windows: Seq<(i32, BrowserWindowView)>,
    window_title: Seq<char>,
    a: int,
    b: int,
)
    requires
        0 <= a < b < windows.len(),
        ({
            let wanted = normalized(without_browser(window_title));
            ||| windows[a].1.selects(wanted) && windows[b].1.selects(wanted)
            ||| windows[a].1.lists(wanted) && windows[b].1.lists(wanted) && forall|i: int|
                0 <= i < windows.len() ==> !(#[trigger] windows[i]).1.selects(wanted)
        }),
    ensures
        matched_window(windows, window_title) is None,
{
    let wanted = normalized(without_browser(window_title));
    if windows[a].1.selects(wanted) && windows[b].1.selects(wanted) {
        lemma_first_selecting(windows, wanted, 0, a);
        let i = first_selecting(windows, wanted, 0)->0;
        lemma_first_selecting(windows, wanted, i + 1, b);
    } else {
        lemma_none_selecting(windows, wanted, 0);
        lemma_first_listing(windows, wanted, 0, a);
        let i = first_listing(windows, wanted, 0)->0;
        lemma_first_listing(windows, wanted, i + 1, b);
    }
}

/// Whether a command says nothing: it has no meaning here, or its payload is
/// cut short.
pub open spec fn says_nothing(id: u8, payload: Seq<u8>) -> bool {
    if id == 0 || id == 2 || id == 7 || id == 8 {
        raw_numbers(payload) is None
    } else if id == 16 || id == 17 {
        raw_number(payload) is None
    } else if id == 6 {
        navigation(payload) is None
    } else {
        true
    }
}

/// A command without a meaning here, or with a payload that is cut short,
/// changes nothing wherever it stands in the log.
pub proof fn law_uninterpreted_commands_change_nothing(
    replay: ReplayView,
    before: Seq<(u8, Seq<u8>)>,
    id: u8,
    payload: Seq<u8>,
    rest: Seq<(u8, Seq<u8>)>,
)
    requires
        says_nothing(id, payload),
    ensures
        replay.after_all(before + seq![(id, payload)] + rest) == replay.after_all(before + rest),
    decreases before.len(),
{
    let with = before + seq![(id, payload)] + rest;
    let without = before + rest;
    if before.len() == 0 {
        assert(with[0] == (id, payload));
        assert(with.skip(1) =~= rest);
        assert(without =~= rest);
        assert(replay.after(id, payload) == replay);
    } else {
        assert(with[0] == before[0] && without[0] == before[0]);
        assert(with.skip(1) =~= before.skip(1) + seq![(id, payload)] + rest);
        assert(without.skip(1) =~= before.skip(1) + rest);
        law_uninterpreted_commands_change_nothing(
            replay.after(before[0].0, before[0].1),
            before.skip(1),
            id,
            payload,
            rest,
        );
    }
}

/// Whether bytes are records to the end.
pub open spec fn is_whole(s: Seq<u8>) -> bool
    decreases s.len(),
{
    s.len() == 0 || s.len() >= 2 && word(s) > 0 && s.len() >= 2 + word(s) && is_whole(
        s.skip(2 + word(s) as int),
    )
}

proof fn lemma_cut_record(s: Seq<u8>, tail: Seq<u8>)
    requires
        is_whole(s),
        tail.len() < 2 || tail.len() < 2 + word(tail),
    ensures
        records(s + tail) == records(s),
    decreases s.len(),
{
    let all = s + tail;
    if s.len() == 0 {
        assert(all =~= tail);
    } else {
        let end = 2 + word(s) as int;
        assert(all[0] == s[0] && all[1] == s[1] && all[2] == s[2]);
        assert(all.subrange(3, end) =~= s.subrange(3, end));
        assert(all.skip(end) =~= s.skip(end) + tail);
        lemma_cut_record(s.skip(end), tail);
    }
}

/// A record that is cut off at the end of a session file, as by a write in
/// progress, changes nothing.
pub proof fn law_cut_off_records_change_nothing(data: Seq<u8>, tail: Seq<u8>)
    requires
        is_session_file(data),
        is_whole(data.skip(8)),
        tail.len() < 2 || tail.len() < 2 + word(tail),
    ensures
        commands(data + tail) == commands(data),
{
    assert((data + tail).skip(8) =~= data.skip(8) + tail);
    lemma_cut_record(data.skip(8), tail);
}

// ---- what the log says ----------------------------------------------------------------------

/// Whether a command stands last in a log among those of its kind.
pub open spec fn is_last(
    log: Seq<(u8, Seq<u8>)>,
    p: int,
    kind: spec_fn((u8, Seq<u8>)) -> bool,
) -> bool {
    &&& 0 <= p < log.len()
    &&& kind(log[p])
    &&& forall|q: int| p < q < log.len() ==> !kind(#[trigger] log[q])
}

/// Whether a command sets something of what its first number names.
pub open spec fn sets(command: (u8, Seq<u8>), id: u8, key: i32) -> bool {
    command.0 == id && (raw_numbers(command.1) matches Some((k, _)) && k == key)
}

/// Whether a command puts a tab into a window.
pub open spec fn puts(command: (u8, Seq<u8>), window: i32, tab: i32) -> bool {
    command.0 == 0 && raw_numbers(command.1) == Some((window, tab))
}

/// Whether a command puts a tab into some window.
pub open spec fn puts_tab(command: (u8, Seq<u8>), tab: i32) -> bool {
    command.0 == 0 && (raw_numbers(command.1) matches Some((_, t)) && t == tab)
}

/// Whether a command puts some tab into a window.
pub open spec fn fills(command: (u8, Seq<u8>), window: i32) -> bool {
    command.0 == 0 && (raw_numbers(command.1) matches Some((w, _)) && w == window)
}

/// Whether a command closes a tab.
pub open spec fn closes_tab(command: (u8, Seq<u8>), tab: i32) -> bool {
    command.0 == 16 && raw_number(command.1) == Some(tab)
}

/// Whether a command closes a window.
pub open spec fn closes_window(command: (u8, Seq<u8>), window: i32) -> bool {
    command.0 == 17 && raw_number(command.1) == Some(window)
}

/// Whether a command records a navigation entry of a tab.
pub open spec fn records_entry(command: (u8, Seq<u8>), tab: i32, index: i32) -> bool {
    command.0 == 6 && (navigation(command.1) matches Some((t, i, _, _)) && t == tab && i == index)
}

/// The commands that set something of what a number names.
pub open spec fn setting(id: u8, key: i32) -> spec_fn((u8, Seq<u8>)) -> bool {
    |c: (u8, Seq<u8>)| sets(c, id, key)
}

/// The commands that put a tab into some window.
pub open spec fn putting(tab: i32) -> spec_fn((u8, Seq<u8>)) -> bool {
    |c: (u8, Seq<u8>)| puts_tab(c, tab)
}

/// The commands that record a navigation entry of a tab.
pub open spec fn recording(tab: i32, index: i32) -> spec_fn((u8, Seq<u8>)) -> bool {
    |c: (u8, Seq<u8>)| records_entry(c, tab, index)
}

proof fn lemma_after_last(replay: ReplayView, log: Seq<(u8, Seq<u8>)>)
    requires
        log.len() > 0,
    ensures
        replay.after_all(log) == replay.after_all(log.drop_last()).after(
            log.last().0,
            log.last().1,
        ),
    decreases log.len(),
{
    let front = log.drop_last();
    if log.len() == 1 {
        reveal_with_fuel(ReplayView::after_all, 2);
        assert(log.skip(1) =~= seq![]);
        assert(front =~= seq![]);
    } else {
        assert(log.skip(1).drop_last() =~= front.skip(1));
        assert(front[0] == log[0]);
        assert(log.skip(1).last() == log.last());
        lemma_after_last(replay.after(log[0].0, log[0].1), log.skip(1));
    }
}

/// The strip index of a tab is what the log says last.
proof fn lemma_index_said(log: Seq<(u8, Seq<u8>)>, key: i32)
    ensures
        ({
            let said = ReplayView::blank().after_all(log).tab_index;
            &&& said.dom().contains(key) <==> exists|p: int|
                0 <= p < log.len() && sets(#[trigger] log[p], 2, key)
            &&& forall|p: int| #[trigger]
                is_last(log, p, setting(2, key)) ==> said.dom().contains(key)
                    && raw_numbers(log[p].1) == Some((key, said[key]))
        }),
    decreases log.len(),
{
    let said = ReplayView::blank().after_all(log).tab_index;
    let f = setting(2, key);
    if log.len() > 0 {
        let front = log.drop_last();
        lemma_index_said(front, key);
        lemma_after_last(ReplayView::blank(), log);
        let before = ReplayView::blank().after_all(front).tab_index;
        if before.dom().contains(key) {
            let p = choose|p: int| 0 <= p < front.len() && sets(#[trigger] front[p], 2, key);
            assert(sets(log[p], 2, key));
        }
        assert(log[log.len() - 1] == log.last());
        if exists|p: int| 0 <= p < log.len() && sets(#[trigger] log[p], 2, key) {
            let p = choose|p: int| 0 <= p < log.len() && sets(#[trigger] log[p], 2, key);
            if p < front.len() {
                assert(sets(front[p], 2, key));
            }
        }
        assert forall|p: int| #[trigger] is_last(log, p, f) implies said.dom().contains(key)
            && raw_numbers(log[p].1) == Some((key, said[key])) by {
            if p < front.len() {
                assert(f(front[p]));
                assert(is_last(front, p, f)) by {
                    assert forall|q: int| p < q < front.len() implies !f(#[trigger] front[q]) by {
                        assert(!f(log[q]));
                    }
                }
                assert(!f(log[log.len() - 1]));
            }
        }
    }
}

/// The selected entry of a tab is what the log says last.
proof fn lemma_selected_nav_said(log: Seq<(u8, Seq<u8>)>, key: i32)
    ensures
        ({
            let said = ReplayView::blank().after_all(log).selected_nav;
            &&& said.dom().contains(key) <==> exists|p: int|
                0 <= p < log.len() && sets(#[trigger] log[p], 7, key)
            &&& forall|p: int| #[trigger]
                is_last(log, p, setting(7, key)) ==> said.dom().contains(key)
                    && raw_numbers(log[p].1) == Some((key, said[key]))
        }),
    decreases log.len(),
{
    let said = ReplayView::blank().after_all(log).selected_nav;
    let f = setting(7, key);
    if log.len() > 0 {
        let front = log.drop_last();
        lemma_selected_nav_said(front, key);
        lemma_after_last(ReplayView::blank(), log);
        let before = ReplayView::blank().after_all(front).selected_nav;
        if before.dom().contains(key) {
            let p = choose|p: int| 0 <= p < front.len() && sets(#[trigger] front[p], 7, key);
            assert(sets(log[p], 7, key));
        }
        assert(log[log.len() - 1] == log.last());
        if exists|p: int| 0 <= p < log.len() && sets(#[trigger] log[p], 7, key) {
            let p = choose|p: int| 0 <= p < log.len() && sets(#[trigger] log[p], 7, key);
            if p < front.len() {
                assert(sets(front[p], 7, key));
            }
        }
        assert forall|p: int| #[trigger] is_last(log, p, f) implies said.dom().contains(key)
            && raw_numbers(log[p].1) == Some((key, said[key])) by {
            if p < front.len() {
                assert(f(front[p]));
                assert(is_last(front, p, f)) by {
                    assert forall|q: int| p < q < front.len() implies !f(#[trigger] front[q]) by {
                        assert(!f(log[q]));
                    }
                }
                assert(!f(log[log.len() - 1]));
            }
        }
    }
}

/// The selected tab of a window is what the log says last.
proof fn lemma_selected_tab_said(log: Seq<(u8, Seq<u8>)>, key: i32)
    ensures
        ({
            let said = ReplayView::blank().after_all(log).selected_tab;
            &&& said.dom().contains(key) <==> exists|p: int|
                0 <= p < log.len() && sets(#[trigger] log[p], 8, key)
            &&& forall|p: int| #[trigger]
                is_last(log, p, setting(8, key)) ==> said.dom().contains(key)
                    && raw_numbers(log[p].1) == Some((key, said[key]))
        }),
    decreases log.len(),
{
    let said = ReplayView::blank().after_all(log).selected_tab;
    let f = setting(8, key);
    if log.len() > 0 {
        let front = log.drop_last();
        lemma_selected_tab_said(front, key);
        lemma_after_last(ReplayView::blank(), log);
        let before = ReplayView::blank().after_all(front).selected_tab;
        if before.dom().contains(key) {
            let p = choose|p: int| 0 <= p < front.len() && sets(#[trigger] front[p], 8, key);
            assert(sets(log[p], 8, key));
        }
        assert(log[log.len() - 1] == log.last());
        if exists|p: int| 0 <= p < log.len() && sets(#[trigger] log[p], 8, key) {
            let p = choose|p: int| 0 <= p < log.len() && sets(#[trigger] log[p], 8, key);
            if p < front.len() {
                assert(sets(front[p], 8, key));
            }
        }
        assert forall|p: int| #[trigger] is_last(log, p, f) implies said.dom().contains(key)
            && raw_numbers(log[p].1) == Some((key, said[key])) by {
            if p < front.len() {
                assert(f(front[p]));
                assert(is_last(front, p, f)) by {
                    assert forall|q: int| p < q < front.len() implies !f(#[trigger] front[q]) by {
                        assert(!f(log[q]));
                    }
                }
                assert(!f(log[log.len() - 1]));
            }
        }
    }
}

/// The window of a tab is what the log says last.
proof fn lemma_window_said(log: Seq<(u8, Seq<u8>)>, tab: i32)
    ensures
        ({
            let said = ReplayView::blank().after_all(log).tab_window;
            &&& said.dom().contains(tab) <==> exists|p: int|
                0 <= p < log.len() && puts_tab(#[trigger] log[p], tab)
            &&& forall|p: int| #[trigger]
                is_last(log, p, putting(tab)) ==> said.dom().contains(tab)
                    && raw_numbers(log[p].1) == Some((said[tab], tab))
        }),
    decreases log.len(),
{
    let said = ReplayView::blank().after_all(log).tab_window;
    let f = putting(tab);
    if log.len() > 0 {
        let front = log.drop_last();
        lemma_window_said(front, tab);
        lemma_after_last(ReplayView::blank(), log);
        let before = ReplayView::blank().after_all(front).tab_window;
        if before.dom().contains(tab) {
            let p = choose|p: int| 0 <= p < front.len() && puts_tab(#[trigger] front[p], tab);
            assert(puts_tab(log[p], tab));
        }
        assert(log[log.len() - 1] == log.last());
        if exists|p: int| 0 <= p < log.len() && puts_tab(#[trigger] log[p], tab) {
            let p = choose|p: int| 0 <= p < log.len() && puts_tab(#[trigger] log[p], tab);
            if p < front.len() {
                assert(puts_tab(front[p], tab));
            }
        }
        assert forall|p: int| #[trigger] is_last(log, p, f) implies said.dom().contains(tab)
            && raw_numbers(log[p].1) == Some((said[tab], tab)) by {
            if p < front.len() {
                assert(f(front[p]));
                assert(is_last(front, p, f)) by {
                    assert forall|q: int| p < q < front.len() implies !f(#[trigger] front[q]) by {
                        assert(!f(log[q]));
                    }
                }
                assert(!f(log[log.len() - 1]));
            }
        }
    }
}

/// A navigation entry is what the log says last.
proof fn lemma_entry_said(log: Seq<(u8, Seq<u8>)>, tab: i32, index: i32)
    ensures
        ({
            let said = ReplayView::blank().after_all(log).navs;
            &&& said.dom().contains((tab, index)) <==> exists|p: int|
                0 <= p < log.len() && records_entry(#[trigger] log[p], tab, index)
            &&& forall|p: int| #[trigger]
                is_last(log, p, recording(tab, index)) ==> said.dom().contains((tab, index))
                    && navigation(log[p].1) == Some((tab, index, said[(tab, index)].0, said[(tab, index)].1))
        }),
    decreases log.len(),
{
    let said = ReplayView::blank().after_all(log).navs;
    let f = recording(tab, index);
    if log.len() > 0 {
        let front = log.drop_last();
        lemma_entry_said(front, tab, index);
        lemma_after_last(ReplayView::blank(), log);
        let before = ReplayView::blank().after_all(front).navs;
        if before.dom().contains((tab, index)) {
            let p = choose|p: int| 0 <= p < front.len() && records_entry(#[trigger] front[p], tab, index);
            assert(records_entry(log[p], tab, index));
        }
        assert(log[log.len() - 1] == log.last());
        if exists|p: int| 0 <= p < log.len() && records_entry(#[trigger] log[p], tab, index) {
            let p = choose|p: int| 0 <= p < log.len() && records_entry(#[trigger] log[p], tab, index);
            if p < front.len() {
                assert(records_entry(front[p], tab, index));
            }
        }
        assert forall|p: int| #[trigger] is_last(log, p, f) implies said.dom().contains((tab, index))
            && navigation(log[p].1) == Some((tab, index, said[(tab, index)].0, said[(tab, index)].1)) by {
            if p < front.len() {
                assert(f(front[p]));
                assert(is_last(front, p, f)) by {
                    assert forall|q: int| p < q < front.len() implies !f(#[trigger] front[q]) by {
                        assert(!f(log[q]));
                    }
                }
                assert(!f(log[log.len() - 1]));
            }
        }
    }
}

/// A tab is closed if the log closes it and does not put it anywhere later.
proof fn lemma_tab_closed(log: Seq<(u8, Seq<u8>)>, tab: i32)
    ensures
        ReplayView::blank().after_all(log).closed_tabs.contains(tab) <==> exists|p: int|
            0 <= p < log.len() && closes_tab(#[trigger] log[p], tab) && forall|q: int|
                p < q < log.len() ==> !puts_tab(#[trigger] log[q], tab),
    decreases log.len(),
{
    if log.len() > 0 {
        let front = log.drop_last();
        lemma_tab_closed(front, tab);
        lemma_after_last(ReplayView::blank(), log);
        let now = ReplayView::blank().after_all(log).closed_tabs.contains(tab);
        let end = log.len() - 1;
        assert(log[end] == log.last());
        if now {
            if closes_tab(log[end], tab) {
                assert(closes_tab(log[end], tab) && forall|q: int|
                    end < q < log.len() ==> !puts_tab(#[trigger] log[q], tab));
            } else {
                let p = choose|p: int|
                    0 <= p < front.len() && closes_tab(#[trigger] front[p], tab) && forall|q: int|
                        p < q < front.len() ==> !puts_tab(#[trigger] front[q], tab);
                assert(closes_tab(log[p], tab));
                assert forall|q: int| p < q < log.len() implies !puts_tab(
                    #[trigger] log[q],
                    tab,
                ) by {
                    if q < front.len() {
                        assert(!puts_tab(front[q], tab));
                    }
                }
            }
        }
        if exists|p: int|
            0 <= p < log.len() && closes_tab(#[trigger] log[p], tab) && forall|q: int|
                p < q < log.len() ==> !puts_tab(#[trigger] log[q], tab) {
            let p = choose|p: int|
                0 <= p < log.len() && closes_tab(#[trigger] log[p], tab) && forall|q: int|
                    p < q < log.len() ==> !puts_tab(#[trigger] log[q], tab);
            if p < front.len() {
                assert(closes_tab(front[p], tab));
                assert forall|q: int| p < q < front.len() implies !puts_tab(
                    #[trigger] front[q],
                    tab,
                ) by {
                    assert(!puts_tab(log[q], tab));
                }
                assert(!puts_tab(log[end], tab));
            }
        }
    }
}

/// A window is closed if the log closes it and puts nothing into it later.
proof fn lemma_window_closed(log: Seq<(u8, Seq<u8>)>, window: i32)
    ensures
        ReplayView::blank().after_all(log).closed_windows.contains(window) <==> exists|p: int|
            0 <= p < log.len() && closes_window(#[trigger] log[p], window) && forall|q: int|
                p < q < log.len() ==> !fills(#[trigger] log[q], window),
    decreases log.len(),
{
    if log.len() > 0 {
        let front = log.drop_last();
        lemma_window_closed(front, window);
        lemma_after_last(ReplayView::blank(), log);
        let now = ReplayView::blank().after_all(log).closed_windows.contains(window);
        let end = log.len() - 1;
        assert(log[end] == log.last());
        if now {
            if closes_window(log[end], window) {
                assert(closes_window(log[end], window) && forall|q: int|
                    end < q < log.len() ==> !fills(#[trigger] log[q], window));
            } else {
                let p = choose|p: int|
                    0 <= p < front.len() && closes_window(#[trigger] front[p], window) && forall|q: int|
                        p < q < front.len() ==> !fills(#[trigger] front[q], window);
                assert(closes_window(log[p], window));
                assert forall|q: int| p < q < log.len() implies !fills(
                    #[trigger] log[q],
                    window,
                ) by {
                    if q < front.len() {
                        assert(!fills(front[q], window));
                    }
                }
            }
        }
        if exists|p: int|
            0 <= p < log.len() && closes_window(#[trigger] log[p], window) && forall|q: int|
                p < q < log.len() ==> !fills(#[trigger] log[q], window) {
            let p = choose|p: int|
                0 <= p < log.len() && closes_window(#[trigger] log[p], window) && forall|q: int|
                    p < q < log.len() ==> !fills(#[trigger] log[q], window);
            if p < front.len() {
                assert(closes_window(front[p], window));
                assert forall|q: int| p < q < front.len() implies !fills(
                    #[trigger] front[q],
                    window,
                ) by {
                    assert(!fills(log[q], window));
                }
                assert(!fills(log[end], window));
            }
        }
    }
}

/// The last statement wins: a tab that was last put into a window, and neither
/// closed nor its window since, is listed there with the strip index that was
/// last set for it and with the url and the title that were last recorded for
/// the entry that was last selected.
pub proof fn law_last_statements_win(
    log: Seq<(u8, Seq<u8>)>,
    windows: Seq<(i32, BrowserWindowView)>,
    tab: i32,
    window: i32,
    strip: i32,
    index: i32,
    url: Seq<char>,
    title: Seq<char>,
    put: int,
    placed: int,
    selected: int,
    recorded: int,
)
    requires
        are_windows_of(ReplayView::blank().after_all(log), windows),
        is_last(log, put, putting(tab)),
        puts(log[put], window, tab),
        forall|q: int|
            put < q < log.len() ==> !closes_tab(#[trigger] log[q], tab) && !closes_window(
                log[q],
                window,
            ),
        is_last(log, placed, setting(2, tab)),
        raw_numbers(log[placed].1) == Some((tab, strip)),
        is_last(log, selected, setting(7, tab)),
        raw_numbers(log[selected].1) == Some((tab, index)),
        is_last(log, recorded, recording(tab, index)),
        navigation(log[recorded].1) == Some((tab, index, url, title)),
    ensures
        exists|k: int|
            0 <= k < windows.len() && (#[trigger] windows[k]).0 == window
                && windows[k].1.tabs.contains((strip, url, title)),
{
    let replay = ReplayView::blank().after_all(log);
    lemma_window_said(log, tab);
    lemma_index_said(log, tab);
    lemma_selected_nav_said(log, tab);
    lemma_entry_said(log, tab, index);
    lemma_stays_open(log, put, tab, window);
    assert(replay.shown_entry(tab) == Some(index));
    assert(replay.shown_tab(tab) == (strip, url, title));
    lemma_listed(replay, windows, tab, window);
}

/// What was put into a window and not closed since is open.
proof fn lemma_stays_open(log: Seq<(u8, Seq<u8>)>, put: int, tab: i32, window: i32)
    requires
        is_last(log, put, putting(tab)),
        puts(log[put], window, tab),
        forall|q: int|
            put < q < log.len() ==> !closes_tab(#[trigger] log[q], tab) && !closes_window(
                log[q],
                window,
            ),
    ensures
        ReplayView::blank().after_all(log).is_open(tab, window),
{
    let replay = ReplayView::blank().after_all(log);
    lemma_window_said(log, tab);
    lemma_tab_closed(log, tab);
    lemma_window_closed(log, window);
    if replay.closed_tabs.contains(tab) {
        let p = choose|p: int|
            0 <= p < log.len() && closes_tab(#[trigger] log[p], tab) && forall|q: int|
                p < q < log.len() ==> !puts_tab(#[trigger] log[q], tab);
        assert(puts_tab(log[put], tab));
        assert(p < put);
    }
    if replay.closed_windows.contains(window) {
        let p = choose|p: int|
            0 <= p < log.len() && closes_window(#[trigger] log[p], window) && forall|q: int|
                p < q < log.len() ==> !fills(#[trigger] log[q], window);
        assert(fills(log[put], window));
        assert(p < put);
    }
}

/// A tab that shows up in a window is listed there as it looks.
proof fn lemma_listed(
    replay: ReplayView,
    windows: Seq<(i32, BrowserWindowView)>,
    tab: i32,
    window: i32,
)
    requires
        are_windows_of(replay, windows),
        replay.shows(tab, window),
    ensures
        exists|k: int|
            0 <= k < windows.len() && (#[trigger] windows[k]).0 == window
                && windows[k].1.tabs.contains(replay.shown_tab(tab)),
{
    assert(has_tabs(replay, window));
    let k = choose|k: int| 0 <= k < windows.len() && (#[trigger] windows[k]).0 == window;
    assert(is_window_of(replay, window, windows[k].1));
    let order = choose|order: Seq<i32>| #[trigger]
        are_tabs_of(replay, window, order) && windows[k].1.tabs == shown_tabs(replay, order);
    assert(order.contains(tab));
    let j = choose|j: int| 0 <= j < order.len() && order[j] == tab;
    assert(windows[k].1.tabs[j] == replay.shown_tab(tab));
}

/// Where nothing was selected for a tab, or an entry that was never recorded,
/// the tab shows its highest entry; where no strip index was set for it, it
/// stands at the front.
pub proof fn law_unselected_tabs_show_their_last_entry(
    log: Seq<(u8, Seq<u8>)>,
    windows: Seq<(i32, BrowserWindowView)>,
    tab: i32,
    window: i32,
    index: i32,
    url: Seq<char>,
    title: Seq<char>,
    put: int,
    recorded: int,
)
    requires
        are_windows_of(ReplayView::blank().after_all(log), windows),
        is_last(log, put, putting(tab)),
        puts(log[put], window, tab),
        forall|q: int|
            put < q < log.len() ==> !closes_tab(#[trigger] log[q], tab) && !closes_window(
                log[q],
                window,
            ),
        forall|q: int| 0 <= q < log.len() ==> !sets(#[trigger] log[q], 2, tab),
        forall|q: int, r: int, i: i32|
            0 <= q < log.len() && 0 <= r < log.len() && (#[trigger] log[q]).0 == 7 && raw_numbers(
                log[q].1,
            ) == Some((tab, i)) ==> !#[trigger] records_entry(log[r], tab, i),
        is_last(log, recorded, recording(tab, index)),
        navigation(log[recorded].1) == Some((tab, index, url, title)),
        forall|q: int, i: i32|
            0 <= q < log.len() && #[trigger] records_entry(log[q], tab, i) ==> i <= index,
    ensures
        exists|k: int|
            0 <= k < windows.len() && (#[trigger] windows[k]).0 == window
                && windows[k].1.tabs.contains((0i32, url, title)),
{
    let replay = ReplayView::blank().after_all(log);
    lemma_window_said(log, tab);
    lemma_index_said(log, tab);
    lemma_entry_said(log, tab, index);
    lemma_stays_open(log, put, tab, window);
    lemma_selected_nav_said(log, tab);
    if replay.selected_nav.dom().contains(tab) {
        let chosen = replay.selected_nav[tab];
        lemma_entry_said(log, tab, chosen);
        lemma_some_last(log, setting(7, tab));
        let q = choose|q: int| #[trigger]
            is_last(log, q, setting(7, tab));
        assert(sets(log[q], 7, tab));
        if replay.navs.dom().contains((tab, chosen)) {
            let r = choose|r: int|
                0 <= r < log.len() && records_entry(#[trigger] log[r], tab, chosen);
            assert(raw_numbers(log[q].1) == Some((tab, chosen)));
        }
    }
    assert(replay.is_highest(tab, index)) by {
        assert forall|other: i32| #[trigger]
            replay.navs.dom().contains((tab, other)) implies other <= index by {
            lemma_entry_said(log, tab, other);
            let r = choose|r: int|
                0 <= r < log.len() && records_entry(#[trigger] log[r], tab, other);
            assert(log[r].0 == 6);
        }
    }
    let shown = choose|i: i32| replay.is_highest(tab, i);
    assert(replay.is_highest(tab, shown));
    assert(replay.navs.dom().contains((tab, shown)) && replay.navs.dom().contains((tab, index)));
    assert(shown == index);
    assert(replay.shown_entry(tab) == Some(index));
    assert(replay.shown_tab(tab) == (0i32, url, title));
    lemma_listed(replay, windows, tab, window);
}

/// What stands in a log stands last somewhere.
proof fn lemma_some_last(log: Seq<(u8, Seq<u8>)>, kind: spec_fn((u8, Seq<u8>)) -> bool)
    requires
        exists|p: int| 0 <= p < log.len() && kind(#[trigger] log[p]),
    ensures
        exists|p: int| #[trigger] is_last(log, p, kind),
    decreases log.len(),
{
    let end = log.len() - 1;
    if kind(log[end]) {
        assert(is_last(log, end, kind));
    } else {
        let front = log.drop_last();
        let p = choose|p: int| 0 <= p < log.len() && kind(#[trigger] log[p]);
        assert(kind(front[p]));
        lemma_some_last(front, kind);
        let l = choose|l: int| #[trigger] is_last(front, l, kind);
        assert(is_last(log, l, kind)) by {
            assert(log[l] == front[l]);
            assert forall|q: int| l < q < log.len() implies !kind(#[trigger] log[q]) by {
                if q < front.len() {
                    assert(!kind(front[q]));
                }
            }
        }
    }
}

/// The selected tab of a listed window is the one that was last selected, and
/// none if none was.
pub proof fn law_last_selected_tab_counts(
    log: Seq<(u8, Seq<u8>)>,
    windows: Seq<(i32, BrowserWindowView)>,
    k: int,
)
    requires
        are_windows_of(ReplayView::blank().after_all(log), windows),
        0 <= k < windows.len(),
    ensures
        forall|p: int| #[trigger]
            is_last(log, p, setting(8, windows[k].0)) ==> (
            windows[k].1.selected_index matches Some(index) && raw_numbers(log[p].1) == Some(
                (windows[k].0, index),
            )),
        (forall|p: int| 0 <= p < log.len() ==> !sets(#[trigger] log[p], 8, windows[k].0))
            ==> windows[k].1.selected_index is None,
{
    lemma_selected_tab_said(log, windows[k].0);
    assert(is_window_of(ReplayView::blank().after_all(log), windows[k].0, windows[k].1));
}

/// Nothing is listed that the log does not say: every listed tab is one that
/// was last put into that window and not closed since, and shows a url and a
/// title that were recorded for it.
pub proof fn law_listed_tabs_were_said(
    log: Seq<(u8, Seq<u8>)>,
    windows: Seq<(i32, BrowserWindowView)>,
    k: int,
    j: int,
)
    requires
        are_windows_of(ReplayView::blank().after_all(log), windows),
        0 <= k < windows.len(),
        0 <= j < windows[k].1.tabs.len(),
    ensures
        exists|tab: i32, put: int, recorded: int|
            {
                let (_, url, title) = windows[k].1.tabs[j];
                &&& is_last(log, put, putting(tab))
                &&& #[trigger] puts(log[put], windows[k].0, tab)
                &&& forall|q: int| put < q < log.len() ==> !closes_tab(#[trigger] log[q], tab)
                &&& 0 <= recorded < log.len()
                &&& (#[trigger] log[recorded]).0 == 6
                &&& navigation(log[recorded].1) matches Some((t, _, u, s)) && t == tab && u == url
                    && s == title
            },
{
    let replay = ReplayView::blank().after_all(log);
    let window = windows[k].0;
    let tabs = windows[k].1.tabs;
    assert(is_window_of(replay, window, windows[k].1));
    let order = choose|order: Seq<i32>| #[trigger]
        are_tabs_of(replay, window, order) && tabs == shown_tabs(replay, order);
    let tab = order[j];
    assert(order.contains(tab));
    assert(tabs[j] == replay.shown_tab(tab));
    lemma_window_said(log, tab);
    lemma_some_last(log, putting(tab));
    let put = choose|p: int| #[trigger] is_last(log, p, putting(tab));
    assert(puts(log[put], window, tab));
    lemma_tab_closed(log, tab);
    assert forall|q: int| put < q < log.len() implies !closes_tab(#[trigger] log[q], tab) by {
        if closes_tab(log[q], tab) {
            assert forall|r: int| q < r < log.len() implies !puts_tab(#[trigger] log[r], tab) by {
                let f = putting(tab);
                assert(!f(log[r]));
            }
        }
    }
    let index = replay.shown_entry(tab)->0;
    if exists|i: i32| replay.is_highest(tab, i) {
        let i = choose|i: i32| replay.is_highest(tab, i);
        assert(replay.is_highest(tab, i));
    }
    assert(replay.navs.dom().contains((tab, index)));
    lemma_entry_said(log, tab, index);
    lemma_some_last(log, recording(tab, index));
    let recorded = choose|p: int| #[trigger]
        is_last(log, p, recording(tab, index));
    assert(log[recorded].0 == 6);
}

/// A window that was closed after all that was put into it is not listed; nor
/// is one all of whose tabs were closed or put elsewhere later.
pub proof fn law_emptied_windows_are_gone(
    log: Seq<(u8, Seq<u8>)>,
    windows: Seq<(i32, BrowserWindowView)>,
    window: i32,
)
    requires
        are_windows_of(ReplayView::blank().after_all(log), windows),
        (exists|p: int|
            0 <= p < log.len() && closes_window(#[trigger] log[p], window) && forall|q: int|
                p < q < log.len() ==> !fills(#[trigger] log[q], window)) || (forall|p: int, tab: i32|
            0 <= p < log.len() && #[trigger] puts(log[p], window, tab) ==> exists|q: int|
                p < q < log.len() && (closes_tab(#[trigger] log[q], tab) || puts_tab(
                    log[q],
                    tab,
                ))),
    ensures
        forall|k: int| 0 <= k < windows.len() ==> (#[trigger] windows[k]).0 != window,
{
    let replay = ReplayView::blank().after_all(log);
    assert forall|k: int| 0 <= k < windows.len() implies (#[trigger] windows[k]).0 != window by {
        if windows[k].0 == window {
            assert(has_tabs(replay, window));
            let tab = choose|tab: i32| #[trigger] replay.shows(tab, window);
            lemma_window_closed(log, window);
            lemma_tab_closed(log, tab);
            lemma_window_said(log, tab);
            lemma_some_last(log, putting(tab));
            let put = choose|p: int| #[trigger]
                is_last(log, p, putting(tab));
            let f = putting(tab);
            assert(puts(log[put], window, tab));
            let q = choose|q: int|
                put < q < log.len() && (closes_tab(#[trigger] log[q], tab) || puts_tab(
                    log[q],
                    tab,
                ));
            assert(!f(log[q]));
            assert forall|r: int| q < r < log.len() implies !puts_tab(#[trigger] log[r], tab) by {
                assert(!f(log[r]));
            }
            assert(false);
        }
    }
}

proof fn lemma_one_more_record(s: Seq<u8>, record: Seq<u8>, id: u8, payload: Seq<u8>)
    requires
        is_whole(s),
        payload.len() + 1 < 0x1_0000,
        record == seq![((payload.len() + 1) % 256) as u8, ((payload.len() + 1) / 256) as u8, id]
            + payload,
    ensures
        records(s + record) == records(s).push((id, payload)),
    decreases s.len(),
{
    let all = s + record;
    if s.len() == 0 {
        assert(all =~= record);
        let size = payload.len() + 1;
        assert(word(record) == size) by {
            assert(size == 256 * (size / 256) + size % 256);
        }
        let end = 2 + size as int;
        assert(record.len() == end);
        assert(record.subrange(3, end) =~= payload);
        assert(record.skip(end) =~= seq![]);
        assert(records(record.skip(end)) =~= seq![]);
        assert(records(record) =~= seq![(id, payload)]);
        assert(records(s) =~= seq![]);
        assert(records(s).push((id, payload)) =~= seq![(id, payload)]);
    } else {
        let end = 2 + word(s) as int;
        assert(all[0] == s[0] && all[1] == s[1] && all[2] == s[2]);
        assert(all.subrange(3, end) =~= s.subrange(3, end));
        assert(all.skip(end) =~= s.skip(end) + record);
        lemma_one_more_record(s.skip(end), record, id, payload);
        assert(records(all) =~= records(s).push((id, payload)));
    }
}

/// What is written is read: a record at the end of a session file, its size in
/// two bytes, the low one first, then its command and its payload, is one more
/// command.
pub proof fn law_records_are_read_as_written(data: Seq<u8>, id: u8, payload: Seq<u8>)
    requires
        is_session_file(data),
        is_whole(data.skip(8)),
        payload.len() + 1 < 0x1_0000,
    ensures
        ({
            let size = payload.len() + 1;
            let record = seq![(size % 256) as u8, (size / 256) as u8, id] + payload;
            commands(data + record) == commands(data).push((id, payload))
        }),
{
    let size = payload.len() + 1;
    let record = seq![(size % 256) as u8, (size / 256) as u8, id] + payload;
    assert((data + record).skip(8) =~= data.skip(8) + record);
    lemma_one_more_record(data.skip(8), record, id, payload);
}

/// The browser's name behind a title is dropped, and a title without one is
/// left as it is.
pub proof fn law_browser_names_are_dropped(title: Seq<char>)
    ensures
        without_browser(title + " - Chromium"@) == title,
        without_browser(title + " - Google Chrome"@) == title,
        without_browser(title + " - Brave"@) == title,
        !finishes(title, " - Chromium"@) && !finishes(title, " - Google Chrome"@) && !finishes(
            title,
            " - Brave"@,
        ) ==> without_browser(title) == title,
{
    reveal_strlit(" - Chromium");
    reveal_strlit(" - Google Chrome");
    reveal_strlit(" - Brave");
    let a = title + " - Chromium"@;
    assert(a.skip(a.len() - " - Chromium"@.len()) =~= " - Chromium"@);
    assert(a.take(a.len() - " - Chromium"@.len()) =~= title);
    let b = title + " - Google Chrome"@;
    assert(b.skip(b.len() - " - Google Chrome"@.len()) =~= " - Google Chrome"@);
    assert(b.take(b.len() - " - Google Chrome"@.len()) =~= title);
    assert(b.last() == 'e');
    if finishes(b, " - Chromium"@) {
        assert(b.skip(b.len() - " - Chromium"@.len()).last() == b.last());
    }
    let c = title + " - Brave"@;
    assert(c.skip(c.len() - " - Brave"@.len()) =~= " - Brave"@);
    assert(c.take(c.len() - " - Brave"@.len()) =~= title);
    assert(c[c.len() - 2] == 'v');
    if finishes(c, " - Chromium"@) {
        assert(c.skip(c.len() - " - Chromium"@.len()).last() == c.last());
    }
    if finishes(c, " - Google Chrome"@) {
        let tail = c.skip(c.len() - " - Google Chrome"@.len());
        assert(tail[tail.len() - 2] == c[c.len() - 2]);
    }
}

/// An unread count in front of a title does not count; any other beginning
/// does.
pub proof fn law_unread_counts_do_not_count(count: Seq<char>, rest: Seq<char>, title: Seq<char>)
    requires
        count.len() > 0,
        forall|i: int| 0 <= i < count.len() ==> is_digit(#[trigger] count[i]),
    ensures
        normalized("("@ + count + ") "@ + rest) == rest,
        title.len() == 0 || title[0] != '(' ==> normalized(title) == title,
{
    reveal_strlit("(");
    reveal_strlit(") ");
    let full = "("@ + count + ") "@ + rest;
    let inner = full.skip(1);
    assert(full.take(1) =~= "("@);
    assert(inner =~= count + ") "@ + rest);
    lemma_find_from(inner, ") "@, 0);
    let at = count.len() as int;
    assert(inner.subrange(at, at + 2) =~= ") "@);
    match find_from(inner, ") "@, 0) {
        Some(i) => {
            if i < at {
                assert(inner.subrange(i, i + 2)[0] == count[i]);
            }
            assert(i == at);
            assert forall|k: int| 0 <= k < at implies is_digit(#[trigger] inner[k]) by {
                assert(inner[k] == count[k]);
            }
            assert(inner.skip(at + 2) =~= rest);
        },
        None => {},
    }
    if title.len() > 0 && title[0] != '(' {
        assert(title.take(1)[0] != "("@[0]);
    }
}

/// A window shows the title of the tab at its selected index, and lists those
/// of all its tabs, unread counts aside.
pub proof fn law_windows_show_their_selected_tab(
    window: BrowserWindowView,
    j: int,
    wanted: Seq<char>,
)
    requires
        0 <= j < window.tabs.len(),
        normalized(window.tabs[j].2) == wanted,
    ensures
        window.lists(wanted),
        window.selected_index == Some(window.tabs[j].0) && (forall|k: int|
            0 <= k < j ==> (#[trigger] window.tabs[k]).0 != window.tabs[j].0) ==> window.selects(
            wanted,
        ),
        window.selected_index is None ==> !window.selects(wanted),
{
    if forall|k: int| 0 <= k < j ==> (#[trigger] window.tabs[k]).0 != window.tabs[j].0 {
        lemma_title_at(window.tabs, j, 0);
    }
}

proof fn lemma_title_at(tabs: Seq<(i32, Seq<char>, Seq<char>)>, j: int, from: int)
    requires
        0 <= from <= j < tabs.len(),
        forall|k: int| from <= k < j ==> (#[trigger] tabs[k]).0 != tabs[j].0,
    ensures
        title_at(tabs, tabs[j].0, from) == Some(tabs[j].2),
    decreases j - from,
{
    if from < j {
        assert(tabs[from].0 != tabs[j].0);
        lemma_title_at(tabs, j, from + 1);
    }
}

/// The one window that shows the title is found; where none shows it, the one
/// that lists it; where none does either and there are several windows, none.
pub proof fn law_the_titled_window_is_found(
    windows: Seq<(i32, BrowserWindowView)>,
    window_title: Seq<char>,
    i: int,
)
    requires
        0 <= i < windows.len(),
    ensures
        ({
            let wanted = normalized(without_browser(window_title));
            let shown_by_others = exists|j: int|
                0 <= j < windows.len() && j != i && (#[trigger] windows[j]).1.selects(wanted);
            let listed_by_others = exists|j: int|
                0 <= j < windows.len() && j != i && (#[trigger] windows[j]).1.lists(wanted);
            &&& windows[i].1.selects(wanted) && !shown_by_others ==> matched_window(
                windows,
                window_title,
            ) == Some(i)
            &&& !windows[i].1.selects(wanted) && !shown_by_others && windows[i].1.lists(wanted)
                && !listed_by_others ==> matched_window(windows, window_title) == Some(i)
            &&& !windows[i].1.selects(wanted) && !shown_by_others && !windows[i].1.lists(wanted)
                && !listed_by_others && windows.len() > 1 ==> matched_window(
                windows,
                window_title,
            ) is None
        }),
{
    let wanted = normalized(without_browser(window_title));
    lemma_selecting(windows, wanted, 0);
    lemma_listing(windows, wanted, 0);
    if let Some(k) = first_selecting(windows, wanted, 0) {
        lemma_selecting(windows, wanted, k + 1);
    }
    if let Some(k) = first_listing(windows, wanted, 0) {
        lemma_listing(windows, wanted, k + 1);
    }
    if windows[i].1.selects(wanted) {
        lemma_first_selecting(windows, wanted, 0, i);
    }
    if windows[i].1.lists(wanted) {
        lemma_first_listing(windows, wanted, 0, i);
    }
}

proof fn lemma_selecting(windows: Seq<(i32, BrowserWindowView)>, wanted: Seq<char>, from: int)
    requires
        0 <= from,
    ensures
        first_selecting(windows, wanted, from) matches Some(k) ==> from <= k < windows.len()
            && windows[k].1.selects(wanted),
    decreases windows.len() - from,
{
    if from < windows.len() {
        lemma_selecting(windows, wanted, from + 1);
    }
}

proof fn lemma_listing(windows: Seq<(i32, BrowserWindowView)>, wanted: Seq<char>, from: int)
    requires
        0 <= from,
    ensures
        first_listing(windows, wanted, from) matches Some(k) ==> from <= k < windows.len()
            && windows[k].1.lists(wanted),
    decreases windows.len() - from,
{
    if from < windows.len() {
        lemma_listing(windows, wanted, from + 1);
    }
}

/// The tabs that are opened again are those with a web or file address, in
/// their order: one tab more adds its address exactly if it is one.
pub proof fn law_web_tabs_are_opened_again(
    tabs: Seq<(i32, Seq<char>, Seq<char>)>,
    tab: (i32, Seq<char>, Seq<char>),
)
    ensures
        launchable_urls(seq![]) == Seq::<Seq<char>>::empty(),
        begins(tab.1, "https://"@) || begins(tab.1, "http://"@) || begins(tab.1, "file://"@)
            ==> launchable_urls(tabs.push(tab)) == launchable_urls(tabs).push(tab.1),
        !(begins(tab.1, "https://"@) || begins(tab.1, "http://"@) || begins(tab.1, "file://"@))
            ==> launchable_urls(tabs.push(tab)) == launchable_urls(tabs),
{
    assert(tabs.push(tab).drop_last() =~= tabs);
}

} // verus!
