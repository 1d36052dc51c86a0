//! The rail: hover expansion, rows, drag-to-reorder and the row menu.
//!
//! Hovering expands the rail in place; a row drag pins it open. Rows shuffle
//! out of the way live while a drag hovers; the drop commits whatever
//! arrangement is on screen, a cancelled drag snaps everything back.

use vstd::prelude::*;

use crate::numbers::render;
use crate::numbers::decimal;
use crate::outside::to_uppercase;
use crate::outside::unicode_uppercase;
use crate::panel::client::UiRequest;
use crate::pieces::{split_words, trim};
use crate::pieces::{leading_word, trimmed, words};
use crate::proto::ProjectSummary;
use crate::proto::ProjectSummaryView;
use crate::text::{chars, is_empty, same};
use crate::text::is_space;

verus! {

/// Collapsed rail width in pixels; also the (fixed) exclusive zone.
pub const RAIL_WIDTH: i32 = 48;

/// Delay before hover expands the rail, in milliseconds.
pub const EXPAND_DELAY_MS: u64 = 300;

/// Delay before the pointer leaving collapses it, in milliseconds.
pub const COLLAPSE_DELAY_MS: u64 = 400;

// ---- hovering -----------------------------------------------------------------------------

/// What a running timer will do.
#[derive(Debug, Clone, Copy, PartialEq, Eq, Structural)]
pub enum HoverTimer {
    /// Expand the rail.
    Expand,
    /// Collapse the rail.
    Collapse,
}

/// The hover-expansion state.
#[derive(Debug, Clone, Copy, PartialEq, Eq, Structural)]
pub struct Hover {
    /// Whether the rail is expanded.
    pub expanded: bool,
    /// The running timer, if any.
    pub timer: Option<HoverTimer>,
    /// A row drag is in flight: normal pointer crossing events are
    /// suppressed, so hover state must not collapse the rail.
    pub drag_active: bool,
}

/// What happens to the rail.
#[derive(Debug, Clone, Copy, PartialEq, Eq, Structural)]
pub enum HoverEvent {
    /// The pointer entered.
    Enter,
    /// The pointer moved inside.
    Motion,
    /// The pointer left.
    Leave,
    /// The running timer fired.
    Fired,
    /// A row drag began.
    DragBegin,
    /// A row drag ended.
    DragEnd,
}

/// The state after an event. A new timer replaces the running one.
pub open spec fn hovered(hover: Hover, event: HoverEvent) -> Hover {
    match event {
        // Entering cancels a pending collapse, so nothing flickers.
        HoverEvent::Enter => Hover { timer: Some(HoverTimer::Expand), ..hover },
        // After a drop the pointer may still be inside without a fresh enter
        // event; any movement re-arms expansion.
        HoverEvent::Motion => if !hover.expanded && hover.timer is None && !hover.drag_active {
            Hover { timer: Some(HoverTimer::Expand), ..hover }
        } else {
            hover
        },
        // A starting drag delivers a synthetic leave; it is ignored.
        HoverEvent::Leave => if hover.drag_active {
            hover
        } else {
            Hover { timer: Some(HoverTimer::Collapse), ..hover }
        },
        HoverEvent::Fired => match hover.timer {
            Some(HoverTimer::Expand) => Hover { timer: None, expanded: true, ..hover },
            Some(HoverTimer::Collapse) => Hover {
                timer: None,
                expanded: hover.expanded && hover.drag_active,
                ..hover
            },
            None => hover,
        },
        HoverEvent::DragBegin => Hover { expanded: true, timer: None, drag_active: true },
        // Unpinned; the usual collapse countdown takes over.
        HoverEvent::DragEnd => Hover {
            timer: Some(HoverTimer::Collapse),
            drag_active: false,
            ..hover
        },
    }
}

impl Hover {
    /// The collapsed rail.
    pub fn start() -> (r: Self)
        ensures
            r == (Hover { expanded: false, timer: None, drag_active: false }),
    {
        Hover { expanded: false, timer: None, drag_active: false }
    }

    /// Something happens to the rail.
    pub fn on(&mut self, event: HoverEvent)
        ensures
            *final(self) == hovered(*old(self), event),
    {
        match event {
            HoverEvent::Enter => {
                self.timer = Some(HoverTimer::Expand);
            },
            HoverEvent::Motion => {
                if !self.expanded && self.timer.is_none() && !self.drag_active {
                    self.timer = Some(HoverTimer::Expand);
                }
            },
            HoverEvent::Leave => {
                if !self.drag_active {
                    self.timer = Some(HoverTimer::Collapse);
                }
            },
            HoverEvent::Fired => {
                match self.timer {
                    Some(HoverTimer::Expand) => {
                        self.expanded = true;
                    },
                    Some(HoverTimer::Collapse) => {
                        if !self.drag_active {
                            self.expanded = false;
                        }
                    },
                    None => {},
                }
                self.timer = None;
            },
            HoverEvent::DragBegin => {
                self.timer = None;
                self.drag_active = true;
                self.expanded = true;
            },
            HoverEvent::DragEnd => {
                self.drag_active = false;
                self.timer = Some(HoverTimer::Collapse);
            },
        }
    }
}

/// A drag pins the rail open: once one has begun, nothing collapses the rail
/// before it ends.
pub proof fn law_drag_pins_the_rail(hover: Hover, event: HoverEvent)
    requires
        hover.drag_active ==> hover.expanded,
    ensures
        hovered(hover, event).drag_active ==> hovered(hover, event).expanded,
        hover.drag_active && !(event is DragEnd) ==> hovered(hover, event).drag_active,
{
}

/// The rail never stays as it is by mistake: a fired timer has run out, and
/// leaving always leads to collapsing unless a drag is in flight.
pub proof fn law_leaving_collapses(hover: Hover)
    requires
        !hover.drag_active,
    ensures
        !hovered(hovered(hover, HoverEvent::Leave), HoverEvent::Fired).expanded,
        hovered(hovered(hover, HoverEvent::Enter), HoverEvent::Fired).expanded,
{
}

// ---- rows ---------------------------------------------------------------------------------

/// The first characters of words.
pub open spec fn first_letters(words: Seq<Seq<char>>) -> Seq<char> {
    Seq::new(words.len(), |i: int| words[i][0])
}

/// Up to two initial letters.
pub open spec fn initials(name: Seq<char>) -> Seq<char> {
    let letters = first_letters(words(name));
    if letters.len() <= 2 {
        letters
    } else {
        letters.take(2)
    }
}

/// Up to two initial letters of a name, as they stand.
pub fn initials_of(name: &str) -> (r: String)
    ensures
        r@ == initials(name@),
{
    let parts = split_words(name);
    let ghost views = parts.deep_view();
    let mut out = String::new();
    let mut i: usize = 0;
    while i < parts.len() && i < 2
        invariant
            i <= parts.len(),
            i <= 2,
            views == parts.deep_view(),
            views == words(name@),
            out@ == first_letters(views).take(i as int),
        decreases parts.len() - i,
    {
        proof {
            lemma_words_hold_something(name@, i as int);
            assert(views[i as int] == parts@[i as int]@);
        }
        let v = chars(parts[i].as_str());
        let ghost before = out@;
        out.push(v[0]);
        assert(out@ =~= first_letters(views).take(i + 1));
        i = i + 1;
    }
    assert(out@ =~= initials(name@));
    out
}

proof fn lemma_words_hold_something(s: Seq<char>, i: int)
    requires
        0 <= i < words(s).len(),
    ensures
        words(s)[i].len() > 0,
    decreases s.len(),
{
    if s.len() > 0 {
        if is_space(s[0]) {
            lemma_words_hold_something(s.skip(1), i);
        } else {
            let n = leading_word(s) as int;
            if 0 < n <= s.len() && i > 0 {
                lemma_words_hold_something(s.skip(n), i - 1);
            }
        }
    }
}

/// Up to two initial letters of the display name ("Web Development" → "WD").
pub fn initial_letters(name: &str) -> (r: String)
    ensures
        r@ == unicode_uppercase(initials(name@)),
{
    to_uppercase(initials_of(name).as_str())
}

/// How a project stands out in the rail.
#[derive(Debug, Clone, Copy, PartialEq, Eq, Structural)]
pub enum RowState {
    /// Its workspace is on screen right now.
    Viewing,
    /// It has windows but is not the workspace being viewed.
    Open,
    /// Neither.
    Idle,
}

/// How a project stands out in the rail.
pub fn row_state(project: &ProjectSummary) -> (r: RowState)
    ensures
        r == (if project@.active {
            RowState::Viewing
        } else if project@.windows > 0 {
            RowState::Open
        } else {
            RowState::Idle
        }),
{
    if project.active {
        RowState::Viewing
    } else if project.windows > 0 {
        RowState::Open
    } else {
        RowState::Idle
    }
}

/// The line below a project's name.
pub fn row_subtitle(project: &ProjectSummary) -> (r: String)
    ensures
        r@ == decimal(project@.windows as nat) + " window"@ + (if project@.windows == 1 {
            ""@
        } else {
            "s"@
        }),
{
    let mut out = render(project.windows as u64);
    out.append(" window");
    out.append(
        if project.windows == 1 {
            ""
        } else {
            "s"
        },
    );
    out
}

/// What was typed into a name field, if it is a name.
pub fn entered_name(typed: &str) -> (r: Option<String>)
    ensures
        r.deep_view() == (if trimmed(typed@).len() == 0 {
            None
        } else {
            Some(trimmed(typed@))
        }),
{
    let name = trim(typed);
    if is_empty(name.as_str()) {
        None
    } else {
        Some(name)
    }
}

/// The delete button of the row menu was pressed: the first time arms it, the
/// second time deletes. Returns whether it is armed and the request to send.
pub fn press_delete(armed: bool, slug: &str) -> (r: (bool, Option<UiRequest>))
    ensures
        r.0,
        match r.1 {
            Some(request) => armed && (request matches UiRequest::Delete(s) && s@ == slug@),
            None => !armed,
        },
{
    if armed {
        (true, Some(UiRequest::Delete(slug.to_owned())))
    } else {
        (true, None)
    }
}

// ---- reordering ---------------------------------------------------------------------------

/// Where a slug stands, at `from` or later.
pub open spec fn place_of(order: Seq<Seq<char>>, slug: Seq<char>, from: int) -> Option<int>
    decreases order.len() - from,
{
    if from < 0 || from >= order.len() {
        None
    } else if order[from] == slug {
        Some(from)
    } else {
        place_of(order, slug, from + 1)
    }
}

/// A row moved to a position, at most the last; unknown slugs change nothing.
pub open spec fn moved(order: Seq<Seq<char>>, slug: Seq<char>, to: int) -> Seq<Seq<char>> {
    match place_of(order, slug, 0) {
        Some(from) => {
            let to = if to >= order.len() {
                order.len() - 1
            } else {
                to
            };
            order.remove(from).insert(to, slug)
        },
        None => order,
    }
}

/// The positions of a row before and after it is moved, if that changes
/// anything.
pub open spec fn shown_move(order: Seq<Seq<char>>, slug: Seq<char>, to: int) -> Option<(int, int)> {
    match place_of(order, slug, 0) {
        Some(from) => {
            let to = if to >= order.len() {
                order.len() - 1
            } else {
                to
            };
            if from == to {
                None
            } else {
                Some((from, to))
            }
        },
        None => None,
    }
}

/// Whether a pair of positions is the one that a move shows.
pub open spec fn is_move(r: Option<(usize, usize)>, expected: Option<(int, int)>) -> bool {
    match (r, expected) {
        (Some((from, to)), Some((a, b))) => from == a && to == b,
        (None, None) => true,
        _ => false,
    }
}

/// Rows moved to the positions they have in another order, one by one.
pub open spec fn snapped_back(
    visual: Seq<Seq<char>>,
    committed: Seq<Seq<char>>,
    from: int,
) -> Seq<Seq<char>>
    decreases committed.len() - from,
{
    if from < 0 || from >= committed.len() {
        visual
    } else {
        snapped_back(moved(visual, committed[from], from), committed, from + 1)
    }
}

fn find_place(order: &Vec<String>, slug: &str) -> (r: Option<usize>)
    ensures
        match (r, place_of(order.deep_view(), slug@, 0)) {
            (Some(i), Some(j)) => i == j && i < order.len() && order@[i as int]@ == slug@,
            (None, None) => true,
            _ => false,
        },
{
    let ghost views = order.deep_view();
    let mut i: usize = 0;
    while i < order.len()
        invariant
            i <= order.len(),
            views == order.deep_view(),
            place_of(views, slug@, 0) == place_of(views, slug@, i as int),
        decreases order.len() - i,
    {
        assert(views[i as int] == order@[i as int]@);
        if same(order[i].as_str(), slug) {
            return Some(i);
        }
        i = i + 1;
    }
    None
}

/// Move the row for `slug` to visual position `to`. Returns the positions of
/// the row before and after, if it has to move.
pub fn move_row(visual: &mut Vec<String>, slug: &str, to: usize) -> (r: Option<(usize, usize)>)
    ensures
        final(visual).deep_view() == moved(old(visual).deep_view(), slug@, to as int),
        is_move(r, shown_move(old(visual).deep_view(), slug@, to as int)),
{
    let ghost before = visual.deep_view();
    let from: usize = match find_place(visual, slug) {
        Some(from) => from,
        None => {
            return None;
        },
    };
    let at: usize = if to >= visual.len() {
        visual.len() - 1
    } else {
        to
    };
    assert(before[from as int] == slug@);
    if from == at {
        assert(before.remove(from as int).insert(at as int, slug@) =~= before);
        return None;
    }
    let moved_slug = visual.remove(from);
    assert(visual.deep_view() =~= before.remove(from as int));
    visual.insert(at, moved_slug);
    assert(visual.deep_view() =~= before.remove(from as int).insert(at as int, slug@));
    Some((from, at))
}

/// The orders of the rows: what the daemon confirmed, and what is on screen.
/// They diverge only while a drag is shuffling rows live.
#[derive(Debug)]
pub struct RowOrder {
    /// The daemon-confirmed order.
    pub committed: Vec<String>,
    /// What the list currently shows.
    pub visual: Vec<String>,
    /// Slug being dragged, if a drag is in flight.
    pub dragged: Option<String>,
}

/// What a [`RowOrder`] holds.
#[verifier::ext_equal]
pub struct RowOrderView {
    /// See [`RowOrder::committed`].
    pub committed: Seq<Seq<char>>,
    /// See [`RowOrder::visual`].
    pub visual: Seq<Seq<char>>,
    /// See [`RowOrder::dragged`].
    pub dragged: Option<Seq<char>>,
}

impl View for RowOrder {
    type V = RowOrderView;

    open spec fn view(&self) -> RowOrderView {
        RowOrderView {
            committed: self.committed.deep_view(),
            visual: self.visual.deep_view(),
            dragged: self.dragged.deep_view(),
        }
    }
}

/// The slugs of projects, in their order.
pub open spec fn summary_slugs(projects: Seq<ProjectSummaryView>) -> Seq<Seq<char>> {
    Seq::new(projects.len(), |i: int| projects[i].slug)
}

fn slugs_of(projects: &Vec<ProjectSummary>) -> (r: Vec<String>)
    ensures
        r.deep_view() == summary_slugs(projects.deep_view()),
{
    let mut out: Vec<String> = Vec::new();
    let mut i: usize = 0;
    while i < projects.len()
        invariant
            i <= projects.len(),
            out.len() == i,
            forall|k: int| 0 <= k < i ==> (#[trigger] out@[k])@ == projects@[k]@.slug,
        decreases projects.len() - i,
    {
        out.push(projects[i].slug.as_str().to_owned());
        i = i + 1;
    }
    assert(out.deep_view() =~= summary_slugs(projects.deep_view()));
    out
}

impl RowOrder {
    /// No rows.
    pub fn start() -> (r: Self)
        ensures
            r@ == (RowOrderView { committed: seq![], visual: seq![], dragged: None }),
    {
        let r = RowOrder { committed: Vec::new(), visual: Vec::new(), dragged: None };
        assert(r.committed.deep_view() =~= seq![]);
        assert(r.visual.deep_view() =~= seq![]);
        r
    }

    /// A fresh project list came from the daemon.
    pub fn on_projects(&mut self, projects: &Vec<ProjectSummary>)
        ensures
            final(self)@ == (RowOrderView {
                committed: summary_slugs(projects.deep_view()),
                visual: summary_slugs(projects.deep_view()),
                ..old(self)@
            }),
    {
        self.committed = slugs_of(projects);
        self.visual = slugs_of(projects);
    }

    /// A row's drag begins.
    pub fn on_drag_begin(&mut self, slug: &str)
        ensures
            final(self)@ == (RowOrderView { dragged: Some(slug@), ..old(self)@ }),
    {
        self.dragged = Some(slug.to_owned());
    }

    /// The drag hovers over a position. Returns the move to show, if any.
    pub fn on_hover(&mut self, to: usize) -> (r: Option<(usize, usize)>)
        ensures
            final(self)@ == (match old(self)@.dragged {
                Some(slug) => RowOrderView {
                    visual: moved(old(self)@.visual, slug, to as int),
                    ..old(self)@
                },
                None => old(self)@,
            }),
            is_move(
                r,
                match old(self)@.dragged {
                    Some(slug) => shown_move(old(self)@.visual, slug, to as int),
                    None => None,
                },
            ),
    {
        let dragged = match &self.dragged {
            Some(slug) => slug.clone(),
            None => {
                return None;
            },
        };
        move_row(&mut self.visual, dragged.as_str(), to)
    }

    /// The row was dropped: whatever is on screen is committed and sent.
    pub fn on_drop(&mut self) -> (r: UiRequest)
        ensures
            r matches UiRequest::Reorder(order) && order.deep_view() == old(self)@.visual,
            final(self)@ == (RowOrderView {
                committed: old(self)@.visual,
                visual: old(self)@.visual,
                dragged: None,
            }),
    {
        let order = self.visual.clone();
        assert(order.deep_view() =~= self.visual.deep_view());
        let committed = self.visual.clone();
        assert(committed.deep_view() =~= self.visual.deep_view());
        self.committed = committed;
        self.dragged = None;
        UiRequest::Reorder(order)
    }

    /// The drag ended. Still in flight means that the drop never happened:
    /// the rows go back to the daemon's order.
    pub fn on_drag_end(&mut self)
        ensures
            final(self)@ == (match old(self)@.dragged {
                Some(_) => RowOrderView {
                    visual: snapped_back(old(self)@.visual, old(self)@.committed, 0),
                    dragged: None,
                    ..old(self)@
                },
                None => old(self)@,
            }),
    {
        if self.dragged.is_none() {
            return ;
        }
        let ghost committed = self.committed.deep_view();
        let ghost wanted = snapped_back(self.visual.deep_view(), committed, 0);
        let mut i: usize = 0;
        while i < self.committed.len()
            invariant
                i <= self.committed.len(),
                self.committed == old(self).committed,
                committed == self.committed.deep_view(),
                wanted == snapped_back(self.visual.deep_view(), committed, i as int),
            decreases self.committed.len() - i,
        {
            assert(committed[i as int] == self.committed@[i as int]@);
            let slug = self.committed[i].clone();
            let _ = move_row(&mut self.visual, slug.as_str(), i);
            i = i + 1;
        }
        self.dragged = None;
    }
}

proof fn lemma_place(order: Seq<Seq<char>>, slug: Seq<char>, from: int)
    requires
        0 <= from,
    ensures
        match place_of(order, slug, from) {
            Some(i) => from <= i < order.len() && order[i] == slug && forall|k: int|
                from <= k < i ==> #[trigger] order[k] != slug,
            None => forall|k: int| from <= k < order.len() ==> #[trigger] order[k] != slug,
        },
    decreases order.len() - from,
{
    if from < order.len() && order[from] != slug {
        lemma_place(order, slug, from + 1);
    }
}

/// Moving a row neither loses nor adds one.
pub proof fn law_moves_keep_the_rows(order: Seq<Seq<char>>, slug: Seq<char>, to: int)
    requires
        0 <= to,
    ensures
        moved(order, slug, to).len() == order.len(),
        forall|s: Seq<char>| #[trigger]
            moved(order, slug, to).contains(s) <==> order.contains(s),
        order.no_duplicates() ==> moved(order, slug, to).no_duplicates(),
{
    lemma_place(order, slug, 0);
    if let Some(from) = place_of(order, slug, 0) {
        let at = if to >= order.len() {
            order.len() - 1
        } else {
            to
        };
        let rest = order.remove(from);
        let all = rest.insert(at, slug);
        assert(all == moved(order, slug, to));
        assert forall|s: Seq<char>| #[trigger] all.contains(s) <==> order.contains(s) by {
            if all.contains(s) {
                let k = choose|k: int| 0 <= k < all.len() && all[k] == s;
                if k == at {
                    assert(order[from] == s);
                } else {
                    let m = if k < at {
                        k
                    } else {
                        k - 1
                    };
                    assert(rest[m] == s);
                    if m < from {
                        assert(order[m] == s);
                    } else {
                        assert(order[m + 1] == s);
                    }
                }
            }
            if order.contains(s) {
                let k = choose|k: int| 0 <= k < order.len() && order[k] == s;
                if k == from {
                    assert(all[at] == s);
                } else {
                    let m = if k < from {
                        k
                    } else {
                        k - 1
                    };
                    assert(rest[m] == s);
                    if m < at {
                        assert(all[m] == s);
                    } else {
                        assert(all[m + 1] == s);
                    }
                }
            }
        }
        if order.no_duplicates() {
            assert forall|a: int, b: int|
                0 <= a < all.len() && 0 <= b < all.len() && a != b implies all[a] != all[b] by {
                let x = if a < at {
                    a
                } else {
                    a - 1
                };
                let y = if b < at {
                    b
                } else {
                    b - 1
                };
                if a == at {
                    let o = if y < from {
                        y
                    } else {
                        y + 1
                    };
                    assert(all[b] == rest[y] && rest[y] == order[o]);
                    assert(order[o] != order[from]);
                } else if b == at {
                    let o = if x < from {
                        x
                    } else {
                        x + 1
                    };
                    assert(all[a] == rest[x] && rest[x] == order[o]);
                    assert(order[o] != order[from]);
                } else {
                    let o = if x < from {
                        x
                    } else {
                        x + 1
                    };
                    let p = if y < from {
                        y
                    } else {
                        y + 1
                    };
                    assert(all[a] == rest[x] && rest[x] == order[o]);
                    assert(all[b] == rest[y] && rest[y] == order[p]);
                    assert(order[o] != order[p]);
                }
            }
        }
    }
}

proof fn lemma_snapped_back(visual: Seq<Seq<char>>, committed: Seq<Seq<char>>, from: int)
    requires
        0 <= from <= committed.len(),
        visual.len() == committed.len(),
        visual.no_duplicates(),
        committed.no_duplicates(),
        forall|s: Seq<char>| #[trigger] visual.contains(s) <==> committed.contains(s),
        forall|k: int| 0 <= k < from ==> visual[k] == #[trigger] committed[k],
    ensures
        snapped_back(visual, committed, from) == committed,
    decreases committed.len() - from,
{
    if from < committed.len() {
        let slug = committed[from];
        assert(committed.contains(slug));
        assert(visual.contains(slug));
        lemma_place(visual, slug, 0);
        let p = place_of(visual, slug, 0)->0;
        assert(place_of(visual, slug, 0) is Some) by {
            let k = choose|k: int| 0 <= k < visual.len() && visual[k] == slug;
            assert(visual[k] == slug);
        }
        assert(p >= from) by {
            if p < from {
                assert(visual[p] == committed[p]);
                assert(committed[p] != committed[from]);
            }
        }
        let after = moved(visual, slug, from);
        law_moves_keep_the_rows(visual, slug, from);
        assert forall|k: int| 0 <= k < from + 1 implies after[k] == #[trigger] committed[k] by {
            if k < from {
                assert(visual.remove(p)[k] == visual[k]);
                assert(after[k] == visual[k]);
            }
        }
        lemma_snapped_back(after, committed, from + 1);
    } else {
        assert(visual =~= committed);
    }
}

/// A cancelled drag snaps everything back: however the rows were shuffled,
/// the daemon's order is on screen again.
pub proof fn law_cancelled_drag_snaps_back(
    visual: Seq<Seq<char>>,
    committed: Seq<Seq<char>>,
)
    requires
        visual.len() == committed.len(),
        visual.no_duplicates(),
        committed.no_duplicates(),
        forall|s: Seq<char>| #[trigger] visual.contains(s) <==> committed.contains(s),
    ensures
        snapped_back(visual, committed, 0) == committed,
{
    lemma_snapped_back(visual, committed, 0);
}

/// A row that is moved stands where it was moved to, at most last, and the other
/// rows keep their order.
pub proof fn law_moves_put_the_row_there(
    order: Seq<Seq<char>>,
    slug: Seq<char>,
    from: int,
    to: int,
)
    requires
        0 <= from < order.len(),
        order[from] == slug,
        forall|k: int| 0 <= k < from ==> #[trigger] order[k] != slug,
        0 <= to,
    ensures
        ({
            let at = if to < order.len() {
                to
            } else {
                order.len() - 1
            };
            let after = moved(order, slug, to);
            &&& after.len() == order.len()
            &&& after[at] == slug
            &&& after.remove(at) == order.remove(from)
            &&& shown_move(order, slug, to) == if from == at {
                None::<(int, int)>
            } else {
                Some((from, at))
            }
        }),
{
    lemma_place(order, slug, 0);
    if let Some(found) = place_of(order, slug, 0) {
        if found < from {
            assert(order[found] != slug);
        } else if from < found {
            assert(order[from] != slug);
        }
        let at = if to < order.len() {
            to
        } else {
            order.len() - 1
        };
        let after = moved(order, slug, to);
        assert(after.remove(at) =~= order.remove(from));
    }
}

/// A row that is not there moves nothing.
pub proof fn law_unknown_rows_move_nothing(order: Seq<Seq<char>>, slug: Seq<char>, to: int)
    requires
        forall|k: int| 0 <= k < order.len() ==> #[trigger] order[k] != slug,
    ensures
        moved(order, slug, to) == order,
        shown_move(order, slug, to) is None,
{
    lemma_place(order, slug, 0);
}

/// Entering arms the expansion, leaving arms the collapse unless a drag is in
/// flight, moving arms the expansion of a rail at rest; a timer that fires does
/// what it was armed for and is gone. A drag opens the rail at once and, when it
/// ends, arms the collapse.
pub proof fn law_hovering_arms_and_fires(hover: Hover)
    ensures
        hovered(hover, HoverEvent::Enter) == (Hover { timer: Some(HoverTimer::Expand), ..hover }),
        !hover.drag_active ==> hovered(hover, HoverEvent::Leave) == (Hover {
            timer: Some(HoverTimer::Collapse),
            ..hover
        }),
        hover.drag_active ==> hovered(hover, HoverEvent::Leave) == hover,
        !hover.expanded && hover.timer is None && !hover.drag_active ==> hovered(
            hover,
            HoverEvent::Motion,
        ).timer == Some(HoverTimer::Expand),
        hover.expanded || hover.timer is Some || hover.drag_active ==> hovered(
            hover,
            HoverEvent::Motion,
        ) == hover,
        hover.timer == Some(HoverTimer::Expand) ==> hovered(hover, HoverEvent::Fired).expanded,
        hover.timer == Some(HoverTimer::Collapse) && !hover.drag_active ==> !hovered(
            hover,
            HoverEvent::Fired,
        ).expanded,
        hovered(hover, HoverEvent::Fired).timer is None,
        hovered(hover, HoverEvent::DragBegin) == (Hover {
            expanded: true,
            timer: None,
            drag_active: true,
        }),
        hovered(hover, HoverEvent::DragEnd).timer == Some(HoverTimer::Collapse),
        !hovered(hover, HoverEvent::DragEnd).drag_active,
        hovered(hover, HoverEvent::DragEnd).expanded == hover.expanded,
{
}

/// The initials of a name are the first letters of its first two words.
pub proof fn law_initials_are_first_letters(name: Seq<char>)
    ensures
        initials(name).len() <= 2,
        words(name).len() <= 2 ==> initials(name).len() == words(name).len(),
        words(name).len() >= 2 ==> initials(name).len() == 2,
        forall|i: int|
            0 <= i < initials(name).len() ==> #[trigger] initials(name)[i] == words(name)[i][0],
{
}

} // verus!
