//! Live desktop state: every tracked window, workspace, and monitor.
//!
//! `World` is the daemon's in-memory model of Hyprland, maintained by
//! idempotent upserts so that a full re-hydration dump and a replayed event
//! stream converge to the same state regardless of interleaving.
//!
//! Window keys are canonical address strings (`0x…`) produced by the IPC
//! layer; they are plain strings here, independent of the Hyprland transport.

use vstd::prelude::*;

use crate::domain::model::{ProjectId, Slug};
use crate::tables::{
    count_rows, distinct, keys_where, lemma_table_absent, lemma_table_count, lemma_table_insert,
    lemma_table_len, lemma_table_map, lemma_table_push, lemma_table_remove, lemma_table_row,
    lemma_table_update, table,
};
use crate::text::{comes_before, same};
use crate::text::{lemma_precedes_total, lemma_precedes_transitive, precedes};

verus! {

// ---- windows --------------------------------------------------------------------

/// Everything the daemon knows about one live window.
#[derive(Debug, PartialEq)]
pub struct WindowFacts {
    /// Current window class.
    pub class: String,
    /// Current title.
    pub title: String,
    /// Class at map time.
    pub initial_class: String,
    /// Title at map time.
    pub initial_title: String,
    /// Executable path resolved from `/proc/<pid>/exe`, when available.
    pub executable: Option<String>,
    /// Process id (not unique per window).
    pub pid: i32,
    /// Workspace id the window is on.
    pub workspace_id: i64,
    /// Workspace name the window is on.
    pub workspace: String,
    /// Monitor id.
    pub monitor: i64,
    /// Top-left corner.
    pub at: (i32, i32),
    /// Size in pixels.
    pub size: (i32, i32),
    /// Whether the window floats.
    pub floating: bool,
    /// Whether the window is pinned.
    pub pinned: bool,
    /// Fullscreen mode (0/1/2).
    pub fullscreen: u8,
}

/// What a [`WindowFacts`] holds.
#[verifier::ext_equal]
pub struct WindowFactsView {
    /// See [`WindowFacts::class`].
    pub class: Seq<char>,
    /// See [`WindowFacts::title`].
    pub title: Seq<char>,
    /// See [`WindowFacts::initial_class`].
    pub initial_class: Seq<char>,
    /// See [`WindowFacts::initial_title`].
    pub initial_title: Seq<char>,
    /// See [`WindowFacts::executable`].
    pub executable: Option<Seq<char>>,
    /// See [`WindowFacts::pid`].
    pub pid: i32,
    /// See [`WindowFacts::workspace_id`].
    pub workspace_id: i64,
    /// See [`WindowFacts::workspace`].
    pub workspace: Seq<char>,
    /// See [`WindowFacts::monitor`].
    pub monitor: i64,
    /// See [`WindowFacts::at`].
    pub at: (i32, i32),
    /// See [`WindowFacts::size`].
    pub size: (i32, i32),
    /// See [`WindowFacts::floating`].
    pub floating: bool,
    /// See [`WindowFacts::pinned`].
    pub pinned: bool,
    /// See [`WindowFacts::fullscreen`].
    pub fullscreen: u8,
}

impl View for WindowFacts {
    type V = WindowFactsView;

    open spec fn view(&self) -> WindowFactsView {
        WindowFactsView {
            class: self.class.deep_view(),
            title: self.title.deep_view(),
            initial_class: self.initial_class.deep_view(),
            initial_title: self.initial_title.deep_view(),
            executable: self.executable.deep_view(),
            pid: self.pid,
            workspace_id: self.workspace_id,
            workspace: self.workspace.deep_view(),
            monitor: self.monitor,
            at: self.at,
            size: self.size,
            floating: self.floating,
            pinned: self.pinned,
            fullscreen: self.fullscreen,
        }
    }
}

impl DeepView for WindowFacts {
    type V = WindowFactsView;

    open spec fn deep_view(&self) -> WindowFactsView {
        self.view()
    }
}

impl Clone for WindowFacts {
    fn clone(&self) -> (r: Self)
        ensures
            r@ == self@,
    {
        let r = WindowFacts {
            class: self.class.clone(),
            title: self.title.clone(),
            initial_class: self.initial_class.clone(),
            initial_title: self.initial_title.clone(),
            executable: self.executable.clone(),
            pid: self.pid,
            workspace_id: self.workspace_id,
            workspace: self.workspace.clone(),
            monitor: self.monitor,
            at: self.at,
            size: self.size,
            floating: self.floating,
            pinned: self.pinned,
            fullscreen: self.fullscreen,
        };
        r
    }
}

impl Default for WindowFacts {
    fn default() -> (r: Self)
        ensures
            r@ == WindowFactsView::blank(),
    {
        let r = WindowFacts {
            class: String::new(),
            title: String::new(),
            initial_class: String::new(),
            initial_title: String::new(),
            executable: None,
            pid: 0,
            workspace_id: 0,
            workspace: String::new(),
            monitor: 0,
            at: (0, 0),
            size: (0, 0),
            floating: false,
            pinned: false,
            fullscreen: 0,
        };
        proof {
            assert(r@ =~= WindowFactsView::blank());
        }
        r
    }
}

impl WindowFactsView {
    /// The facts of a window of which nothing is known.
    pub open spec fn blank() -> WindowFactsView {
        WindowFactsView {
            class: seq![],
            title: seq![],
            initial_class: seq![],
            initial_title: seq![],
            executable: None,
            pid: 0,
            workspace_id: 0,
            workspace: seq![],
            monitor: 0,
            at: (0, 0),
            size: (0, 0),
            floating: false,
            pinned: false,
            fullscreen: 0,
        }
    }
}

/// How a window came to be assigned to a project.
#[derive(Debug, PartialEq, Eq)]
pub enum AssignmentSource {
    /// A rule matched (rule name recorded).
    Rule(String),
    /// The user assigned it explicitly. Never overridden by rules.
    Manual,
    /// Correlated to a restore slot.
    Restore(u128),
}

/// What an [`AssignmentSource`] holds.
pub enum AssignmentSourceView {
    /// See [`AssignmentSource::Rule`].
    Rule(Seq<char>),
    /// See [`AssignmentSource::Manual`].
    Manual,
    /// See [`AssignmentSource::Restore`].
    Restore(u128),
}

impl View for AssignmentSource {
    type V = AssignmentSourceView;

    open spec fn view(&self) -> AssignmentSourceView {
        match self {
            AssignmentSource::Rule(name) => AssignmentSourceView::Rule(name@),
            AssignmentSource::Manual => AssignmentSourceView::Manual,
            AssignmentSource::Restore(id) => AssignmentSourceView::Restore(*id),
        }
    }
}

impl DeepView for AssignmentSource {
    type V = AssignmentSourceView;

    open spec fn deep_view(&self) -> AssignmentSourceView {
        self.view()
    }
}

impl Clone for AssignmentSource {
    fn clone(&self) -> (r: Self)
        ensures
            r@ == self@,
    {
        match self {
            AssignmentSource::Rule(name) => AssignmentSource::Rule(name.clone()),
            AssignmentSource::Manual => AssignmentSource::Manual,
            AssignmentSource::Restore(id) => AssignmentSource::Restore(*id),
        }
    }
}

/// A copy of an assignment.
pub fn clone_assignment(assignment: &Option<(ProjectId, Option<Slug>)>) -> (r: Option<
    (ProjectId, Option<Slug>),
>)
    ensures
        r.deep_view() == assignment.deep_view(),
{
    match assignment {
        Some((project, group)) => Some((*project, group.clone())),
        None => None,
    }
}

/// A live window plus our annotations.
#[derive(Debug, PartialEq)]
pub struct TrackedWindow {
    /// Canonical window address (`0x…`), the per-session key.
    pub address: String,
    /// Hyprland's session-stable window id, when reported.
    pub stable_id: Option<String>,
    /// Current facts about the window.
    pub facts: WindowFacts,
    /// Project/group assignment, if any.
    pub assignment: Option<(ProjectId, Option<Slug>)>,
    /// Where the assignment came from.
    pub assigned_by: Option<AssignmentSource>,
}

/// What a [`TrackedWindow`] holds.
#[verifier::ext_equal]
pub struct TrackedWindowView {
    /// See [`TrackedWindow::address`].
    pub address: Seq<char>,
    /// See [`TrackedWindow::stable_id`].
    pub stable_id: Option<Seq<char>>,
    /// See [`TrackedWindow::facts`].
    pub facts: WindowFactsView,
    /// See [`TrackedWindow::assignment`].
    pub assignment: Option<(ProjectId, Option<Seq<char>>)>,
    /// See [`TrackedWindow::assigned_by`].
    pub assigned_by: Option<AssignmentSourceView>,
}

impl View for TrackedWindow {
    type V = TrackedWindowView;

    open spec fn view(&self) -> TrackedWindowView {
        TrackedWindowView {
            address: self.address.deep_view(),
            stable_id: self.stable_id.deep_view(),
            facts: self.facts.deep_view(),
            assignment: self.assignment.deep_view(),
            assigned_by: self.assigned_by.deep_view(),
        }
    }
}

impl DeepView for TrackedWindow {
    type V = TrackedWindowView;

    open spec fn deep_view(&self) -> TrackedWindowView {
        self.view()
    }
}

impl Clone for TrackedWindow {
    fn clone(&self) -> (r: Self)
        ensures
            r@ == self@,
    {
        let r = TrackedWindow {
            address: self.address.clone(),
            stable_id: self.stable_id.clone(),
            facts: self.facts.clone(),
            assignment: clone_assignment(&self.assignment),
            assigned_by: self.assigned_by.clone(),
        };
        r
    }
}

// ---- the window table -----------------------------------------------------------

/// The key of a window.
pub open spec fn window_key() -> spec_fn(TrackedWindowView) -> Seq<char> {
    |w: TrackedWindowView| w.address
}

/// Tracked windows keyed by canonical address. No address occurs twice; what
/// came first stays first.
#[derive(Debug)]
pub struct WindowTable {
    rows: Vec<TrackedWindow>,
}

impl View for WindowTable {
    type V = Map<Seq<char>, TrackedWindowView>;

    open spec fn view(&self) -> Map<Seq<char>, TrackedWindowView> {
        table(self.rows(), window_key())
    }
}

impl WindowTable {
    #[verifier::type_invariant]
    spec fn keyed(self) -> bool {
        distinct(self.rows.deep_view(), window_key())
    }

    /// The windows, in the order in which they were first seen.
    pub closed spec fn rows(&self) -> Seq<TrackedWindowView> {
        self.rows.deep_view()
    }

    /// A table without windows.
    pub fn new() -> (r: Self)
        ensures
            r@ == Map::<Seq<char>, TrackedWindowView>::empty(),
            r.rows() == Seq::<TrackedWindowView>::empty(),
    {
        let rows: Vec<TrackedWindow> = Vec::new();
        proof {
            assert(rows.deep_view() =~= Seq::empty());
            assert(table(rows.deep_view(), window_key()) =~= Map::empty());
        }
        WindowTable { rows }
    }

    /// How many windows there are.
    pub fn len(&self) -> (r: usize)
        ensures
            r == self@.len(),
            r == self.rows().len(),
    {
        proof {
            use_type_invariant(self);
            lemma_table_len(self.rows.deep_view(), window_key());
        }
        self.rows.len()
    }

    /// Whether there are none.
    pub fn is_empty(&self) -> (r: bool)
        ensures
            r == (self@.len() == 0),
    {
        self.len() == 0
    }

    /// The window at position `i`.
    pub fn at(&self, i: usize) -> (r: &TrackedWindow)
        requires
            i < self.rows().len(),
        ensures
            r@ == self.rows()[i as int],
            self@.dom().contains(r.address@),
            self@[r.address@] == r@,
    {
        proof {
            use_type_invariant(self);
            lemma_table_row(self.rows.deep_view(), window_key(), i as int);
        }
        &self.rows[i]
    }

    fn position(&self, address: &str) -> (r: Option<usize>)
        ensures
            r matches Some(i) ==> i < self.rows().len() && self.rows()[i as int].address
                == address@ && self@.dom().contains(address@) && self@[address@]
                == self.rows()[i as int],
            r is None ==> !self@.dom().contains(address@) && forall|i: int|
                0 <= i < self.rows().len() ==> (#[trigger] self.rows()[i]).address != address@,
    {
        let ghost rows = self.rows.deep_view();
        let mut i: usize = 0;
        while i < self.rows.len()
            invariant
                i <= self.rows.len(),
                rows == self.rows.deep_view(),
                forall|j: int| 0 <= j < i ==> (#[trigger] rows[j]).address != address@,
            decreases self.rows.len() - i,
        {
            if same(self.rows[i].address.as_str(), address) {
                proof {
                    use_type_invariant(self);
                    lemma_table_row(rows, window_key(), i as int);
                }
                return Some(i);
            }
            assert(rows[i as int] == self.rows@[i as int]@);
            i = i + 1;
        }
        proof {
            lemma_table_absent(rows, window_key(), address@);
        }
        None
    }

    /// The window with the address, if there is one.
    pub fn get(&self, address: &str) -> (r: Option<&TrackedWindow>)
        ensures
            r matches Some(w) ==> self@.dom().contains(address@) && self@[address@] == w@
                && w.address@ == address@,
            r is None ==> !self@.dom().contains(address@),
    {
        match self.position(address) {
            Some(i) => Some(&self.rows[i]),
            None => None,
        }
    }

    /// Whether there is a window with the address.
    pub fn contains(&self, address: &str) -> (r: bool)
        ensures
            r == self@.dom().contains(address@),
    {
        self.position(address).is_some()
    }

    /// Adds a window, or replaces the one with its address.
    pub fn insert(&mut self, window: TrackedWindow)
        ensures
            final(self)@ == old(self)@.insert(window.address@, window@),
    {
        let at = self.position(window.address.as_str());
        let mut rows: Vec<TrackedWindow> = Vec::new();
        proof {
            use_type_invariant(&*self);
            assert(rows.deep_view() =~= Seq::empty());
        }
        std::mem::swap(&mut rows, &mut self.rows);
        let ghost before = rows.deep_view();
        match at {
            Some(i) => {
                proof {
                    lemma_table_update(before, window_key(), i as int, window@);
                }
                rows.set(i, window);
                proof {
                    assert(rows.deep_view() =~= before.update(i as int, window@));
                }
            },
            None => {
                proof {
                    lemma_table_push(before, window_key(), window@);
                }
                rows.push(window);
                proof {
                    assert(rows.deep_view() =~= before.push(window@));
                }
            },
        }
        self.rows = rows;
    }

    /// Takes the window with the address out; without one nothing changes.
    pub fn remove(&mut self, address: &str)
        ensures
            final(self)@ == old(self)@.remove(address@),
    {
        match self.position(address) {
            Some(i) => {
                let mut rows: Vec<TrackedWindow> = Vec::new();
                proof {
                    use_type_invariant(&*self);
                    assert(rows.deep_view() =~= Seq::empty());
                }
                std::mem::swap(&mut rows, &mut self.rows);
                let ghost before = rows.deep_view();
                proof {
                    lemma_table_remove(before, window_key(), i as int);
                }
                let _ = rows.remove(i);
                proof {
                    assert(rows.deep_view() =~= before.remove(i as int));
                }
                self.rows = rows;
            },
            None => {
                proof {
                    assert(self@.remove(address@) =~= self@);
                }
            },
        }
    }
}

/// Whether a window is assigned to a project.
pub open spec fn is_assigned_to(window: TrackedWindowView, project: ProjectId) -> bool {
    window.assignment matches Some((id, _)) && id == project
}

/// A window without the assignment to a project it may have.
pub open spec fn released(window: TrackedWindowView, project: ProjectId) -> TrackedWindowView {
    if is_assigned_to(window, project) {
        TrackedWindowView { assignment: None, assigned_by: None, ..window }
    } else {
        window
    }
}

/// The windows without their assignments to a project.
pub open spec fn all_released(
    windows: Map<Seq<char>, TrackedWindowView>,
    project: ProjectId,
) -> Map<Seq<char>, TrackedWindowView> {
    Map::new(
        |address: Seq<char>| windows.dom().contains(address),
        |address: Seq<char>| released(windows[address], project),
    )
}

/// Whether a window is assigned to a group of a project.
pub open spec fn is_in_group(
    window: TrackedWindowView,
    project: ProjectId,
    group: Seq<char>,
) -> bool {
    window.assignment matches Some((id, Some(slug))) && id == project && slug == group
}

/// Whether a window is assigned to a group of a project.
pub fn in_group(window: &TrackedWindow, project: ProjectId, group: &str) -> (r: bool)
    ensures
        r == is_in_group(window@, project, group@),
{
    match &window.assignment {
        Some((id, Some(slug))) => *id == project && same(slug.as_str(), group),
        _ => false,
    }
}

/// A window with its group in another project, if it belongs to the group.
pub open spec fn regrouped(
    window: TrackedWindowView,
    project: ProjectId,
    group: Seq<char>,
    to: ProjectId,
) -> TrackedWindowView {
    if is_in_group(window, project, group) {
        TrackedWindowView {
            assignment: Some((to, Some(group))),
            assigned_by: Some(AssignmentSourceView::Manual),
            ..window
        }
    } else {
        window
    }
}

/// The windows with a group in another project.
pub open spec fn all_regrouped(
    windows: Map<Seq<char>, TrackedWindowView>,
    project: ProjectId,
    group: Seq<char>,
    to: ProjectId,
) -> Map<Seq<char>, TrackedWindowView> {
    Map::new(
        |address: Seq<char>| windows.dom().contains(address),
        |address: Seq<char>| regrouped(windows[address], project, group, to),
    )
}

/// How many windows are assigned to a project.
pub open spec fn assigned_count(
    windows: Map<Seq<char>, TrackedWindowView>,
    project: ProjectId,
) -> nat {
    keys_where(windows, |w: TrackedWindowView| is_assigned_to(w, project)).len()
}

/// The windows in ascending order of their addresses.
pub open spec fn is_window_list(
    windows: Map<Seq<char>, TrackedWindowView>,
    list: Seq<TrackedWindowView>,
) -> bool {
    &&& forall|i: int, j: int|
        0 <= i < j < list.len() ==> precedes((#[trigger] list[i]).address, (
        #[trigger] list[j]).address)
    &&& by_address(list) == windows
}

/// The list of the windows in ascending order of their addresses.
pub open spec fn window_list(windows: Map<Seq<char>, TrackedWindowView>) -> Seq<
    TrackedWindowView,
> {
    choose|list: Seq<TrackedWindowView>| is_window_list(windows, list)
}

/// Windows are filed under their addresses.
pub proof fn lemma_filed_by_address(list: Seq<TrackedWindowView>)
    ensures
        forall|address: Seq<char>| #[trigger]
            by_address(list).dom().contains(address) ==> by_address(list)[address].address
                == address,
    decreases list.len(),
{
    if list.len() > 0 {
        lemma_filed_by_address(list.drop_last());
    }
}

/// A sorted list holds the windows that are filed, and no others.
pub proof fn lemma_filed(list: Seq<TrackedWindowView>, w: TrackedWindowView)
    requires
        forall|i: int, j: int|
            0 <= i < j < list.len() ==> precedes(
                (#[trigger] list[i]).address,
                (#[trigger] list[j]).address,
            ),
    ensures
        list.contains(w) <==> by_address(list).dom().contains(w.address) && by_address(
            list,
        )[w.address] == w,
    decreases list.len(),
{
    if list.len() > 0 {
        let front = list.drop_last();
        let last = list.last();
        lemma_filed(front, w);
        if list.contains(w) {
            let k = choose|k: int| 0 <= k < list.len() && list[k] == w;
            if k < front.len() {
                assert(front[k] == w);
                lemma_precedes_total(list[k].address, list[list.len() - 1].address);
            }
        } else {
            if front.contains(w) {
                let k = choose|k: int| 0 <= k < front.len() && front[k] == w;
                assert(list[k] == w);
            }
            assert(list[list.len() - 1] != w);
        }
    }
}

proof fn lemma_same_windows(a: Seq<TrackedWindowView>, b: Seq<TrackedWindowView>)
    requires
        forall|i: int, j: int|
            0 <= i < j < a.len() ==> precedes(
                (#[trigger] a[i]).address,
                (#[trigger] a[j]).address,
            ),
        forall|i: int, j: int|
            0 <= i < j < b.len() ==> precedes(
                (#[trigger] b[i]).address,
                (#[trigger] b[j]).address,
            ),
        forall|w: TrackedWindowView| #[trigger] a.contains(w) <==> b.contains(w),
    ensures
        a == b,
    decreases a.len(),
{
    if a.len() == 0 {
        if b.len() > 0 {
            assert(b.contains(b[0]));
            assert(a.contains(b[0]));
        }
        assert(a =~= b);
    } else {
        let last = a[a.len() - 1];
        assert(a.contains(last));
        assert(b.contains(last));
        let k = choose|k: int| 0 <= k < b.len() && b[k] == last;
        let other = b[b.len() - 1];
        assert(b.contains(other));
        assert(a.contains(other));
        let m = choose|m: int| 0 <= m < a.len() && a[m] == other;
        lemma_precedes_total(last.address, other.address);
        if k < b.len() - 1 {
            assert(precedes(b[k].address, b[b.len() - 1].address));
            if m < a.len() - 1 {
                assert(precedes(a[m].address, a[a.len() - 1].address));
                lemma_precedes_transitive(last.address, other.address, last.address);
            }
            lemma_precedes_total(last.address, last.address);
        }
        assert(last == other);
        let fa = a.drop_last();
        let fb = b.drop_last();
        assert forall|w: TrackedWindowView| #[trigger] fa.contains(w) <==> fb.contains(w) by {
            if fa.contains(w) {
                let i = choose|i: int| 0 <= i < fa.len() && fa[i] == w;
                assert(a[i] == w);
                assert(a.contains(w));
                let j = choose|j: int| 0 <= j < b.len() && b[j] == w;
                assert(precedes(a[i].address, a[a.len() - 1].address));
                lemma_precedes_total(w.address, last.address);
                assert(fb[j] == w);
            }
            if fb.contains(w) {
                let i = choose|i: int| 0 <= i < fb.len() && fb[i] == w;
                assert(b[i] == w);
                assert(b.contains(w));
                assert(a.contains(w));
                let j = choose|j: int| 0 <= j < a.len() && a[j] == w;
                assert(precedes(b[i].address, b[b.len() - 1].address));
                lemma_precedes_total(w.address, last.address);
                assert(fa[j] == w);
            }
        }
        lemma_same_windows(fa, fb);
        assert(a =~= fa.push(last));
        assert(b =~= fb.push(last));
    }
}

/// There is one list of windows in ascending order of their addresses.
pub proof fn lemma_window_list(
    windows: Map<Seq<char>, TrackedWindowView>,
    a: Seq<TrackedWindowView>,
    b: Seq<TrackedWindowView>,
)
    requires
        is_window_list(windows, a),
        is_window_list(windows, b),
    ensures
        a == b,
        a == window_list(windows),
{
    let chosen = window_list(windows);
    assert forall|w: TrackedWindowView| #[trigger] a.contains(w) <==> b.contains(w) by {
        lemma_filed(a, w);
        lemma_filed(b, w);
    }
    assert forall|w: TrackedWindowView| #[trigger] a.contains(w) <==> chosen.contains(w) by {
        lemma_filed(a, w);
        lemma_filed(chosen, w);
    }
    lemma_same_windows(a, b);
    lemma_same_windows(a, chosen);
}

/// Of windows with distinct addresses each is found under its own.
proof fn lemma_by_address_is_table(list: Seq<TrackedWindowView>)
    requires
        distinct(list, window_key()),
    ensures
        by_address(list) == table(list, window_key()),
    decreases list.len(),
{
    if list.len() == 0 {
        assert(table(list, window_key()) =~= Map::empty());
    } else {
        let front = list.drop_last();
        let key = window_key();
        assert forall|i: int, j: int| 0 <= i < j < front.len() implies #[trigger] key(front[i])
            != #[trigger] key(front[j]) by {
            assert(key(list[i]) != key(list[j]));
        }
        assert forall|i: int| 0 <= i < front.len() implies key(#[trigger] front[i]) != key(
            list.last(),
        ) by {
            assert(key(list[i]) != key(list[list.len() - 1]));
        }
        lemma_by_address_is_table(front);
        lemma_table_push(front, key, list.last());
        assert(list =~= front.push(list.last()));
    }
}

impl WindowTable {
    /// Takes every assignment to the project away.
    pub fn clear_assignments(&mut self, project: ProjectId)
        ensures
            final(self)@ == all_released(old(self)@, project),
    {
        let mut rows: Vec<TrackedWindow> = Vec::new();
        proof {
            use_type_invariant(&*self);
            assert(rows.deep_view() =~= Seq::empty());
        }
        std::mem::swap(&mut rows, &mut self.rows);
        let ghost before = rows.deep_view();
        let mut i: usize = 0;
        while i < rows.len()
            invariant
                i <= rows.len(),
                rows.len() == before.len(),
                distinct(before, window_key()),
                forall|k: int|
                    0 <= k < i ==> (#[trigger] rows@[k])@ == released(before[k], project),
                forall|k: int| i <= k < rows.len() ==> (#[trigger] rows@[k])@ == before[k],
            decreases rows.len() - i,
        {
            let assigned = match &rows[i].assignment {
                Some((id, _)) => *id == project,
                None => false,
            };
            assert(assigned == is_assigned_to(before[i as int], project));
            if assigned {
                let mut window = rows[i].clone();
                window.assignment = None;
                window.assigned_by = None;
                rows.set(i, window);
            }
            i = i + 1;
        }
        proof {
            let f = |w: TrackedWindowView| released(w, project);
            assert forall|k: int| 0 <= k < before.len() implies #[trigger] rows.deep_view()[k]
                == f(before[k]) by {
                assert(rows@[k]@ == released(before[k], project));
            }
            lemma_table_map(before, window_key(), f, rows.deep_view());
            assert(table(rows.deep_view(), window_key()) =~= all_released(
                table(before, window_key()),
                project,
            ));
        }
        self.rows = rows;
    }

    /// Assigns the windows of a group to the group of that name in another
    /// project.
    pub fn move_group(&mut self, project: ProjectId, group: &Slug, to: ProjectId)
        ensures
            final(self)@ == all_regrouped(old(self)@, project, group@, to),
    {
        let mut rows: Vec<TrackedWindow> = Vec::new();
        proof {
            use_type_invariant(&*self);
            assert(rows.deep_view() =~= Seq::empty());
        }
        std::mem::swap(&mut rows, &mut self.rows);
        let ghost before = rows.deep_view();
        let mut i: usize = 0;
        while i < rows.len()
            invariant
                i <= rows.len(),
                rows.len() == before.len(),
                distinct(before, window_key()),
                forall|k: int|
                    0 <= k < i ==> (#[trigger] rows@[k])@ == regrouped(
                        before[k],
                        project,
                        group@,
                        to,
                    ),
                forall|k: int| i <= k < rows.len() ==> (#[trigger] rows@[k])@ == before[k],
            decreases rows.len() - i,
        {
            assert(rows@[i as int]@ == before[i as int]);
            if in_group(&rows[i], project, group.as_str()) {
                let mut window = rows[i].clone();
                window.assignment = Some((to, Some(group.clone())));
                window.assigned_by = Some(AssignmentSource::Manual);
                rows.set(i, window);
            }
            i = i + 1;
        }
        proof {
            let f = |w: TrackedWindowView| regrouped(w, project, group@, to);
            assert forall|k: int| 0 <= k < before.len() implies #[trigger] rows.deep_view()[k]
                == f(before[k]) by {
                assert(rows@[k]@ == regrouped(before[k], project, group@, to));
            }
            lemma_table_map(before, window_key(), f, rows.deep_view());
            assert(table(rows.deep_view(), window_key()) =~= all_regrouped(
                table(before, window_key()),
                project,
                group@,
                to,
            ));
        }
        self.rows = rows;
    }

    /// How many windows are assigned to the project.
    pub fn count_assigned(&self, project: ProjectId) -> (r: usize)
        ensures
            r == assigned_count(self@, project),
    {
        let ghost rows = self.rows.deep_view();
        let ghost p = |w: TrackedWindowView| is_assigned_to(w, project);
        let mut count: usize = 0;
        let mut i: usize = 0;
        proof {
            assert(rows.take(0) =~= seq![]);
        }
        while i < self.rows.len()
            invariant
                i <= self.rows.len(),
                rows == self.rows.deep_view(),
                p == (|w: TrackedWindowView| is_assigned_to(w, project)),
                count == count_rows(rows.take(i as int), p),
                count <= i,
            decreases self.rows.len() - i,
        {
            proof {
                assert(rows.take(i + 1).drop_last() =~= rows.take(i as int));
                assert(rows[i as int] == self.rows@[i as int]@);
            }
            let assigned = match &self.rows[i].assignment {
                Some((id, _)) => *id == project,
                None => false,
            };
            assert(assigned == p(rows[i as int]));
            if assigned {
                count = count + 1;
            }
            i = i + 1;
        }
        proof {
            assert(rows.take(i as int) =~= rows);
            use_type_invariant(self);
            lemma_table_count(rows, window_key(), p);
        }
        count
    }

    /// The windows in ascending order of their addresses.
    pub fn sorted(&self) -> (r: Vec<TrackedWindow>)
        ensures
            is_window_list(self@, r.deep_view()),
    {
        let ghost rows = self.rows.deep_view();
        let ghost key = window_key();
        let mut out: Vec<TrackedWindow> = Vec::new();
        let mut i: usize = 0;
        proof {
            use_type_invariant(self);
            assert(out.deep_view() =~= seq![]);
            assert(rows.take(0) =~= seq![]);
        }
        while i < self.rows.len()
            invariant
                i <= self.rows.len(),
                rows == self.rows.deep_view(),
                key == window_key(),
                distinct(rows, key),
                distinct(out.deep_view(), key),
                table(out.deep_view(), key) == table(rows.take(i as int), key),
                forall|k: int|
                    0 <= k < out.len() ==> exists|m: int|
                        0 <= m < i && (#[trigger] out.deep_view()[k]) == rows[m],
                forall|a: int, b: int|
                    0 <= a < b < out.len() ==> precedes(
                        (#[trigger] out.deep_view()[a]).address,
                        (#[trigger] out.deep_view()[b]).address,
                    ),
            decreases self.rows.len() - i,
        {
            let ghost list = out.deep_view();
            let ghost row = rows[i as int];
            let window = self.rows[i].clone();
            proof {
                assert(window@ == row);
                assert forall|k: int| 0 <= k < list.len() implies key(#[trigger] list[k]) != key(
                    row,
                ) by {
                    let m = choose|m: int| 0 <= m < i && list[k] == rows[m];
                    assert(key(rows[m]) != key(rows[i as int]));
                }
                let front = rows.take(i as int);
                assert forall|a: int, b: int| 0 <= a < b < front.len() implies #[trigger] key(
                    front[a],
                ) != #[trigger] key(front[b]) by {
                    assert(key(rows[a]) != key(rows[b]));
                }
                assert forall|k: int| 0 <= k < front.len() implies key(#[trigger] front[k]) != key(
                    row,
                ) by {
                    assert(key(rows[k]) != key(rows[i as int]));
                }
                lemma_table_push(front, key, row);
                assert(rows.take(i + 1) =~= front.push(row));
            }
            let mut at: usize = out.len();
            while at > 0 && comes_before(window.address.as_str(), out[at - 1].address.as_str())
                invariant
                    at <= out.len(),
                    list == out.deep_view(),
                    forall|k: int|
                        at <= k < list.len() ==> precedes(
                            window@.address,
                            (#[trigger] list[k]).address,
                        ),
                decreases at,
            {
                assert(list[at - 1] == out@[at - 1]@);
                at = at - 1;
            }
            proof {
                if at > 0 {
                    assert(list[at - 1] == out@[at - 1]@);
                    lemma_precedes_total(list[at - 1].address, row.address);
                    assert(key(list[at - 1]) != key(row));
                }
                assert forall|k: int| 0 <= k < at implies precedes(
                    (#[trigger] list[k]).address,
                    row.address,
                ) by {
                    if k < at - 1 {
                        assert(precedes(list[k].address, list[at - 1].address));
                        lemma_precedes_transitive(
                            list[k].address,
                            list[at - 1].address,
                            row.address,
                        );
                    }
                }
                lemma_table_insert(list, key, at as int, row);
            }
            out.insert(at, window);
            proof {
                let now = out.deep_view();
                assert(now =~= list.insert(at as int, row));
                assert forall|k: int| 0 <= k < now.len() implies exists|m: int|
                    0 <= m < i + 1 && (#[trigger] now[k]) == rows[m] by {
                    if k == at {
                        assert(now[k] == rows[i as int]);
                    } else {
                        let o = if k < at {
                            k
                        } else {
                            k - 1
                        };
                        let m = choose|m: int| 0 <= m < i && list[o] == rows[m];
                        assert(now[k] == rows[m]);
                    }
                }
                assert forall|a: int, b: int| 0 <= a < b < now.len() implies precedes(
                    (#[trigger] now[a]).address,
                    (#[trigger] now[b]).address,
                ) by {
                    let x = if a < at {
                        a
                    } else {
                        a - 1
                    };
                    let y = if b < at {
                        b
                    } else {
                        b - 1
                    };
                    if a != at && b != at {
                        assert(precedes(list[x].address, list[y].address));
                    } else if a == at {
                        assert(precedes(row.address, list[y].address));
                    } else {
                        assert(precedes(list[x].address, row.address));
                    }
                }
            }
            i = i + 1;
        }
        proof {
            assert(rows.take(i as int) =~= rows);
            lemma_by_address_is_table(out.deep_view());
        }
        out
    }
}

// ---- workspaces and monitors ----------------------------------------------------

/// One live workspace.
#[derive(Debug, PartialEq)]
pub struct WorkspaceInfo {
    /// Workspace id (negative for named).
    pub id: i64,
    /// Workspace name.
    pub name: String,
    /// Output name it is on.
    pub monitor: String,
}

/// What a [`WorkspaceInfo`] holds.
#[verifier::ext_equal]
pub struct WorkspaceInfoView {
    /// See [`WorkspaceInfo::id`].
    pub id: i64,
    /// See [`WorkspaceInfo::name`].
    pub name: Seq<char>,
    /// See [`WorkspaceInfo::monitor`].
    pub monitor: Seq<char>,
}

impl View for WorkspaceInfo {
    type V = WorkspaceInfoView;

    open spec fn view(&self) -> WorkspaceInfoView {
        WorkspaceInfoView {
            id: self.id,
            name: self.name.deep_view(),
            monitor: self.monitor.deep_view(),
        }
    }
}

impl DeepView for WorkspaceInfo {
    type V = WorkspaceInfoView;

    open spec fn deep_view(&self) -> WorkspaceInfoView {
        self.view()
    }
}

impl Clone for WorkspaceInfo {
    fn clone(&self) -> (r: Self)
        ensures
            r@ == self@,
    {
        let r = WorkspaceInfo {
            id: self.id,
            name: self.name.clone(),
            monitor: self.monitor.clone(),
        };
        r
    }
}

/// One live monitor.
#[derive(Debug, PartialEq)]
pub struct MonitorInfo {
    /// Monitor id.
    pub id: i64,
    /// Output name.
    pub name: String,
    /// Whether it has focus.
    pub focused: bool,
}

/// What a [`MonitorInfo`] holds.
#[verifier::ext_equal]
pub struct MonitorInfoView {
    /// See [`MonitorInfo::id`].
    pub id: i64,
    /// See [`MonitorInfo::name`].
    pub name: Seq<char>,
    /// See [`MonitorInfo::focused`].
    pub focused: bool,
}

impl View for MonitorInfo {
    type V = MonitorInfoView;

    open spec fn view(&self) -> MonitorInfoView {
        MonitorInfoView {
            id: self.id,
            name: self.name.deep_view(),
            focused: self.focused,
        }
    }
}

impl DeepView for MonitorInfo {
    type V = MonitorInfoView;

    open spec fn deep_view(&self) -> MonitorInfoView {
        self.view()
    }
}

impl Clone for MonitorInfo {
    fn clone(&self) -> (r: Self)
        ensures
            r@ == self@,
    {
        let r = MonitorInfo {
            id: self.id,
            name: self.name.clone(),
            focused: self.focused,
        };
        r
    }
}

// ---- the workspace table --------------------------------------------------------

/// The key of a workspace.
pub open spec fn workspace_key() -> spec_fn(WorkspaceInfoView) -> i64 {
    |w: WorkspaceInfoView| w.id
}

/// Live workspaces keyed by id. No id occurs twice; what came first stays
/// first.
#[derive(Debug)]
pub struct WorkspaceTable {
    rows: Vec<WorkspaceInfo>,
}

impl View for WorkspaceTable {
    type V = Map<i64, WorkspaceInfoView>;

    open spec fn view(&self) -> Map<i64, WorkspaceInfoView> {
        table(self.rows(), workspace_key())
    }
}

impl WorkspaceTable {
    #[verifier::type_invariant]
    spec fn keyed(self) -> bool {
        distinct(self.rows.deep_view(), workspace_key())
    }

    /// The workspaces, in the order in which they were first seen.
    pub closed spec fn rows(&self) -> Seq<WorkspaceInfoView> {
        self.rows.deep_view()
    }

    /// A table without workspaces.
    pub fn new() -> (r: Self)
        ensures
            r@ == Map::<i64, WorkspaceInfoView>::empty(),
            r.rows() == Seq::<WorkspaceInfoView>::empty(),
    {
        let rows: Vec<WorkspaceInfo> = Vec::new();
        proof {
            assert(rows.deep_view() =~= Seq::empty());
            assert(table(rows.deep_view(), workspace_key()) =~= Map::empty());
        }
        WorkspaceTable { rows }
    }

    /// How many workspaces there are.
    pub fn len(&self) -> (r: usize)
        ensures
            r == self@.len(),
            r == self.rows().len(),
    {
        proof {
            use_type_invariant(self);
            lemma_table_len(self.rows.deep_view(), workspace_key());
        }
        self.rows.len()
    }

    /// Whether there are none.
    pub fn is_empty(&self) -> (r: bool)
        ensures
            r == (self@.len() == 0),
    {
        self.len() == 0
    }

    /// The workspace at position `i`.
    pub fn at(&self, i: usize) -> (r: &WorkspaceInfo)
        requires
            i < self.rows().len(),
        ensures
            r@ == self.rows()[i as int],
            self@.dom().contains(r.id),
            self@[r.id] == r@,
    {
        proof {
            use_type_invariant(self);
            lemma_table_row(self.rows.deep_view(), workspace_key(), i as int);
        }
        &self.rows[i]
    }

    fn position(&self, id: i64) -> (r: Option<usize>)
        ensures
            r matches Some(i) ==> i < self.rows().len() && self.rows()[i as int].id
                == id && self@.dom().contains(id) && self@[id]
                == self.rows()[i as int],
            r is None ==> !self@.dom().contains(id) && forall|i: int|
                0 <= i < self.rows().len() ==> (#[trigger] self.rows()[i]).id != id,
    {
        let ghost rows = self.rows.deep_view();
        let mut i: usize = 0;
        while i < self.rows.len()
            invariant
                i <= self.rows.len(),
                rows == self.rows.deep_view(),
                forall|j: int| 0 <= j < i ==> (#[trigger] rows[j]).id != id,
            decreases self.rows.len() - i,
        {
            if self.rows[i].id == id {
                proof {
                    use_type_invariant(self);
                    lemma_table_row(rows, workspace_key(), i as int);
                }
                return Some(i);
            }
            assert(rows[i as int] == self.rows@[i as int]@);
            i = i + 1;
        }
        proof {
            lemma_table_absent(rows, workspace_key(), id);
        }
        None
    }

    /// The workspace with the id, if there is one.
    pub fn get(&self, id: i64) -> (r: Option<&WorkspaceInfo>)
        ensures
            r matches Some(w) ==> self@.dom().contains(id) && self@[id] == w@
                && w.id == id,
            r is None ==> !self@.dom().contains(id),
    {
        match self.position(id) {
            Some(i) => Some(&self.rows[i]),
            None => None,
        }
    }

    /// Whether there is a workspace with the id.
    pub fn contains(&self, id: i64) -> (r: bool)
        ensures
            r == self@.dom().contains(id),
    {
        self.position(id).is_some()
    }

    /// Adds a workspace, or replaces the one with its id.
    pub fn insert(&mut self, workspace: WorkspaceInfo)
        ensures
            final(self)@ == old(self)@.insert(workspace.id, workspace@),
    {
        let at = self.position(workspace.id);
        let mut rows: Vec<WorkspaceInfo> = Vec::new();
        proof {
            use_type_invariant(&*self);
            assert(rows.deep_view() =~= Seq::empty());
        }
        std::mem::swap(&mut rows, &mut self.rows);
        let ghost before = rows.deep_view();
        match at {
            Some(i) => {
                proof {
                    lemma_table_update(before, workspace_key(), i as int, workspace@);
                }
                rows.set(i, workspace);
                proof {
                    assert(rows.deep_view() =~= before.update(i as int, workspace@));
                }
            },
            None => {
                proof {
                    lemma_table_push(before, workspace_key(), workspace@);
                }
                rows.push(workspace);
                proof {
                    assert(rows.deep_view() =~= before.push(workspace@));
                }
            },
        }
        self.rows = rows;
    }

    /// Takes the workspace with the id out; without one nothing changes.
    pub fn remove(&mut self, id: i64)
        ensures
            final(self)@ == old(self)@.remove(id),
    {
        match self.position(id) {
            Some(i) => {
                let mut rows: Vec<WorkspaceInfo> = Vec::new();
                proof {
                    use_type_invariant(&*self);
                    assert(rows.deep_view() =~= Seq::empty());
                }
                std::mem::swap(&mut rows, &mut self.rows);
                let ghost before = rows.deep_view();
                proof {
                    lemma_table_remove(before, workspace_key(), i as int);
                }
                let _ = rows.remove(i);
                proof {
                    assert(rows.deep_view() =~= before.remove(i as int));
                }
                self.rows = rows;
            },
            None => {
                proof {
                    assert(self@.remove(id) =~= self@);
                }
            },
        }
    }
}

/// The workspaces in ascending order of their ids.
pub open spec fn is_workspace_list(
    workspaces: Map<i64, WorkspaceInfoView>,
    list: Seq<WorkspaceInfoView>,
) -> bool {
    &&& forall|i: int, j: int|
        0 <= i < j < list.len() ==> (#[trigger] list[i]).id < (#[trigger] list[j]).id
    &&& by_id(list) == workspaces
}

/// A workspace id that belongs to a name: that of a workspace with the name,
/// or 0 if there is none.
pub open spec fn is_id_of(
    workspaces: Map<i64, WorkspaceInfoView>,
    name: Seq<char>,
    id: i64,
) -> bool {
    if workspace_named(workspaces, name) {
        workspaces.dom().contains(id) && workspaces[id].name == name
    } else {
        id == 0
    }
}

/// Whether some workspace has the name.
pub open spec fn workspace_named(
    workspaces: Map<i64, WorkspaceInfoView>,
    name: Seq<char>,
) -> bool {
    exists|id: i64| #[trigger] workspaces.dom().contains(id) && workspaces[id].name == name
}

/// Of workspaces with distinct ids each is found under its own.
proof fn lemma_by_id_is_table(list: Seq<WorkspaceInfoView>)
    requires
        distinct(list, workspace_key()),
    ensures
        by_id(list) == table(list, workspace_key()),
    decreases list.len(),
{
    if list.len() == 0 {
        assert(table(list, workspace_key()) =~= Map::empty());
    } else {
        let front = list.drop_last();
        let key = workspace_key();
        assert forall|i: int, j: int| 0 <= i < j < front.len() implies #[trigger] key(front[i])
            != #[trigger] key(front[j]) by {
            assert(key(list[i]) != key(list[j]));
        }
        assert forall|i: int| 0 <= i < front.len() implies key(#[trigger] front[i]) != key(
            list.last(),
        ) by {
            assert(key(list[i]) != key(list[list.len() - 1]));
        }
        lemma_by_id_is_table(front);
        lemma_table_push(front, key, list.last());
        assert(list =~= front.push(list.last()));
    }
}

impl WorkspaceTable {
    /// The id of a workspace with the name, if there is one.
    pub fn find_named(&self, name: &str) -> (r: Option<i64>)
        ensures
            r matches Some(id) ==> self@.dom().contains(id) && self@[id].name == name@,
            r is None ==> !workspace_named(self@, name@),
    {
        let ghost rows = self.rows.deep_view();
        let mut i: usize = 0;
        proof {
            use_type_invariant(self);
        }
        while i < self.rows.len()
            invariant
                i <= self.rows.len(),
                rows == self.rows.deep_view(),
                distinct(rows, workspace_key()),
                forall|k: int| 0 <= k < i ==> (#[trigger] rows[k]).name != name@,
            decreases self.rows.len() - i,
        {
            assert(rows[i as int] == self.rows@[i as int]@);
            if same(self.rows[i].name.as_str(), name) {
                proof {
                    lemma_table_row(rows, workspace_key(), i as int);
                }
                return Some(self.rows[i].id);
            }
            i = i + 1;
        }
        proof {
            assert forall|id: i64| #[trigger] self@.dom().contains(id) implies self@[id].name
                != name@ by {
                let k = choose|k: int|
                    #[trigger] crate::tables::row_at(rows, workspace_key(), id, k);
                assert(crate::tables::row_at(rows, workspace_key(), id, k));
                lemma_table_row(rows, workspace_key(), k);
            }
        }
        None
    }

    /// The workspaces in ascending order of their ids.
    pub fn sorted(&self) -> (r: Vec<WorkspaceInfo>)
        ensures
            is_workspace_list(self@, r.deep_view()),
    {
        let ghost rows = self.rows.deep_view();
        let ghost key = workspace_key();
        let mut out: Vec<WorkspaceInfo> = Vec::new();
        let mut i: usize = 0;
        proof {
            use_type_invariant(self);
            assert(out.deep_view() =~= seq![]);
            assert(rows.take(0) =~= seq![]);
        }
        while i < self.rows.len()
            invariant
                i <= self.rows.len(),
                rows == self.rows.deep_view(),
                key == workspace_key(),
                distinct(rows, key),
                distinct(out.deep_view(), key),
                table(out.deep_view(), key) == table(rows.take(i as int), key),
                forall|k: int|
                    0 <= k < out.len() ==> exists|m: int|
                        0 <= m < i && (#[trigger] out.deep_view()[k]) == rows[m],
                forall|a: int, b: int|
                    0 <= a < b < out.len() ==> (#[trigger] out.deep_view()[a]).id < (#[trigger] out.deep_view()[b]).id,
            decreases self.rows.len() - i,
        {
            let ghost list = out.deep_view();
            let ghost row = rows[i as int];
            let workspace = self.rows[i].clone();
            proof {
                assert(workspace@ == row);
                assert forall|k: int| 0 <= k < list.len() implies key(#[trigger] list[k]) != key(
                    row,
                ) by {
                    let m = choose|m: int| 0 <= m < i && list[k] == rows[m];
                    assert(key(rows[m]) != key(rows[i as int]));
                }
                let front = rows.take(i as int);
                assert forall|a: int, b: int| 0 <= a < b < front.len() implies #[trigger] key(
                    front[a],
                ) != #[trigger] key(front[b]) by {
                    assert(key(rows[a]) != key(rows[b]));
                }
                assert forall|k: int| 0 <= k < front.len() implies key(#[trigger] front[k]) != key(
                    row,
                ) by {
                    assert(key(rows[k]) != key(rows[i as int]));
                }
                lemma_table_push(front, key, row);
                assert(rows.take(i + 1) =~= front.push(row));
            }
            let mut at: usize = out.len();
            while at > 0 && workspace.id < out[at - 1].id
                invariant
                    at <= out.len(),
                    list == out.deep_view(),
                    forall|k: int|
                        at <= k < list.len() ==> workspace@.id < (#[trigger] list[k]).id,
                decreases at,
            {
                assert(list[at - 1] == out@[at - 1]@);
                at = at - 1;
            }
            proof {
                if at > 0 {
                    assert(list[at - 1] == out@[at - 1]@);
                    assert(key(list[at - 1]) != key(row));
                }
                assert forall|k: int| 0 <= k < at implies (#[trigger] list[k]).id < row.id by {
                    if k < at - 1 {
                        assert(list[k].id < list[at - 1].id);
                    }
                }
                lemma_table_insert(list, key, at as int, row);
            }
            out.insert(at, workspace);
            proof {
                let now = out.deep_view();
                assert(now =~= list.insert(at as int, row));
                assert forall|k: int| 0 <= k < now.len() implies exists|m: int|
                    0 <= m < i + 1 && (#[trigger] now[k]) == rows[m] by {
                    if k == at {
                        assert(now[k] == rows[i as int]);
                    } else {
                        let o = if k < at {
                            k
                        } else {
                            k - 1
                        };
                        let m = choose|m: int| 0 <= m < i && list[o] == rows[m];
                        assert(now[k] == rows[m]);
                    }
                }
                assert forall|a: int, b: int| 0 <= a < b < now.len() implies (#[trigger] now[a]).id < (#[trigger] now[b]).id by {
                    let x = if a < at {
                        a
                    } else {
                        a - 1
                    };
                    let y = if b < at {
                        b
                    } else {
                        b - 1
                    };
                    if a != at && b != at {
                        assert(list[x].id < list[y].id);
                    } else if a == at {
                        assert(row.id < list[y].id);
                    } else {
                        assert(list[x].id < row.id);
                    }
                }
            }
            i = i + 1;
        }
        proof {
            assert(rows.take(i as int) =~= rows);
            lemma_by_id_is_table(out.deep_view());
        }
        out
    }
}

// ---- the world --------------------------------------------------------------------

/// The daemon's complete live-state model.
#[derive(Debug)]
pub struct World {
    /// Tracked windows keyed by canonical address.
    pub windows: WindowTable,
    /// Live workspaces keyed by id.
    pub workspaces: WorkspaceTable,
    /// Live monitors.
    pub monitors: Vec<MonitorInfo>,
    /// Address of the focused window, if any.
    pub focused_window: Option<String>,
    /// Name of the focused workspace, if known.
    pub focused_workspace: Option<String>,
    /// The active project, if any.
    pub active_project: Option<ProjectId>,
    /// Whether the Hyprland event socket is currently connected.
    pub hypr_connected: bool,
}

/// What a [`World`] holds.
#[verifier::ext_equal]
pub struct WorldView {
    /// See [`World::windows`].
    pub windows: Map<Seq<char>, TrackedWindowView>,
    /// See [`World::workspaces`].
    pub workspaces: Map<i64, WorkspaceInfoView>,
    /// See [`World::monitors`].
    pub monitors: Seq<MonitorInfoView>,
    /// See [`World::focused_window`].
    pub focused_window: Option<Seq<char>>,
    /// See [`World::focused_workspace`].
    pub focused_workspace: Option<Seq<char>>,
    /// See [`World::active_project`].
    pub active_project: Option<ProjectId>,
    /// See [`World::hypr_connected`].
    pub hypr_connected: bool,
}

impl View for World {
    type V = WorldView;

    open spec fn view(&self) -> WorldView {
        WorldView {
            windows: self.windows@,
            workspaces: self.workspaces@,
            monitors: self.monitors.deep_view(),
            focused_window: self.focused_window.deep_view(),
            focused_workspace: self.focused_workspace.deep_view(),
            active_project: self.active_project,
            hypr_connected: self.hypr_connected,
        }
    }
}

/// The windows of a list by their addresses; of two with one address the later
/// one counts.
pub open spec fn by_address(windows: Seq<TrackedWindowView>) -> Map<
    Seq<char>,
    TrackedWindowView,
>
    decreases windows.len(),
{
    if windows.len() == 0 {
        Map::empty()
    } else {
        by_address(windows.drop_last()).insert(windows.last().address, windows.last())
    }
}

/// The workspaces of a list by their ids; of two with one id the later one
/// counts.
pub open spec fn by_id(workspaces: Seq<WorkspaceInfoView>) -> Map<i64, WorkspaceInfoView>
    decreases workspaces.len(),
{
    if workspaces.len() == 0 {
        Map::empty()
    } else {
        by_id(workspaces.drop_last()).insert(workspaces.last().id, workspaces.last())
    }
}

/// A window with the annotations that were already known of its address.
pub open spec fn annotated(
    known: Map<Seq<char>, TrackedWindowView>,
    window: TrackedWindowView,
) -> TrackedWindowView {
    if known.dom().contains(window.address) {
        TrackedWindowView {
            assignment: known[window.address].assignment,
            assigned_by: known[window.address].assigned_by,
            ..window
        }
    } else {
        window
    }
}

/// The windows of a list, each with the annotations already known of it.
pub open spec fn all_annotated(
    known: Map<Seq<char>, TrackedWindowView>,
    windows: Seq<TrackedWindowView>,
) -> Seq<TrackedWindowView> {
    Seq::new(windows.len(), |i: int| annotated(known, windows[i]))
}

/// Whether a monitor has the id.
pub open spec fn has_monitor(monitors: Seq<MonitorInfoView>, id: i64) -> bool {
    exists|i: int| 0 <= i < monitors.len() && (#[trigger] monitors[i]).id == id
}

/// The monitors that do not have the id, in their order.
pub open spec fn other_monitors(monitors: Seq<MonitorInfoView>, id: i64) -> Seq<MonitorInfoView>
    decreases monitors.len(),
{
    if monitors.len() == 0 {
        seq![]
    } else {
        let rest = other_monitors(monitors.drop_last(), id);
        if monitors.last().id == id {
            rest
        } else {
            rest.push(monitors.last())
        }
    }
}

impl WorldView {
    /// The state after a full dump: everything that comes from the compositor
    /// replaced, the annotations of windows that still exist kept.
    pub open spec fn hydrated(
        self,
        windows: Seq<TrackedWindowView>,
        workspaces: Seq<WorkspaceInfoView>,
        monitors: Seq<MonitorInfoView>,
        focused_window: Option<Seq<char>>,
    ) -> WorldView {
        WorldView {
            windows: by_address(all_annotated(self.windows, windows)),
            workspaces: by_id(workspaces),
            monitors,
            focused_window,
            ..self
        }
    }

    /// A window's facts replaced, if it is known.
    pub open spec fn with_facts(self, address: Seq<char>, facts: WindowFactsView) -> WorldView {
        if self.windows.dom().contains(address) {
            WorldView {
                windows: self.windows.insert(
                    address,
                    TrackedWindowView { facts, ..self.windows[address] },
                ),
                ..self
            }
        } else {
            self
        }
    }

    /// The window that fresh facts make of an address.
    pub open spec fn upserted(
        self,
        address: Seq<char>,
        stable_id: Option<Seq<char>>,
        facts: WindowFactsView,
    ) -> TrackedWindowView {
        if self.windows.dom().contains(address) {
            TrackedWindowView {
                facts,
                stable_id: if stable_id is Some {
                    stable_id
                } else {
                    self.windows[address].stable_id
                },
                ..self.windows[address]
            }
        } else {
            TrackedWindowView { address, stable_id, facts, assignment: None, assigned_by: None }
        }
    }

    /// A window added or brought up to date.
    pub open spec fn with_window(
        self,
        address: Seq<char>,
        stable_id: Option<Seq<char>>,
        facts: WindowFactsView,
    ) -> WorldView {
        WorldView {
            windows: self.windows.insert(address, self.upserted(address, stable_id, facts)),
            ..self
        }
    }

    /// A window taken out, and with it the focus it had.
    pub open spec fn without_window(self, address: Seq<char>) -> WorldView {
        WorldView {
            windows: self.windows.remove(address),
            focused_window: if self.focused_window == Some(address) {
                None
            } else {
                self.focused_window
            },
            ..self
        }
    }

    /// A window's title replaced, if it is known.
    pub open spec fn with_title(self, address: Seq<char>, title: Seq<char>) -> WorldView {
        self.with_facts(address, WindowFactsView { title, ..self.windows[address].facts })
    }

    /// A window's floating state replaced, if it is known.
    pub open spec fn with_floating(self, address: Seq<char>, floating: bool) -> WorldView {
        self.with_facts(address, WindowFactsView { floating, ..self.windows[address].facts })
    }

    /// A window moved to a workspace, if it is known.
    pub open spec fn with_window_on(
        self,
        address: Seq<char>,
        workspace_id: i64,
        workspace: Seq<char>,
    ) -> WorldView {
        self.with_facts(
            address,
            WindowFactsView { workspace_id, workspace, ..self.windows[address].facts },
        )
    }

    /// A window's pin state replaced, if it is known.
    pub open spec fn with_pinned(self, address: Seq<char>, pinned: bool) -> WorldView {
        self.with_facts(address, WindowFactsView { pinned, ..self.windows[address].facts })
    }

    /// The focused window's fullscreen state replaced, if there is one and it
    /// is known.
    pub open spec fn with_fullscreen(self, active: bool) -> WorldView {
        match self.focused_window {
            Some(address) => self.with_facts(
                address,
                WindowFactsView {
                    fullscreen: if active {
                        2
                    } else {
                        0
                    },
                    ..self.windows[address].facts
                },
            ),
            None => self,
        }
    }

    /// A window assigned, if it is known.
    pub open spec fn with_assignment(
        self,
        address: Seq<char>,
        project: ProjectId,
        group: Option<Seq<char>>,
        source: AssignmentSourceView,
    ) -> WorldView {
        if self.windows.dom().contains(address) {
            WorldView {
                windows: self.windows.insert(
                    address,
                    TrackedWindowView {
                        assignment: Some((project, group)),
                        assigned_by: Some(source),
                        ..self.windows[address]
                    },
                ),
                ..self
            }
        } else {
            self
        }
    }

    /// The one monitor with the name focused, and no other.
    pub open spec fn with_focused_monitor(self, name: Seq<char>) -> WorldView {
        WorldView {
            monitors: Seq::new(
                self.monitors.len(),
                |i: int| MonitorInfoView {
                    focused: self.monitors[i].name == name,
                    ..self.monitors[i]
                },
            ),
            ..self
        }
    }

    /// A monitor added behind the others, unless its id is known.
    pub open spec fn with_monitor(self, id: i64, name: Seq<char>) -> WorldView {
        if has_monitor(self.monitors, id) {
            self
        } else {
            WorldView {
                monitors: self.monitors.push(MonitorInfoView { id, name, focused: false }),
                ..self
            }
        }
    }

    /// The monitors with an id taken out.
    pub open spec fn without_monitor(self, id: i64) -> WorldView {
        WorldView { monitors: other_monitors(self.monitors, id), ..self }
    }

    /// The focus moved.
    pub open spec fn with_focus(self, address: Option<Seq<char>>) -> WorldView {
        WorldView { focused_window: address, ..self }
    }

    /// A workspace added or replaced.
    pub open spec fn with_workspace(
        self,
        id: i64,
        name: Seq<char>,
        monitor: Seq<char>,
    ) -> WorldView {
        WorldView {
            workspaces: self.workspaces.insert(id, WorkspaceInfoView { id, name, monitor }),
            ..self
        }
    }

    /// A workspace taken out.
    pub open spec fn without_workspace(self, id: i64) -> WorldView {
        WorldView { workspaces: self.workspaces.remove(id), ..self }
    }

    /// A workspace renamed, if it is known.
    pub open spec fn with_workspace_named(self, id: i64, name: Seq<char>) -> WorldView {
        if self.workspaces.dom().contains(id) {
            WorldView {
                workspaces: self.workspaces.insert(
                    id,
                    WorkspaceInfoView { name, ..self.workspaces[id] },
                ),
                ..self
            }
        } else {
            self
        }
    }

    /// Every window is filed under its own address, every workspace under its
    /// own id.
    pub open spec fn well_keyed(self) -> bool {
        &&& forall|a: Seq<char>|
            self.windows.dom().contains(a) ==> (#[trigger] self.windows[a]).address == a
        &&& forall|id: i64|
            self.workspaces.dom().contains(id) ==> (#[trigger] self.workspaces[id]).id == id
    }
}

impl Default for World {
    fn default() -> (r: Self)
        ensures
            r@ == (WorldView {
                windows: Map::empty(),
                workspaces: Map::empty(),
                monitors: seq![],
                focused_window: None,
                focused_workspace: None,
                active_project: None,
                hypr_connected: false,
            }),
    {
        let r = World {
            windows: WindowTable::new(),
            workspaces: WorkspaceTable::new(),
            monitors: Vec::new(),
            focused_window: None,
            focused_workspace: None,
            active_project: None,
            hypr_connected: false,
        };
        proof {
            assert(r.monitors.deep_view() =~= seq![]);
        }
        r
    }
}

impl World {
    /// Replace all compositor-derived state from a full dump, preserving
    /// assignments of windows that still exist.
    pub fn hydrate(
        &mut self,
        windows: Vec<TrackedWindow>,
        workspaces: Vec<WorkspaceInfo>,
        monitors: Vec<MonitorInfo>,
        focused_window: Option<String>,
    )
        ensures
            final(self)@ == old(self)@.hydrated(
                windows.deep_view(),
                workspaces.deep_view(),
                monitors.deep_view(),
                focused_window.deep_view(),
            ),
    {
        let ghost incoming = windows.deep_view();
        let ghost known = self@.windows;
        let ghost marked = all_annotated(known, incoming);
        let mut next = WindowTable::new();
        let mut i: usize = 0;
        while i < windows.len()
            invariant
                i <= windows.len(),
                incoming == windows.deep_view(),
                known == self@.windows,
                marked == all_annotated(known, incoming),
                next@ == by_address(marked.take(i as int)),
            decreases windows.len() - i,
        {
            let mut window = windows[i].clone();
            proof {
                assert(window@ == incoming[i as int]);
            }
            if let Some(previous) = self.windows.get(windows[i].address.as_str()) {
                window.assignment = clone_assignment(&previous.assignment);
                window.assigned_by = previous.assigned_by.clone();
            }
            proof {
                assert(window@ == marked[i as int]);
                assert(marked.take(i + 1).drop_last() =~= marked.take(i as int));
            }
            next.insert(window);
            i = i + 1;
        }
        proof {
            assert(marked.take(i as int) =~= marked);
        }
        let ghost places = workspaces.deep_view();
        let mut spots = WorkspaceTable::new();
        let mut k: usize = 0;
        while k < workspaces.len()
            invariant
                k <= workspaces.len(),
                places == workspaces.deep_view(),
                spots@ == by_id(places.take(k as int)),
            decreases workspaces.len() - k,
        {
            proof {
                assert(places.take(k + 1).drop_last() =~= places.take(k as int));
                assert(workspaces@[k as int]@ == places[k as int]);
            }
            spots.insert(workspaces[k].clone());
            k = k + 1;
        }
        proof {
            assert(places.take(k as int) =~= places);
        }
        self.windows = next;
        self.workspaces = spots;
        self.monitors = monitors;
        self.focused_window = focused_window;
    }

    /// Insert or update a window with fresh facts (idempotent upsert).
    pub fn upsert_window(&mut self, address: &str, stable_id: Option<String>, facts: WindowFacts)
        ensures
            final(self)@ == old(self)@.with_window(address@, stable_id.deep_view(), facts@),
    {
        let window = match self.windows.get(address) {
            Some(known) => {
                let mut window = known.clone();
                window.facts = facts;
                if stable_id.is_some() {
                    window.stable_id = stable_id;
                }
                window
            },
            None => TrackedWindow {
                address: address.to_owned(),
                stable_id,
                facts,
                assignment: None,
                assigned_by: None,
            },
        };
        self.windows.insert(window);
    }

    /// Remove a window; unknown addresses are a no-op (event replay safety).
    pub fn remove_window(&mut self, address: &str)
        ensures
            final(self)@ == old(self)@.without_window(address@),
    {
        self.windows.remove(address);
        let focused = match &self.focused_window {
            Some(focused) => same(focused.as_str(), address),
            None => false,
        };
        if focused {
            self.focused_window = None;
        }
    }

    /// Update a window's title; unknown addresses are a no-op.
    pub fn set_title(&mut self, address: &str, title: &str)
        ensures
            final(self)@ == old(self)@.with_title(address@, title@),
    {
        let found = match self.windows.get(address) {
            Some(known) => Some(known.clone()),
            None => None,
        };
        if let Some(mut window) = found {
            window.facts.title = title.to_owned();
            self.windows.insert(window);
        }
    }

    /// Update a window's floating state; unknown addresses are a no-op.
    pub fn set_floating(&mut self, address: &str, floating: bool)
        ensures
            final(self)@ == old(self)@.with_floating(address@, floating),
    {
        let found = match self.windows.get(address) {
            Some(known) => Some(known.clone()),
            None => None,
        };
        if let Some(mut window) = found {
            window.facts.floating = floating;
            self.windows.insert(window);
        }
    }

    /// Move a window to a workspace; unknown addresses are a no-op.
    pub fn set_window_workspace(&mut self, address: &str, workspace_id: i64, workspace: &str)
        ensures
            final(self)@ == old(self)@.with_window_on(address@, workspace_id, workspace@),
    {
        let found = match self.windows.get(address) {
            Some(known) => Some(known.clone()),
            None => None,
        };
        if let Some(mut window) = found {
            window.facts.workspace_id = workspace_id;
            window.facts.workspace = workspace.to_owned();
            self.windows.insert(window);
        }
    }

    /// Update a window's pin state; unknown addresses are a no-op.
    pub fn set_pinned(&mut self, address: &str, pinned: bool)
        ensures
            final(self)@ == old(self)@.with_pinned(address@, pinned),
    {
        let found = match self.windows.get(address) {
            Some(known) => Some(known.clone()),
            None => None,
        };
        if let Some(mut window) = found {
            window.facts.pinned = pinned;
            self.windows.insert(window);
        }
    }

    /// Update the focused window's fullscreen state.
    pub fn set_fullscreen(&mut self, active: bool)
        ensures
            final(self)@ == old(self)@.with_fullscreen(active),
    {
        let found = match &self.focused_window {
            Some(address) => match self.windows.get(address.as_str()) {
                Some(known) => Some(known.clone()),
                None => None,
            },
            None => None,
        };
        if let Some(mut window) = found {
            window.facts.fullscreen = if active {
                2
            } else {
                0
            };
            self.windows.insert(window);
        }
    }

    /// Assign a window; unknown addresses are a no-op.
    pub fn assign(
        &mut self,
        address: &str,
        project: ProjectId,
        group: Option<Slug>,
        source: AssignmentSource,
    )
        ensures
            final(self)@ == old(self)@.with_assignment(
                address@,
                project,
                group.deep_view(),
                source@,
            ),
    {
        let found = match self.windows.get(address) {
            Some(known) => Some(known.clone()),
            None => None,
        };
        if let Some(mut window) = found {
            window.assignment = Some((project, group));
            window.assigned_by = Some(source);
            self.windows.insert(window);
        }
    }

    /// Focus the monitor with the name, and no other.
    pub fn focus_monitor(&mut self, name: &str)
        ensures
            final(self)@ == old(self)@.with_focused_monitor(name@),
    {
        let ghost before = self.monitors.deep_view();
        let mut out: Vec<MonitorInfo> = Vec::new();
        let mut i: usize = 0;
        while i < self.monitors.len()
            invariant
                i <= self.monitors.len(),
                before == self.monitors.deep_view(),
                out.len() == i,
                forall|k: int|
                    0 <= k < i ==> (#[trigger] out@[k])@ == (MonitorInfoView {
                        focused: before[k].name == name@,
                        ..before[k]
                    }),
            decreases self.monitors.len() - i,
        {
            assert(before[i as int] == self.monitors@[i as int]@);
            let mut monitor = self.monitors[i].clone();
            monitor.focused = same(monitor.name.as_str(), name);
            out.push(monitor);
            i = i + 1;
        }
        self.monitors = out;
        assert(self@ =~= old(self)@.with_focused_monitor(name@)) by {
            assert(self.monitors.deep_view() =~= old(self)@.with_focused_monitor(name@).monitors);
        }
    }

    /// Add a monitor; one with a known id is a no-op.
    pub fn add_monitor(&mut self, id: i64, name: String)
        ensures
            final(self)@ == old(self)@.with_monitor(id, name@),
    {
        let ghost before = self.monitors.deep_view();
        let mut i: usize = 0;
        while i < self.monitors.len()
            invariant
                i <= self.monitors.len(),
                before == self.monitors.deep_view(),
                *self == *old(self),
                forall|k: int| 0 <= k < i ==> (#[trigger] before[k]).id != id,
            decreases self.monitors.len() - i,
        {
            assert(before[i as int] == self.monitors@[i as int]@);
            if self.monitors[i].id == id {
                return ;
            }
            i = i + 1;
        }
        self.monitors.push(MonitorInfo { id, name, focused: false });
        proof {
            assert(self.monitors.deep_view() =~= before.push(
                MonitorInfoView { id, name: name@, focused: false },
            ));
        }
    }

    /// Remove the monitors with an id.
    pub fn remove_monitor(&mut self, id: i64)
        ensures
            final(self)@ == old(self)@.without_monitor(id),
    {
        let ghost before = self.monitors.deep_view();
        let mut out: Vec<MonitorInfo> = Vec::new();
        let mut i: usize = 0;
        proof {
            assert(before.take(0) =~= seq![]);
            assert(out.deep_view() =~= seq![]);
        }
        while i < self.monitors.len()
            invariant
                i <= self.monitors.len(),
                before == self.monitors.deep_view(),
                out.deep_view() == other_monitors(before.take(i as int), id),
            decreases self.monitors.len() - i,
        {
            let ghost kept = out.deep_view();
            proof {
                assert(before.take(i + 1).drop_last() =~= before.take(i as int));
                assert(before[i as int] == self.monitors@[i as int]@);
            }
            if self.monitors[i].id != id {
                out.push(self.monitors[i].clone());
                proof {
                    assert(out.deep_view() =~= kept.push(before[i as int]));
                }
            }
            i = i + 1;
        }
        proof {
            assert(before.take(i as int) =~= before);
        }
        self.monitors = out;
    }

    /// Record the focused window (or none).
    pub fn set_focus(&mut self, address: Option<String>)
        ensures
            final(self)@ == old(self)@.with_focus(address.deep_view()),
            final(self).windows == old(self).windows,
    {
        self.focused_window = address;
    }

    /// Insert or update a workspace.
    pub fn upsert_workspace(&mut self, id: i64, name: &str, monitor: &str)
        ensures
            final(self)@ == old(self)@.with_workspace(id, name@, monitor@),
            final(self).windows == old(self).windows,
    {
        self.workspaces.insert(
            WorkspaceInfo { id, name: name.to_owned(), monitor: monitor.to_owned() },
        );
    }

    /// Remove a workspace; unknown ids are a no-op.
    pub fn remove_workspace(&mut self, id: i64)
        ensures
            final(self)@ == old(self)@.without_workspace(id),
            final(self).windows == old(self).windows,
    {
        self.workspaces.remove(id);
    }

    /// Rename a workspace; unknown ids are a no-op.
    pub fn rename_workspace(&mut self, id: i64, name: &str)
        ensures
            final(self)@ == old(self)@.with_workspace_named(id, name@),
            final(self).windows == old(self).windows,
    {
        let found = match self.workspaces.get(id) {
            Some(known) => Some(known.clone()),
            None => None,
        };
        if let Some(mut workspace) = found {
            workspace.name = name.to_owned();
            self.workspaces.insert(workspace);
        }
    }
}

// ---- laws -----------------------------------------------------------------------

/// In every world each window is filed under its own address and each
/// workspace under its own id.
pub proof fn law_world_is_well_keyed(world: World)
    ensures
        world@.well_keyed(),
{
    assert forall|a: Seq<char>| world@.windows.dom().contains(a) implies (
    #[trigger] world@.windows[a]).address == a by {
        let i = choose|i: int|
            #[trigger] crate::tables::row_at(world.windows.rows(), window_key(), a, i);
        assert(crate::tables::row_at(world.windows.rows(), window_key(), a, i));
    }
    assert forall|id: i64| world@.workspaces.dom().contains(id) implies (
    #[trigger] world@.workspaces[id]).id == id by {
        let i = choose|i: int|
            #[trigger] crate::tables::row_at(world.workspaces.rows(), workspace_key(), id, i);
        assert(crate::tables::row_at(world.workspaces.rows(), workspace_key(), id, i));
    }
}

/// Bringing a window up to date twice does what doing it once does.
pub proof fn law_upsert_is_idempotent(
    world: WorldView,
    address: Seq<char>,
    stable_id: Option<Seq<char>>,
    facts: WindowFactsView,
)
    ensures
        world.with_window(address, stable_id, facts).with_window(address, stable_id, facts)
            == world.with_window(address, stable_id, facts),
        world.with_window(address, stable_id, facts).with_window(address, None, facts)
            == world.with_window(address, stable_id, facts),
{
    let once = world.with_window(address, stable_id, facts);
    assert(once.with_window(address, stable_id, facts) =~= once);
    assert(once.with_window(address, None, facts) =~= once);
}

/// Bringing a window up to date keeps its annotations, and leaves every other
/// window as it was.
pub proof fn law_upsert_keeps_annotations(
    world: WorldView,
    address: Seq<char>,
    stable_id: Option<Seq<char>>,
    facts: WindowFactsView,
)
    ensures
        world.windows.dom().contains(address) ==> ({
            let after = world.with_window(address, stable_id, facts).windows[address];
            after.assignment == world.windows[address].assignment && after.assigned_by
                == world.windows[address].assigned_by
        }),
        forall|other: Seq<char>|
            other != address && world.windows.dom().contains(other) ==> #[trigger] world.with_window(
                address,
                stable_id,
                facts,
            ).windows[other] == world.windows[other],
{
}

/// Updates of two different windows can come in either order.
pub proof fn law_upserts_commute(
    world: WorldView,
    a: Seq<char>,
    a_id: Option<Seq<char>>,
    a_facts: WindowFactsView,
    b: Seq<char>,
    b_id: Option<Seq<char>>,
    b_facts: WindowFactsView,
)
    requires
        a != b,
    ensures
        world.with_window(a, a_id, a_facts).with_window(b, b_id, b_facts) == world.with_window(
            b,
            b_id,
            b_facts,
        ).with_window(a, a_id, a_facts),
{
    assert(world.with_window(a, a_id, a_facts).with_window(b, b_id, b_facts)
        =~= world.with_window(b, b_id, b_facts).with_window(a, a_id, a_facts));
}

/// Events about unknown windows and workspaces change nothing.
pub proof fn law_unknown_is_no_op(
    world: WorldView,
    address: Seq<char>,
    title: Seq<char>,
    floating: bool,
    workspace_id: i64,
    workspace: Seq<char>,
    id: i64,
)
    requires
        !world.windows.dom().contains(address),
        world.focused_window != Some(address),
        !world.workspaces.dom().contains(id),
    ensures
        world.with_title(address, title) == world,
        world.with_floating(address, floating) == world,
        world.with_window_on(address, workspace_id, workspace) == world,
        world.without_window(address) == world,
        world.without_workspace(id) == world,
        world.with_workspace_named(id, workspace) == world,
{
    assert(world.without_window(address) =~= world);
    assert(world.without_workspace(id) =~= world);
}

/// Replaying an event changes nothing more.
pub proof fn law_replay_is_harmless(
    world: WorldView,
    address: Seq<char>,
    title: Seq<char>,
    floating: bool,
    workspace_id: i64,
    workspace: Seq<char>,
    monitor: Seq<char>,
)
    ensures
        world.with_title(address, title).with_title(address, title) == world.with_title(
            address,
            title,
        ),
        world.with_floating(address, floating).with_floating(address, floating)
            == world.with_floating(address, floating),
        world.with_window_on(address, workspace_id, workspace).with_window_on(
            address,
            workspace_id,
            workspace,
        ) == world.with_window_on(address, workspace_id, workspace),
        world.without_window(address).without_window(address) == world.without_window(address),
        world.with_workspace(workspace_id, workspace, monitor).with_workspace(
            workspace_id,
            workspace,
            monitor,
        ) == world.with_workspace(workspace_id, workspace, monitor),
        world.without_workspace(workspace_id).without_workspace(workspace_id)
            == world.without_workspace(workspace_id),
        world.with_workspace_named(workspace_id, workspace).with_workspace_named(
            workspace_id,
            workspace,
        ) == world.with_workspace_named(workspace_id, workspace),
{
    assert(world.with_title(address, title).with_title(address, title) =~= world.with_title(
        address,
        title,
    ));
    assert(world.with_floating(address, floating).with_floating(address, floating)
        =~= world.with_floating(address, floating));
    let moved = world.with_window_on(address, workspace_id, workspace);
    assert(moved.with_window_on(address, workspace_id, workspace) =~= moved);
    assert(world.without_window(address).without_window(address) =~= world.without_window(
        address,
    ));
    let added = world.with_workspace(workspace_id, workspace, monitor);
    assert(added.with_workspace(workspace_id, workspace, monitor) =~= added);
    assert(world.without_workspace(workspace_id).without_workspace(workspace_id)
        =~= world.without_workspace(workspace_id));
    let named = world.with_workspace_named(workspace_id, workspace);
    assert(named.with_workspace_named(workspace_id, workspace) =~= named);
}

/// A closed window has no focus.
pub proof fn law_focus_clears_on_close(world: WorldView, address: Seq<char>)
    ensures
        world.without_window(address).focused_window != Some(address),
        !world.without_window(address).windows.dom().contains(address),
{
}

proof fn lemma_by_address(known: Map<Seq<char>, TrackedWindowView>, list: Seq<TrackedWindowView>)
    ensures
        forall|a: Seq<char>| #[trigger]
            by_address(all_annotated(known, list)).dom().contains(a) <==> exists|i: int|
                0 <= i < list.len() && (#[trigger] list[i]).address == a,
        forall|a: Seq<char>| #[trigger]
            by_address(all_annotated(known, list)).dom().contains(a) ==> {
                let w = by_address(all_annotated(known, list))[a];
                &&& w.address == a
                &&& known.dom().contains(a) ==> w.assignment == known[a].assignment
                    && w.assigned_by == known[a].assigned_by
            },
    decreases list.len(),
{
    let marked = all_annotated(known, list);
    if list.len() > 0 {
        let front = list.drop_last();
        lemma_by_address(known, front);
        assert(marked.drop_last() =~= all_annotated(known, front));
        assert forall|a: Seq<char>| #[trigger]
            by_address(marked).dom().contains(a) <==> exists|i: int|
                0 <= i < list.len() && (#[trigger] list[i]).address == a by {
            if by_address(all_annotated(known, front)).dom().contains(a) {
                let i = choose|i: int| 0 <= i < front.len() && (#[trigger] front[i]).address == a;
                assert(list[i].address == a);
            }
            if a == list.last().address {
                assert(list[list.len() - 1].address == a);
            }
            if exists|i: int| 0 <= i < list.len() && (#[trigger] list[i]).address == a {
                let i = choose|i: int| 0 <= i < list.len() && (#[trigger] list[i]).address == a;
                if i < front.len() {
                    assert(front[i].address == a);
                }
            }
        }
    }
}

/// A full dump leaves exactly the windows it lists, and keeps the annotations
/// of those that were known.
pub proof fn law_hydrate_preserves_assignments(
    world: WorldView,
    windows: Seq<TrackedWindowView>,
    workspaces: Seq<WorkspaceInfoView>,
    monitors: Seq<MonitorInfoView>,
    focused: Option<Seq<char>>,
    address: Seq<char>,
)
    ensures
        world.hydrated(windows, workspaces, monitors, focused).windows.dom().contains(address)
            <==> exists|i: int| 0 <= i < windows.len() && (#[trigger] windows[i]).address
            == address,
        world.hydrated(windows, workspaces, monitors, focused).windows.dom().contains(address)
            && world.windows.dom().contains(address) ==> ({
            let w = world.hydrated(windows, workspaces, monitors, focused).windows[address];
            w.assignment == world.windows[address].assignment && w.assigned_by
                == world.windows[address].assigned_by
        }),
        world.hydrated(windows, workspaces, monitors, focused).active_project
            == world.active_project,
{
    lemma_by_address(world.windows, windows);
}

} // verus!
