//! `runtime.json`: session-scoped crash recovery.
//!
//! Records the active project and every window assignment so a daemon restart
//! mid-session recovers annotations without re-running rules. Keys prefer
//! Hyprland's `stableId` (survives daemon restarts within a compositor
//! session) and fall back to the window address. Never used across reboots —
//! cross-boot matching is `WindowIdentity`'s job.

use vstd::prelude::*;

use crate::daemon::state::{find_id, StateActor};
use crate::daemon::state::{id_index, StateView};
use crate::domain::model::Slug;
use crate::domain::world::{AssignmentSource, TrackedWindow};
use crate::domain::world::{is_window_list, AssignmentSourceView, TrackedWindowView};
use crate::paths::join_path;
use crate::paths::joined_path;
use crate::text::same;

verus! {

/// One recovered assignment.
#[derive(Debug, PartialEq)]
pub struct RuntimeAssignment {
    /// Project slug (ids are not stable across files; slugs resolve on load).
    pub project: Slug,
    /// Group slug, if assigned to a group.
    pub group: Option<Slug>,
    /// Provenance: `manual`, `restore`, or the rule name.
    pub source: String,
}

/// What a [`RuntimeAssignment`] holds.
#[verifier::ext_equal]
pub struct RuntimeAssignmentView {
    /// See [`RuntimeAssignment::project`].
    pub project: Seq<char>,
    /// See [`RuntimeAssignment::group`].
    pub group: Option<Seq<char>>,
    /// See [`RuntimeAssignment::source`].
    pub source: Seq<char>,
}

impl View for RuntimeAssignment {
    type V = RuntimeAssignmentView;

    open spec fn view(&self) -> RuntimeAssignmentView {
        RuntimeAssignmentView {
            project: self.project@,
            group: self.group.deep_view(),
            source: self.source@,
        }
    }
}

impl DeepView for RuntimeAssignment {
    type V = RuntimeAssignmentView;

    open spec fn deep_view(&self) -> RuntimeAssignmentView {
        self.view()
    }
}

/// The whole runtime snapshot.
#[derive(Debug, PartialEq)]
pub struct RuntimeState {
    /// Slug of the active project, if any.
    pub active_project: Option<Slug>,
    /// Assignments keyed by `stableId` (preferred) or window address.
    pub assignments: Vec<(String, RuntimeAssignment)>,
}

/// What a [`RuntimeState`] holds.
#[verifier::ext_equal]
pub struct RuntimeStateView {
    /// See [`RuntimeState::active_project`].
    pub active_project: Option<Seq<char>>,
    /// See [`RuntimeState::assignments`].
    pub assignments: Seq<(Seq<char>, RuntimeAssignmentView)>,
}

impl View for RuntimeState {
    type V = RuntimeStateView;

    open spec fn view(&self) -> RuntimeStateView {
        RuntimeStateView {
            active_project: self.active_project.deep_view(),
            assignments: self.assignments.deep_view(),
        }
    }
}

/// Where the snapshot is kept.
pub fn runtime_path(state_dir: &str) -> (r: String)
    ensures
        r@ == joined_path(state_dir@, "runtime.json"@),
{
    join_path(state_dir, "runtime.json")
}

/// The snapshot that is kept for a file: what the file says, and the empty one
/// when it is missing or corrupt (recovery is best-effort by design).
pub fn recovered(read: Option<RuntimeState>) -> (r: RuntimeState)
    ensures
        match read {
            Some(state) => r == state,
            None => r@ == (RuntimeStateView { active_project: None, assignments: seq![] }),
        },
{
    match read {
        Some(state) => state,
        None => {
            let r = RuntimeState { active_project: None, assignments: Vec::new() };
            assert(r.assignments.deep_view() =~= seq![]);
            r
        },
    }
}

/// The name of an assignment's origin.
pub open spec fn source_name(source: Option<AssignmentSourceView>) -> Seq<char> {
    match source {
        Some(AssignmentSourceView::Rule(name)) => name,
        Some(AssignmentSourceView::Restore(_)) => "restore"@,
        Some(AssignmentSourceView::Manual) => "manual"@,
        None => "manual"@,
    }
}

/// What a window is recorded under: Hyprland's stable id, else its address.
pub open spec fn recovery_key(window: TrackedWindowView) -> Seq<char> {
    match window.stable_id {
        Some(stable_id) => stable_id,
        None => window.address,
    }
}

/// What a window is recorded under.
pub fn key_of(window: &TrackedWindow) -> (r: String)
    ensures
        r@ == recovery_key(window@),
{
    match &window.stable_id {
        Some(stable_id) => stable_id.clone(),
        None => window.address.clone(),
    }
}

/// What is recorded of a window: nothing unless it is assigned to a project
/// that exists.
pub open spec fn recorded(state: StateView, window: TrackedWindowView) -> Option<
    (Seq<char>, RuntimeAssignmentView),
> {
    match window.assignment {
        Some((id, group)) => match id_index(state.projects, id, 0) {
            Some(i) => Some(
                (
                    recovery_key(window),
                    RuntimeAssignmentView {
                        project: state.projects[i].slug,
                        group,
                        source: source_name(window.assigned_by),
                    },
                ),
            ),
            None => None,
        },
        None => None,
    }
}

/// Where an entry with the key stands, from `from` on.
pub open spec fn entry_index(
    entries: Seq<(Seq<char>, RuntimeAssignmentView)>,
    key: Seq<char>,
    from: int,
) -> Option<int>
    decreases entries.len() - from,
{
    if from < 0 || from >= entries.len() {
        None
    } else if entries[from].0 == key {
        Some(from)
    } else {
        entry_index(entries, key, from + 1)
    }
}

/// Entries with one more, which takes the place of one with its key.
pub open spec fn recorded_with(
    entries: Seq<(Seq<char>, RuntimeAssignmentView)>,
    entry: (Seq<char>, RuntimeAssignmentView),
) -> Seq<(Seq<char>, RuntimeAssignmentView)> {
    match entry_index(entries, entry.0, 0) {
        Some(i) => entries.update(i, entry),
        None => entries.push(entry),
    }
}

/// No key occurs twice.
pub open spec fn keys_distinct(entries: Seq<(Seq<char>, RuntimeAssignmentView)>) -> bool {
    forall|i: int, j: int|
        0 <= i < j < entries.len() ==> (#[trigger] entries[i]).0 != (#[trigger] entries[j]).0
}

/// Whatever is found under a key has it; nothing is found when none has it.
pub proof fn lemma_entry_index(
    entries: Seq<(Seq<char>, RuntimeAssignmentView)>,
    key: Seq<char>,
    from: int,
)
    requires
        0 <= from,
    ensures
        match entry_index(entries, key, from) {
            Some(i) => from <= i < entries.len() && entries[i].0 == key,
            None => forall|i: int| from <= i < entries.len() ==> (#[trigger] entries[i]).0 != key,
        },
    decreases entries.len() - from,
{
    if from < entries.len() && entries[from].0 != key {
        lemma_entry_index(entries, key, from + 1);
    }
}

/// Keys stay distinct when an entry is added.
pub proof fn lemma_recorded_with(
    entries: Seq<(Seq<char>, RuntimeAssignmentView)>,
    entry: (Seq<char>, RuntimeAssignmentView),
)
    requires
        keys_distinct(entries),
    ensures
        keys_distinct(recorded_with(entries, entry)),
{
    lemma_entry_index(entries, entry.0, 0);
    let after = recorded_with(entries, entry);
    assert forall|i: int, j: int| 0 <= i < j < after.len() implies (#[trigger] after[i]).0 != (
    #[trigger] after[j]).0 by {
        if j < entries.len() {
            assert(entries[i].0 != entries[j].0);
        } else {
            assert(entries[i].0 != entry.0);
        }
    }
}

/// What is recorded of windows, in their order; of several under one key the
/// last one counts.
pub open spec fn all_recorded(state: StateView, windows: Seq<TrackedWindowView>) -> Seq<
    (Seq<char>, RuntimeAssignmentView),
>
    decreases windows.len(),
{
    if windows.len() == 0 {
        seq![]
    } else {
        let before = all_recorded(state, windows.drop_last());
        match recorded(state, windows.last()) {
            Some(entry) => recorded_with(before, entry),
            None => before,
        }
    }
}

fn put(entries: &mut Vec<(String, RuntimeAssignment)>, entry: (String, RuntimeAssignment))
    ensures
        final(entries).deep_view() == recorded_with(
            old(entries).deep_view(),
            (entry.0@, entry.1@),
        ),
{
    let ghost before = entries.deep_view();
    let mut i: usize = 0;
    while i < entries.len()
        invariant
            i <= entries.len(),
            before == entries.deep_view(),
            before == old(entries).deep_view(),
            entry_index(before, entry.0@, 0) == entry_index(before, entry.0@, i as int),
        decreases entries.len() - i,
    {
        assert(before[i as int] == (entries@[i as int].0@, entries@[i as int].1@));
        if same(entries[i].0.as_str(), entry.0.as_str()) {
            entries.set(i, entry);
            assert(entries.deep_view() =~= before.update(i as int, (entry.0@, entry.1@)));
            return;
        }
        i = i + 1;
    }
    entries.push(entry);
    assert(entries.deep_view() =~= before.push((entry.0@, entry.1@)));
}

fn record(state: &StateActor, window: &TrackedWindow) -> (r: Option<(String, RuntimeAssignment)>)
    ensures
        r.deep_view() == recorded(state@, window@),
{
    match &window.assignment {
        Some((id, group)) => match find_id(&state.projects, *id) {
            Some(i) => {
                assert(state@.projects[i as int] == state.projects@[i as int]@);
                let key = key_of(window);
                let source = match &window.assigned_by {
                    Some(AssignmentSource::Rule(name)) => name.clone(),
                    Some(AssignmentSource::Restore(_)) => "restore".to_owned(),
                    Some(AssignmentSource::Manual) => "manual".to_owned(),
                    None => "manual".to_owned(),
                };
                Some(
                    (
                        key,
                        RuntimeAssignment {
                            project: state.projects[i].slug.clone(),
                            group: group.clone(),
                            source,
                        },
                    ),
                )
            },
            None => None,
        },
        None => None,
    }
}

/// The snapshot of a state: the active project, and every assignment in
/// ascending order of the windows' addresses, each key once.
pub fn runtime_state(state: &StateActor) -> (r: RuntimeState)
    ensures
        r@.active_project == state@.slug_of_id(state@.world.active_project),
        exists|windows: Seq<TrackedWindowView>| #[trigger]
            is_window_list(state@.world.windows, windows) && r@.assignments == all_recorded(
                state@,
                windows,
            ),
        keys_distinct(r@.assignments),
{
    let active_project = match state.world.active_project {
        Some(id) => match find_id(&state.projects, id) {
            Some(i) => {
                assert(state@.projects[i as int] == state.projects@[i as int]@);
                Some(state.projects[i].slug.clone())
            },
            None => None,
        },
        None => None,
    };
    let windows = state.world.windows.sorted();
    let ghost views = windows.deep_view();
    let mut assignments: Vec<(String, RuntimeAssignment)> = Vec::new();
    let mut i: usize = 0;
    assert(views.take(0) =~= seq![]);
    assert(assignments.deep_view() =~= seq![]);
    while i < windows.len()
        invariant
            i <= windows.len(),
            views == windows.deep_view(),
            assignments.deep_view() == all_recorded(state@, views.take(i as int)),
            keys_distinct(assignments.deep_view()),
        decreases windows.len() - i,
    {
        let ghost before = assignments.deep_view();
        assert(views.take(i + 1).drop_last() =~= views.take(i as int));
        assert(views[i as int] == windows@[i as int]@);
        if let Some(entry) = record(state, &windows[i]) {
            proof {
                lemma_recorded_with(before, (entry.0@, entry.1@));
            }
            put(&mut assignments, entry);
        }
        i = i + 1;
    }
    assert(views.take(i as int) =~= views);
    assert(is_window_list(state@.world.windows, views));
    RuntimeState { active_project, assignments }
}

} // verus!
