//! Recovery after a restart of the daemon: the runtime snapshot of the same
//! compositor session gives windows their assignments back, without rules being
//! run again.

use vstd::prelude::*;

use crate::daemon::commands::{Command, Effect};
use crate::daemon::laws::{lemma_id_found, slugs_distinct};
use crate::daemon::requests::lemma_slug_index;
use crate::daemon::state::{find_slug, StateActor};
use crate::daemon::state::{id_index, slug_index, StateView};
use crate::domain::model::ProjectView;
use crate::domain::world::AssignmentSource;
use crate::domain::world::{
    is_window_list, lemma_filed, lemma_filed_by_address, AssignmentSourceView, TrackedWindowView,
    WorldView,
};
use crate::storage::runtime::{key_of, RuntimeAssignment, RuntimeState};
use crate::storage::runtime::{
    all_recorded, entry_index, keys_distinct, lemma_entry_index, lemma_recorded_with, recorded,
    recovery_key, source_name, RuntimeAssignmentView, RuntimeStateView,
};
use crate::text::same;
use crate::text::{lemma_precedes_total, precedes};

verus! {

/// The origin that a recorded name stands for. Which slot a restored window
/// satisfied is not recorded; the nil id stands for it.
pub open spec fn source_of(name: Seq<char>) -> AssignmentSourceView {
    if name == "manual"@ {
        AssignmentSourceView::Manual
    } else if name == "restore"@ {
        AssignmentSourceView::Restore(0)
    } else {
        AssignmentSourceView::Rule(name)
    }
}

/// The assignment that is recovered for a window: none if it has one already,
/// if nothing is recorded under its key, or if the project is gone.
pub open spec fn recovery(
    projects: Seq<ProjectView>,
    entries: Seq<(Seq<char>, RuntimeAssignmentView)>,
    window: TrackedWindowView,
) -> Option<(int, RuntimeAssignmentView)> {
    if window.assignment is Some {
        None
    } else {
        match entry_index(entries, recovery_key(window), 0) {
            None => None,
            Some(i) => match slug_index(projects, entries[i].1.project, 0) {
                None => None,
                Some(p) => Some((p, entries[i].1)),
            },
        }
    }
}

/// A window after recovery.
pub open spec fn window_recovered(
    projects: Seq<ProjectView>,
    entries: Seq<(Seq<char>, RuntimeAssignmentView)>,
    window: TrackedWindowView,
) -> TrackedWindowView {
    match recovery(projects, entries, window) {
        None => window,
        Some((p, entry)) => TrackedWindowView {
            assignment: Some((projects[p].id, entry.group)),
            assigned_by: Some(source_of(entry.source)),
            ..window
        },
    }
}

impl StateView {
    /// The state after recovery from a snapshot: unassigned windows have their
    /// recorded assignments back, and where no project is active, the recorded
    /// one is.
    pub open spec fn recovered_from(self, runtime: RuntimeStateView) -> StateView {
        let windows = self.world.windows;
        let active = if self.world.active_project is Some {
            self.world.active_project
        } else {
            match runtime.active_project {
                Some(slug) => match slug_index(self.projects, slug, 0) {
                    Some(i) => Some(self.projects[i].id),
                    None => None,
                },
                None => None,
            }
        };
        StateView {
            world: WorldView {
                windows: Map::new(
                    |address: Seq<char>| windows.dom().contains(address),
                    |address: Seq<char>|
                        window_recovered(self.projects, runtime.assignments, windows[address]),
                ),
                active_project: active,
                ..self.world
            },
            ..self
        }
    }
}

fn find_entry(entries: &Vec<(String, RuntimeAssignment)>, key: &str) -> (r: Option<usize>)
    ensures
        match (r, entry_index(entries.deep_view(), key@, 0)) {
            (Some(i), Some(j)) => i == j && i < entries.len(),
            (None, None) => true,
            _ => false,
        },
{
    let ghost views = entries.deep_view();
    let mut i: usize = 0;
    while i < entries.len()
        invariant
            i <= entries.len(),
            views == entries.deep_view(),
            entry_index(views, key@, 0) == entry_index(views, key@, i as int),
        decreases entries.len() - i,
    {
        assert(views[i as int] == (entries@[i as int].0@, entries@[i as int].1@));
        if same(entries[i].0.as_str(), key) {
            return Some(i);
        }
        i = i + 1;
    }
    None
}

fn read_source(name: &String) -> (r: AssignmentSource)
    ensures
        r@ == source_of(name@),
{
    if same(name.as_str(), "manual") {
        AssignmentSource::Manual
    } else if same(name.as_str(), "restore") {
        AssignmentSource::Restore(0)
    } else {
        AssignmentSource::Rule(name.clone())
    }
}

impl StateActor {
    /// Give windows back the assignments that a snapshot of this compositor
    /// session records, and the active project where none is active.
    pub fn recover(&mut self, runtime: &RuntimeState)
        ensures
            final(self)@ == old(self)@.recovered_from(runtime@),
    {
        let ghost before = self@;
        let ghost entries = runtime@.assignments;
        let windows = self.world.windows.sorted();
        let ghost list = windows.deep_view();
        let mut i: usize = 0;
        proof {
            assert forall|k: int| 0 <= k < list.len() implies before.world.windows.dom().contains(
                (#[trigger] list[k]).address,
            ) && before.world.windows[list[k].address] == list[k] by {
                assert(list.contains(list[k]));
                lemma_filed(list, list[k]);
            }
        }
        while i < windows.len()
            invariant
                i <= windows.len(),
                list == windows.deep_view(),
                entries == runtime@.assignments,
                is_window_list(before.world.windows, list),
                forall|k: int|
                    0 <= k < list.len() ==> before.world.windows.dom().contains(
                        (#[trigger] list[k]).address,
                    ) && before.world.windows[list[k].address] == list[k],
                self@ == (StateView {
                    world: WorldView { windows: self@.world.windows, ..before.world },
                    ..before
                }),
                self@.world.windows.dom() == before.world.windows.dom(),
                forall|k: int|
                    0 <= k < list.len() ==> self@.world.windows[(#[trigger] list[k]).address]
                        == if k < i {
                        window_recovered(before.projects, entries, list[k])
                    } else {
                        list[k]
                    },
            decreases windows.len() - i,
        {
            let window = &windows[i];
            assert(list[i as int] == window@);
            let ghost so_far = self@;
            assert forall|k: int| 0 <= k < list.len() && k != i implies (#[trigger] list[k]).address
                != window@.address by {
                lemma_precedes_total(list[k].address, list[i as int].address);
                if k < i {
                    assert(precedes(list[k].address, list[i as int].address));
                } else {
                    assert(precedes(list[i as int].address, list[k].address));
                }
            }
            if window.assignment.is_none() {
                let key = key_of(window);
                if let Some(at) = find_entry(&runtime.assignments, key.as_str()) {
                    let entry = &runtime.assignments[at].1;
                    assert(entries[at as int] == (
                        runtime.assignments@[at as int].0@,
                        entry@,
                    ));
                    if let Some(p) = find_slug(&self.projects, entry.project.as_str()) {
                        assert(before.projects[p as int] == self.projects@[p as int]@);
                        let id = self.projects[p].id;
                        self.world.assign(
                            window.address.as_str(),
                            id,
                            entry.group.clone(),
                            read_source(&entry.source),
                        );
                        assert(self@.world.windows[window@.address] == window_recovered(
                            before.projects,
                            entries,
                            window@,
                        ));
                        assert(self@.world.windows.dom() =~= before.world.windows.dom());
                    }
                }
            }
            i = i + 1;
        }
        if self.world.active_project.is_none() {
            if let Some(slug) = &runtime.active_project {
                if let Some(p) = find_slug(&self.projects, slug.as_str()) {
                    assert(before.projects[p as int] == self.projects@[p as int]@);
                    self.world.active_project = Some(self.projects[p].id);
                }
            }
        }
        proof {
            let expected = before.recovered_from(runtime@);
            assert forall|address: Seq<char>| #[trigger]
                before.world.windows.dom().contains(address) implies self@.world.windows[address]
                == expected.world.windows[address] by {
                lemma_filed_by_address(list);
                lemma_filed(list, before.world.windows[address]);
                let k = choose|k: int|
                    0 <= k < list.len() && list[k] == before.world.windows[address];
                assert(list[k].address == address);
            }
            assert(self@.world.windows =~= expected.world.windows);
            assert(self@ =~= expected);
        }
    }
}

// ---- laws ---------------------------------------------------------------------------------

/// No two windows are recorded under one key.
pub open spec fn recovery_keys_distinct(windows: Seq<TrackedWindowView>) -> bool {
    forall|i: int, j: int|
        0 <= i < j < windows.len() ==> recovery_key(#[trigger] windows[i]) != recovery_key(
            #[trigger] windows[j],
        )
}

/// Under distinct keys, what is recorded of a window is what is found under its
/// key.
proof fn lemma_recorded(state: StateView, windows: Seq<TrackedWindowView>)
    requires
        recovery_keys_distinct(windows),
    ensures
        keys_distinct(all_recorded(state, windows)),
        forall|k: int|
            0 <= k < windows.len() ==> match recorded(state, #[trigger] windows[k]) {
                Some(entry) => all_recorded(state, windows).contains(entry),
                None => true,
            },
        forall|i: int|
            0 <= i < all_recorded(state, windows).len() ==> exists|k: int|
                0 <= k < windows.len() && recorded(state, #[trigger] windows[k]) == Some(
                    #[trigger] all_recorded(state, windows)[i],
                ),
    decreases windows.len(),
{
    if windows.len() > 0 {
        let front = windows.drop_last();
        let last = windows.last();
        let before = all_recorded(state, front);
        let after = all_recorded(state, windows);
        assert forall|i: int, j: int| 0 <= i < j < front.len() implies recovery_key(
            #[trigger] front[i],
        ) != recovery_key(#[trigger] front[j]) by {
            assert(recovery_key(windows[i]) != recovery_key(windows[j]));
        }
        lemma_recorded(state, front);
        if let Some(entry) = recorded(state, last) {
            lemma_recorded_with(before, entry);
            lemma_entry_index(before, entry.0, 0);
            if let Some(i) = entry_index(before, entry.0, 0) {
                let k = choose|k: int|
                    0 <= k < front.len() && recorded(state, #[trigger] front[k]) == Some(before[i]);
                assert(recovery_key(windows[k]) != recovery_key(windows[windows.len() - 1]));
            }
            assert(after == before.push(entry));
            assert(after[before.len() as int] == entry);
        }
        assert forall|k: int| 0 <= k < windows.len() implies match recorded(
            state,
            #[trigger] windows[k],
        ) {
            Some(entry) => after.contains(entry),
            None => true,
        } by {
            if k < front.len() {
                assert(front[k] == windows[k]);
                if let Some(entry) = recorded(state, windows[k]) {
                    let i = choose|i: int| 0 <= i < before.len() && before[i] == entry;
                    assert(after[i] == entry);
                }
            }
        }
        assert forall|i: int| 0 <= i < after.len() implies exists|k: int|
            0 <= k < windows.len() && recorded(state, #[trigger] windows[k]) == Some(
                #[trigger] after[i],
            ) by {
            if i < before.len() {
                assert(after[i] == before[i]);
                let k = choose|k: int|
                    0 <= k < front.len() && recorded(state, #[trigger] front[k]) == Some(before[i]);
                assert(windows[k] == front[k]);
            } else {
                assert(windows[windows.len() - 1] == last);
            }
        }
    }
}

/// A daemon that restarts within a compositor session has its assignments back:
/// a window that is still there, under its key, has the project, the group and
/// the kind of origin that it had; one that had none has none. A window whose
/// project does not exist has nothing recorded.
pub proof fn law_restarts_keep_assignments(
    before: StateView,
    windows: Seq<TrackedWindowView>,
    after: StateView,
    runtime: RuntimeStateView,
    address: Seq<char>,
)
    requires
        is_window_list(before.world.windows, windows),
        recovery_keys_distinct(windows),
        runtime.assignments == all_recorded(before, windows),
        slugs_distinct(before.projects),
        after.projects == before.projects,
        before.world.windows.dom().contains(address),
        after.world.windows.dom().contains(address),
        recovery_key(after.world.windows[address]) == recovery_key(before.world.windows[address]),
        after.world.windows[address].assignment is None,
    ensures
        ({
            let had = before.world.windows[address];
            let has = after.recovered_from(runtime).world.windows[address];
            match had.assignment {
                Some((id, group)) => if id_index(before.projects, id, 0) is Some {
                    &&& has.assignment == had.assignment
                    &&& source_name(has.assigned_by) == source_name(had.assigned_by)
                } else {
                    has == after.world.windows[address]
                },
                None => has == after.world.windows[address],
            }
        }),
{
    let had = before.world.windows[address];
    let entries = runtime.assignments;
    lemma_recorded(before, windows);
    lemma_filed_by_address(windows);
    lemma_filed(windows, had);
    let k = choose|k: int| 0 <= k < windows.len() && windows[k] == had;
    lemma_entry_index(entries, recovery_key(had), 0);
    let found = entry_index(entries, recovery_key(had), 0);
    match recorded(before, had) {
        Some(entry) => {
            assert(recorded(before, windows[k]) == Some(entry));
            let i = choose|i: int| 0 <= i < entries.len() && entries[i] == entry;
            assert(entries[i].0 == recovery_key(had));
            assert(found is Some);
            let j = found->0;
            if i < j {
                assert(entries[i].0 != entries[j].0);
            } else if j < i {
                assert(entries[j].0 != entries[i].0);
            }
            let (owner, _) = had.assignment->0;
            lemma_id_found(before.projects, owner, 0);
            let p = id_index(before.projects, owner, 0)->0;
            lemma_slug_index(before.projects, before.projects[p].slug, 0);
            let q = slug_index(before.projects, before.projects[p].slug, 0)->0;
            if p < q {
                assert(before.projects[p].slug != before.projects[q].slug);
            } else if q < p {
                assert(before.projects[q].slug != before.projects[p].slug);
            }
        },
        None => {
            if let Some(j) = found {
                let m = choose|m: int|
                    0 <= m < windows.len() && recorded(before, #[trigger] windows[m]) == Some(
                        entries[j],
                    );
                if m < k {
                    assert(recovery_key(windows[m]) != recovery_key(windows[k]));
                } else if k < m {
                    assert(recovery_key(windows[k]) != recovery_key(windows[m]));
                }
            }
        },
    }
}

/// Recovery never touches an assignment that is there, nor an active project.
pub proof fn law_recovery_overrides_nothing(
    state: StateView,
    runtime: RuntimeStateView,
    address: Seq<char>,
)
    requires
        state.world.windows.dom().contains(address),
        state.world.windows[address].assignment is Some,
    ensures
        state.recovered_from(runtime).world.windows[address] == state.world.windows[address],
        state.world.active_project is Some ==> state.recovered_from(runtime).world.active_project
            == state.world.active_project,
{
}

/// The key that a window goes by in a snapshot is the compositor's stable id
/// where there is one, and its address otherwise.
pub proof fn law_windows_go_by_their_stable_id(window: TrackedWindowView)
    ensures
        window.stable_id matches Some(stable_id) ==> recovery_key(window) == stable_id,
        window.stable_id is None ==> recovery_key(window) == window.address,
{
}

/// Whether an entry records an assignment: under the window's key, the slug of
/// the project, the group, and where the assignment came from.
pub open spec fn is_entry_of(
    entry: (Seq<char>, RuntimeAssignmentView),
    window: TrackedWindowView,
    project: ProjectView,
) -> bool {
    &&& entry.0 == match window.stable_id {
        Some(stable_id) => stable_id,
        None => window.address,
    }
    &&& entry.1.project == project.slug
    &&& window.assignment == Some((project.id, entry.1.group))
    &&& window.assigned_by matches Some(AssignmentSourceView::Rule(name)) ==> entry.1.source == name
    &&& window.assigned_by matches Some(AssignmentSourceView::Restore(_)) ==> entry.1.source
        == "restore"@
    &&& window.assigned_by matches Some(AssignmentSourceView::Manual) ==> entry.1.source
        == "manual"@
}

/// A snapshot records the slug of the active project, and every assignment to
/// a project that exists, and nothing that is not assigned.
pub proof fn law_snapshots_record_every_assignment(
    state: StateView,
    after: StateView,
    effect: Effect,
    list: Seq<TrackedWindowView>,
)
    requires
        state.leads_to(Command::Persist, after, effect),
        is_window_list(state.world.windows, list),
        forall|a: Seq<char>, b: Seq<char>|
            #![trigger state.world.windows[a], state.world.windows[b]]
            state.world.windows.dom().contains(a) && state.world.windows.dom().contains(b) && a != b
                ==> recovery_key(state.world.windows[a]) != recovery_key(state.world.windows[b]),
    ensures
        effect is Save,
        ({
            let runtime = effect->Save_0@;
            &&& state.world.active_project is None ==> runtime.active_project is None
            &&& forall|i: int|
                0 <= i < state.projects.len() && state.world.active_project == Some(
                    (#[trigger] state.projects[i]).id,
                ) && (forall|j: int|
                    0 <= j < i ==> (#[trigger] state.projects[j]).id != state.projects[i].id)
                    ==> runtime.active_project == Some(state.projects[i].slug)
            &&& forall|a: Seq<char>, i: int|
                (#[trigger] state.world.windows.dom().contains(a)) && 0 <= i < state.projects.len()
                    && (state.world.windows[a].assignment matches Some((owner, _)) && owner == (
                #[trigger] state.projects[i]).id) && (forall|j: int|
                    0 <= j < i ==> (#[trigger] state.projects[j]).id != state.projects[i].id)
                    ==> has_entry(
                    runtime.assignments,
                    state.world.windows[a],
                    state.projects[i],
                )
            &&& forall|n: int|
                0 <= n < runtime.assignments.len() ==> tells_of_window(
                    state,
                    #[trigger] runtime.assignments[n],
                )
        }),
{
    let runtime = effect->Save_0@;
    let windows = choose|windows: Seq<TrackedWindowView>| #[trigger]
        is_window_list(state.world.windows, windows) && runtime.assignments == all_recorded(
            state,
            windows,
        );
    lemma_filed_by_address(windows);
    assert(recovery_keys_distinct(windows)) by {
        assert forall|i: int, j: int| 0 <= i < j < windows.len() implies recovery_key(
            #[trigger] windows[i],
        ) != recovery_key(#[trigger] windows[j]) by {
            lemma_filed(windows, windows[i]);
            lemma_filed(windows, windows[j]);
            assert(windows.contains(windows[i]) && windows.contains(windows[j]));
            lemma_precedes_total(windows[i].address, windows[j].address);
            let a = windows[i].address;
            let b = windows[j].address;
            assert(state.world.windows[a] == windows[i] && state.world.windows[b] == windows[j]);
            assert(precedes(a, b));
            assert(a != b);
        }
    }
    lemma_recorded(state, windows);
    assert forall|i: int|
        0 <= i < state.projects.len() && state.world.active_project == Some(
            (#[trigger] state.projects[i]).id,
        ) && (forall|j: int|
            0 <= j < i ==> (#[trigger] state.projects[j]).id != state.projects[i].id) implies
        runtime.active_project == Some(state.projects[i].slug) by {
        lemma_first_id(state.projects, i, 0);
    }
    assert forall|a: Seq<char>, i: int|
        (#[trigger] state.world.windows.dom().contains(a)) && 0 <= i < state.projects.len() && (
        state.world.windows[a].assignment matches Some((owner, _)) && owner == (
        #[trigger] state.projects[i]).id) && (forall|j: int|
            0 <= j < i ==> (#[trigger] state.projects[j]).id != state.projects[i].id) implies
        has_entry(runtime.assignments, state.world.windows[a], state.projects[i]) by {
        let window = state.world.windows[a];
        lemma_first_id(state.projects, i, 0);
        lemma_filed(windows, window);
        let k = choose|k: int| 0 <= k < windows.len() && windows[k] == window;
        let entry = recorded(state, windows[k])->0;
        assert(runtime.assignments.contains(entry));
        let n = choose|n: int|
            0 <= n < runtime.assignments.len() && runtime.assignments[n] == entry;
        assert(is_entry_of(runtime.assignments[n], window, state.projects[i]));
    }
    assert forall|n: int| 0 <= n < runtime.assignments.len() implies tells_of_window(
        state,
        #[trigger] runtime.assignments[n],
    ) by {
        let k = choose|k: int|
            0 <= k < windows.len() && recorded(state, #[trigger] windows[k]) == Some(
                runtime.assignments[n],
            );
        let window = windows[k];
        assert(windows.contains(window));
        lemma_filed(windows, window);
        let (owner, _) = window.assignment->0;
        lemma_id_found(state.projects, owner, 0);
        let i = id_index(state.projects, owner, 0)->0;
        assert(is_entry_of(runtime.assignments[n], window, state.projects[i]));
        assert(state.world.windows.dom().contains(window.address));
    }
}

/// Whether some entry records a window's assignment to a project.
pub open spec fn has_entry(
    entries: Seq<(Seq<char>, RuntimeAssignmentView)>,
    window: TrackedWindowView,
    project: ProjectView,
) -> bool {
    exists|n: int| 0 <= n < entries.len() && is_entry_of(#[trigger] entries[n], window, project)
}

/// Whether an entry records the assignment of some window to some project.
pub open spec fn tells_of_window(
    state: StateView,
    entry: (Seq<char>, RuntimeAssignmentView),
) -> bool {
    exists|a: Seq<char>, i: int|
        (#[trigger] state.world.windows.dom().contains(a)) && 0 <= i < state.projects.len()
            && is_entry_of(entry, state.world.windows[a], #[trigger] state.projects[i])
}

proof fn lemma_first_id(projects: Seq<ProjectView>, i: int, from: int)
    requires
        0 <= from <= i < projects.len(),
        forall|j: int| from <= j < i ==> (#[trigger] projects[j]).id != projects[i].id,
    ensures
        id_index(projects, projects[i].id, from) == Some(i),
    decreases i - from,
{
    if from < i {
        assert(projects[from].id != projects[i].id);
        lemma_first_id(projects, i, from + 1);
    }
}

proof fn lemma_first_slug(projects: Seq<ProjectView>, i: int, from: int)
    requires
        0 <= from <= i < projects.len(),
        forall|j: int| from <= j < i ==> (#[trigger] projects[j]).slug != projects[i].slug,
    ensures
        slug_index(projects, projects[i].slug, from) == Some(i),
    decreases i - from,
{
    if from < i {
        assert(projects[from].slug != projects[i].slug);
        lemma_first_slug(projects, i, from + 1);
    }
}

proof fn lemma_first_entry(
    entries: Seq<(Seq<char>, RuntimeAssignmentView)>,
    n: int,
    from: int,
)
    requires
        0 <= from <= n < entries.len(),
        forall|m: int| from <= m < n ==> (#[trigger] entries[m]).0 != entries[n].0,
    ensures
        entry_index(entries, entries[n].0, from) == Some(n),
    decreases n - from,
{
    if from < n {
        assert(entries[from].0 != entries[n].0);
        lemma_first_entry(entries, n, from + 1);
    }
}

/// An unassigned window that a snapshot records under its key has the recorded
/// project and group again, by hand, by restoring or by the rule that is named,
/// as recorded; the recorded active project is active where none was. Nothing
/// is announced and no rule looks at a window.
pub proof fn law_recovery_gives_back_what_was_recorded(
    state: StateView,
    runtime: RuntimeState,
    after: StateView,
    effect: Effect,
    address: Seq<char>,
    n: int,
    i: int,
)
    requires
        state.leads_to(Command::Recover(runtime), after, effect),
        state.world.windows.dom().contains(address),
        state.world.windows[address].assignment is None,
        0 <= n < runtime@.assignments.len(),
        runtime@.assignments[n].0 == match state.world.windows[address].stable_id {
            Some(stable_id) => stable_id,
            None => state.world.windows[address].address,
        },
        forall|m: int|
            0 <= m < n ==> (#[trigger] runtime@.assignments[m]).0 != runtime@.assignments[n].0,
        0 <= i < state.projects.len(),
        state.projects[i].slug == runtime@.assignments[n].1.project,
        forall|j: int|
            0 <= j < i ==> (#[trigger] state.projects[j]).slug != state.projects[i].slug,
    ensures
        ({
            let entry = runtime@.assignments[n].1;
            let has = after.world.windows[address];
            &&& has.assignment == Some((state.projects[i].id, entry.group))
            &&& entry.source == "manual"@ ==> has.assigned_by == Some(AssignmentSourceView::Manual)
            &&& entry.source == "restore"@ && entry.source != "manual"@ ==> (has.assigned_by matches
                Some(AssignmentSourceView::Restore(_)))
            &&& entry.source != "restore"@ && entry.source != "manual"@ ==> has.assigned_by == Some(
                AssignmentSourceView::Rule(entry.source),
            )
            &&& has == (TrackedWindowView {
                assignment: has.assignment,
                assigned_by: has.assigned_by,
                ..state.world.windows[address]
            })
        }),
        after.world.windows.dom() == state.world.windows.dom(),
        state.world.active_project is Some ==> after.world.active_project
            == state.world.active_project,
        state.world.active_project is None && runtime@.active_project == Some(
            state.projects[i].slug,
        ) ==> after.world.active_project == Some(state.projects[i].id),
        state.world.active_project is None && runtime@.active_project is None
            ==> after.world.active_project is None,
        after.projects == state.projects,
        after.outbox == state.outbox,
        after.seq == state.seq,
        effect is Nothing,
{
    lemma_first_entry(runtime@.assignments, n, 0);
    lemma_first_slug(state.projects, i, 0);
    assert(after.world.windows.dom() =~= state.world.windows.dom());
}

/// A window of which nothing is recorded, or only a project that is gone, stays
/// unassigned.
pub proof fn law_recovery_invents_nothing(
    state: StateView,
    runtime: RuntimeState,
    after: StateView,
    effect: Effect,
    address: Seq<char>,
)
    requires
        state.leads_to(Command::Recover(runtime), after, effect),
        state.world.windows.dom().contains(address),
        forall|n: int|
            0 <= n < runtime@.assignments.len() && (#[trigger] runtime@.assignments[n]).0 == (
            match state.world.windows[address].stable_id {
                Some(stable_id) => stable_id,
                None => state.world.windows[address].address,
            }) ==> forall|i: int|
                0 <= i < state.projects.len() ==> (#[trigger] state.projects[i]).slug
                    != runtime@.assignments[n].1.project,
    ensures
        after.world.windows[address] == state.world.windows[address],
{
    let window = state.world.windows[address];
    lemma_entry_index(runtime@.assignments, recovery_key(window), 0);
    if let Some(n) = entry_index(runtime@.assignments, recovery_key(window), 0) {
        let entry = runtime@.assignments[n];
        assert(entry.0 == recovery_key(window));
        lemma_slug_index(state.projects, entry.1.project, 0);
        if let Some(i) = slug_index(state.projects, entry.1.project, 0) {
            assert(state.projects[i].slug == entry.1.project);
        }
    }
}

} // verus!
