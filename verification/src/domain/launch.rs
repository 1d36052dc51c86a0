//! Dependency ordering for app launches: a topological sort into concurrent
//! waves.
//!
//! Slots in the same wave have no ordering constraints between them and
//! launch concurrently; wave N+1 starts only when every slot it depends on is
//! ready. Cycles and references to unknown slot names are validation errors.

use vstd::prelude::*;

use crate::domain::model::AppSlot;
use crate::domain::model::{AppSlotView, LaunchSpecView};
use crate::outside::quote;
use crate::outside::quoted;
use crate::pieces::join;
use crate::pieces::joined;
use crate::text::same;

verus! {

// ---- errors -------------------------------------------------------------------

/// Errors from dependency planning.
#[derive(Debug, PartialEq, Eq)]
pub enum LaunchPlanError {
    /// An `after` entry names a slot that does not exist.
    UnknownDependency {
        /// The dependent slot's label.
        slot: String,
        /// The missing dependency name.
        dependency: String,
    },
    /// Two slots share a name.
    DuplicateName {
        /// The duplicated name.
        name: String,
    },
    /// The dependency graph has a cycle.
    Cycle {
        /// Comma-separated labels of the slots stuck in the cycle.
        slots: String,
    },
}

/// What a [`LaunchPlanError`] says.
pub enum LaunchPlanErrorView {
    /// See [`LaunchPlanError::UnknownDependency`].
    UnknownDependency {
        /// The dependent slot's label.
        slot: Seq<char>,
        /// The missing dependency name.
        dependency: Seq<char>,
    },
    /// See [`LaunchPlanError::DuplicateName`].
    DuplicateName {
        /// The duplicated name.
        name: Seq<char>,
    },
    /// See [`LaunchPlanError::Cycle`].
    Cycle {
        /// Comma-separated labels of the slots stuck in the cycle.
        slots: Seq<char>,
    },
}

impl View for LaunchPlanError {
    type V = LaunchPlanErrorView;

    open spec fn view(&self) -> LaunchPlanErrorView {
        match self {
            LaunchPlanError::UnknownDependency {
                slot,
                dependency,
            } => LaunchPlanErrorView::UnknownDependency {
                slot: slot@,
                dependency: dependency@,
            },
            LaunchPlanError::DuplicateName { name } => LaunchPlanErrorView::DuplicateName {
                name: name@,
            },
            LaunchPlanError::Cycle { slots } => LaunchPlanErrorView::Cycle { slots: slots@ },
        }
    }
}

impl LaunchPlanErrorView {
    /// The message of the error.
    pub open spec fn message(self) -> Seq<char> {
        match self {
            LaunchPlanErrorView::UnknownDependency { slot, dependency } => "slot "@ + quoted(slot)
                + " depends on unknown slot "@ + quoted(dependency),
            LaunchPlanErrorView::DuplicateName { name } => "duplicate slot name "@ + quoted(name),
            LaunchPlanErrorView::Cycle { slots } => "dependency cycle involving slots: "@ + slots,
        }
    }
}

impl LaunchPlanError {
    /// The message of the error.
    pub fn message(&self) -> (r: String)
        ensures
            r@ == self@.message(),
    {
        match self {
            LaunchPlanError::UnknownDependency { slot, dependency } => {
                let mut out = "slot ".to_owned();
                out.append(quote(slot.as_str()).as_str());
                out.append(" depends on unknown slot ");
                out.append(quote(dependency.as_str()).as_str());
                out
            },
            LaunchPlanError::DuplicateName { name } => {
                let mut out = "duplicate slot name ".to_owned();
                out.append(quote(name.as_str()).as_str());
                out
            },
            LaunchPlanError::Cycle { slots } => {
                let mut out = "dependency cycle involving slots: ".to_owned();
                out.append(slots.as_str());
                out
            },
        }
    }
}

// ---- the schedule ---------------------------------------------------------------

/// The slots behind a list of references.
pub open spec fn slot_views(slots: Seq<&AppSlot>) -> Seq<AppSlotView> {
    Seq::new(slots.len(), |i: int| slots[i]@)
}

/// The names of the slots that a slot waits for.
pub open spec fn dependencies(slot: AppSlotView) -> Seq<Seq<char>> {
    match slot.launch {
        Some(launch) => launch.after,
        None => seq![],
    }
}

/// Whether an earlier slot has the name of slot `j`.
pub open spec fn repeats_name(slots: Seq<AppSlotView>, j: int) -> bool {
    slots[j].name is Some && exists|i: int| 0 <= i < j && #[trigger] slots[i].name == slots[j].name
}

/// The first slot from `j` on whose name an earlier slot has.
pub open spec fn first_repeated(slots: Seq<AppSlotView>, j: int) -> Option<int>
    decreases slots.len() - j,
{
    if j < 0 || j >= slots.len() {
        None
    } else if repeats_name(slots, j) {
        Some(j)
    } else {
        first_repeated(slots, j + 1)
    }
}

/// Whether some slot has the name.
pub open spec fn is_named(slots: Seq<AppSlotView>, name: Seq<char>) -> bool {
    exists|i: int| 0 <= i < slots.len() && #[trigger] slots[i].name == Some(name)
}

/// The id of the slot with the name.
pub open spec fn id_named(slots: Seq<AppSlotView>, name: Seq<char>) -> u128 {
    slots[choose|i: int| 0 <= i < slots.len() && #[trigger] slots[i].name == Some(name)].slot_id
}

/// The first dependency from `(j, d)` on that names no slot: the position of
/// the dependent slot, and that of the name among its dependencies.
pub open spec fn first_unknown(slots: Seq<AppSlotView>, j: int, d: int) -> Option<(int, int)>
    decreases slots.len() - j, dependencies(slots[j]).len() - d,
{
    if j < 0 || j >= slots.len() || d < 0 {
        None
    } else if d >= dependencies(slots[j]).len() {
        first_unknown(slots, j + 1, 0)
    } else if !is_named(slots, dependencies(slots[j])[d]) {
        Some((j, d))
    } else {
        first_unknown(slots, j, d + 1)
    }
}

/// Whether everything that the slots with this id wait for is done.
pub open spec fn unblocked(slots: Seq<AppSlotView>, done: Set<u128>, id: u128) -> bool {
    forall|j: int, d: int|
        0 <= j < slots.len() && slots[j].slot_id == id && 0 <= d < dependencies(slots[j]).len()
            ==> done.contains(id_named(slots, #[trigger] dependencies(slots[j])[d]))
}

/// Whether the slots with this id can launch next.
pub open spec fn ready(slots: Seq<AppSlotView>, done: Set<u128>, id: u128) -> bool {
    !done.contains(id) && unblocked(slots, done, id)
}

/// The ids that can launch next among the first `n` slots, in their order.
pub open spec fn wave(slots: Seq<AppSlotView>, done: Set<u128>, n: int) -> Seq<u128>
    decreases n,
{
    if n <= 0 {
        seq![]
    } else if ready(slots, done, slots[n - 1].slot_id) {
        wave(slots, done, n - 1).push(slots[n - 1].slot_id)
    } else {
        wave(slots, done, n - 1)
    }
}

/// How many of the first `n` slots are not done.
pub open spec fn pending(slots: Seq<AppSlotView>, done: Set<u128>, n: int) -> nat
    decreases n,
{
    if n <= 0 {
        0
    } else {
        pending(slots, done, n - 1) + (if done.contains(slots[n - 1].slot_id) {
            0nat
        } else {
            1nat
        })
    }
}

/// `done` and everything in a wave.
pub open spec fn with_wave(done: Set<u128>, next: Seq<u128>) -> Set<u128> {
    done.union(next.to_set())
}

/// The waves that remain when `done` is done: each holds what can launch once
/// the ones before it are ready.
pub open spec fn waves_from(slots: Seq<AppSlotView>, done: Set<u128>) -> Seq<Seq<u128>>
    decreases pending(slots, done, slots.len() as int),
{
    let next = wave(slots, done, slots.len() as int);
    if next.len() == 0 {
        seq![]
    } else {
        proof {
            lemma_pending_decreases(slots, done);
        }
        seq![next] + waves_from(slots, with_wave(done, next))
    }
}

/// What is done after the first `k` of the given waves, when `start` was
/// before them.
pub open spec fn done_after(start: Set<u128>, waves: Seq<Seq<u128>>, k: int) -> Set<u128>
    decreases k,
{
    if k <= 0 {
        start
    } else {
        with_wave(done_after(start, waves, k - 1), waves[k - 1])
    }
}

/// The labels of those of the first `n` slots that are not done.
pub open spec fn stuck_labels(
    slots: Seq<AppSlotView>,
    done: Set<u128>,
    n: int,
) -> Seq<Seq<char>>
    decreases n,
{
    if n <= 0 {
        seq![]
    } else if done.contains(slots[n - 1].slot_id) {
        stuck_labels(slots, done, n - 1)
    } else {
        stuck_labels(slots, done, n - 1).push(slots[n - 1].label())
    }
}

/// The launch waves of a list of slots, or what is wrong with it.
pub open spec fn schedule(slots: Seq<AppSlotView>) -> Result<
    Seq<Seq<u128>>,
    LaunchPlanErrorView,
> {
    match first_repeated(slots, 0) {
        Some(j) => Err(LaunchPlanErrorView::DuplicateName { name: slots[j].name->0 }),
        None => match first_unknown(slots, 0, 0) {
            Some((j, d)) => Err(
                LaunchPlanErrorView::UnknownDependency {
                    slot: slots[j].label(),
                    dependency: dependencies(slots[j])[d],
                },
            ),
            None => {
                let all = waves_from(slots, Set::empty());
                let stuck = stuck_labels(
                    slots,
                    done_after(Set::empty(), all, all.len() as int),
                    slots.len() as int,
                );
                if stuck.len() == 0 {
                    Ok(all)
                } else {
                    Err(LaunchPlanErrorView::Cycle { slots: joined(stuck, ", "@) })
                }
            },
        },
    }
}

// ---- lemmas ---------------------------------------------------------------------

proof fn lemma_wave_members(slots: Seq<AppSlotView>, done: Set<u128>, n: int)
    requires
        0 <= n <= slots.len(),
    ensures
        forall|id: u128| #[trigger] wave(slots, done, n).contains(id) <==> ready(slots, done, id)
            && exists|i: int| 0 <= i < n && #[trigger] slots[i].slot_id == id,
    decreases n,
{
    if n > 0 {
        lemma_wave_members(slots, done, n - 1);
        let before = wave(slots, done, n - 1);
        let now = wave(slots, done, n);
        assert forall|id: u128| #[trigger] now.contains(id) <==> ready(slots, done, id) && exists|
            i: int,
        |
            0 <= i < n && #[trigger] slots[i].slot_id == id by {
            if ready(slots, done, slots[n - 1].slot_id) {
                assert(now =~= before.push(slots[n - 1].slot_id));
                if now.contains(id) {
                    let k = choose|k: int| 0 <= k < now.len() && now[k] == id;
                    if k < before.len() {
                        assert(before[k] == id);
                        assert(before.contains(id));
                    }
                }
                if before.contains(id) {
                    let k = choose|k: int| 0 <= k < before.len() && before[k] == id;
                    assert(now[k] == id);
                }
                if id == slots[n - 1].slot_id {
                    assert(now[before.len() as int] == id);
                }
            }
            if ready(slots, done, id) && exists|i: int|
                0 <= i < n && #[trigger] slots[i].slot_id == id {
                let i = choose|i: int| 0 <= i < n && #[trigger] slots[i].slot_id == id;
                if i < n - 1 {
                    assert(before.contains(id));
                }
            }
        }
    }
}

proof fn lemma_pending_monotone(
    slots: Seq<AppSlotView>,
    small: Set<u128>,
    large: Set<u128>,
    n: int,
)
    requires
        0 <= n <= slots.len(),
        small.subset_of(large),
    ensures
        pending(slots, large, n) <= pending(slots, small, n),
        (exists|i: int|
            0 <= i < n && large.contains(#[trigger] slots[i].slot_id) && !small.contains(
                slots[i].slot_id,
            )) ==> pending(slots, large, n) < pending(slots, small, n),
    decreases n,
{
    if n > 0 {
        lemma_pending_monotone(slots, small, large, n - 1);
    }
}

/// Each wave leaves fewer slots pending.
pub proof fn lemma_pending_decreases(slots: Seq<AppSlotView>, done: Set<u128>)
    ensures
        ({
            let next = wave(slots, done, slots.len() as int);
            next.len() > 0 ==> pending(slots, with_wave(done, next), slots.len() as int)
                < pending(slots, done, slots.len() as int)
        }),
{
    let n = slots.len() as int;
    let next = wave(slots, done, n);
    lemma_wave_members(slots, done, n);
    if next.len() > 0 {
        let id = next[0];
        assert(next.contains(id));
        let i = choose|i: int| 0 <= i < n && #[trigger] slots[i].slot_id == id;
        assert(with_wave(done, next).contains(slots[i].slot_id));
        lemma_pending_monotone(slots, done, with_wave(done, next), n);
    }
}

// ---- the scheduler ----------------------------------------------------------------

/// Whether slot `j` repeats the name of an earlier slot.
fn repeated(slots: &[&AppSlot], j: usize) -> (r: bool)
    requires
        j < slots.len(),
    ensures
        r == repeats_name(slot_views(slots@), j as int),
{
    let ghost views = slot_views(slots@);
    let name = match &slots[j].name {
        Some(name) => name,
        None => {
            return false;
        },
    };
    let mut i: usize = 0;
    while i < j
        invariant
            i <= j < slots.len(),
            views == slot_views(slots@),
            views[j as int].name == Some(name@),
            forall|k: int| 0 <= k < i ==> #[trigger] views[k].name != Some(name@),
        decreases j - i,
    {
        if let Some(other) = &slots[i].name {
            if same(other.as_str(), name.as_str()) {
                assert(views[i as int].name == views[j as int].name);
                return true;
            }
        }
        assert(views[i as int] == slots@[i as int]@);
        i = i + 1;
    }
    false
}

/// The position of the slot with the given name.
fn find_named(slots: &[&AppSlot], name: &str) -> (r: Option<usize>)
    ensures
        r matches Some(i) ==> i < slots.len() && slot_views(slots@)[i as int].name == Some(name@),
        r is None ==> !is_named(slot_views(slots@), name@),
{
    let ghost views = slot_views(slots@);
    let mut i: usize = 0;
    while i < slots.len()
        invariant
            i <= slots.len(),
            views == slot_views(slots@),
            forall|k: int| 0 <= k < i ==> #[trigger] views[k].name != Some(name@),
        decreases slots.len() - i,
    {
        assert(views[i as int] == slots@[i as int]@);
        if let Some(other) = &slots[i].name {
            if same(other.as_str(), name) {
                return Some(i);
            }
        }
        i = i + 1;
    }
    None
}

/// What `first_repeated` finds, declaratively.
proof fn lemma_first_repeated(slots: Seq<AppSlotView>, from: int)
    requires
        0 <= from <= slots.len(),
    ensures
        first_repeated(slots, from) matches Some(j) ==> from <= j < slots.len() && repeats_name(
            slots,
            j,
        ),
        first_repeated(slots, from) is None ==> forall|j: int|
            from <= j < slots.len() ==> !(#[trigger] repeats_name(slots, j)),
    decreases slots.len() - from,
{
    if from < slots.len() && !repeats_name(slots, from) {
        lemma_first_repeated(slots, from + 1);
    }
}

/// With no name repeated, a name determines its slot.
proof fn lemma_id_named(slots: Seq<AppSlotView>, name: Seq<char>, i: int)
    requires
        first_repeated(slots, 0) is None,
        0 <= i < slots.len(),
        slots[i].name == Some(name),
    ensures
        id_named(slots, name) == slots[i].slot_id,
{
    lemma_first_repeated(slots, 0);
    let k = choose|i: int| 0 <= i < slots.len() && #[trigger] slots[i].name == Some(name);
    if k < i {
        assert(repeats_name(slots, i));
    } else if i < k {
        assert(repeats_name(slots, k));
    }
}

/// The dependency ids of the slots, as far as they have been looked up.
spec fn resolved(slots: Seq<AppSlotView>, needs: Seq<Vec<u128>>, n: int) -> bool {
    &&& needs.len() == n
    &&& forall|j: int| 0 <= j < n ==> (#[trigger] needs[j])@.len() == dependencies(slots[j]).len()
    &&& forall|j: int, d: int|
        0 <= j < n && 0 <= d < dependencies(slots[j]).len() ==> #[trigger] needs[j]@[d]
            == id_named(slots, dependencies(slots[j])[d])
}

/// Looks up what the slots wait for.
fn resolve_dependencies(slots: &[&AppSlot]) -> (r: Result<Vec<Vec<u128>>, LaunchPlanError>)
    requires
        first_repeated(slot_views(slots@), 0) is None,
    ensures
        r matches Ok(needs) ==> first_unknown(slot_views(slots@), 0, 0) is None && resolved(
            slot_views(slots@),
            needs@,
            slots.len() as int,
        ),
        r matches Err(e) ==> first_unknown(slot_views(slots@), 0, 0) matches Some((j, d)) && e@
            == (LaunchPlanErrorView::UnknownDependency {
            slot: slot_views(slots@)[j].label(),
            dependency: dependencies(slot_views(slots@)[j])[d],
        }),
{
    let ghost views = slot_views(slots@);
    let mut needs: Vec<Vec<u128>> = Vec::new();
    let mut j: usize = 0;
    while j < slots.len()
        invariant
            j <= slots.len(),
            views == slot_views(slots@),
            first_repeated(views, 0) is None,
            first_unknown(views, 0, 0) == first_unknown(views, j as int, 0),
            resolved(views, needs@, j as int),
        decreases slots.len() - j,
    {
        let mut ids: Vec<u128> = Vec::new();
        assert(views[j as int] == slots@[j as int]@);
        if let Some(launch) = &slots[j].launch {
            let mut d: usize = 0;
            while d < launch.after.len()
                invariant
                    j < slots.len(),
                    views == slot_views(slots@),
                    views[j as int] == slots@[j as int]@,
                    slots@[j as int].launch == Some(*launch),
                    first_repeated(views, 0) is None,
                    d <= launch.after.len(),
                    first_unknown(views, 0, 0) == first_unknown(views, j as int, d as int),
                    ids.len() == d,
                    forall|k: int|
                        0 <= k < d ==> #[trigger] ids@[k] == id_named(
                            views,
                            dependencies(views[j as int])[k],
                        ),
                decreases launch.after.len() - d,
            {
                let name = launch.after[d].as_str();
                assert(dependencies(views[j as int])[d as int] == name@);
                match find_named(slots, name) {
                    Some(i) => {
                        proof {
                            lemma_id_named(views, name@, i as int);
                            assert(views[i as int].name == Some(name@));
                            assert(views[i as int] == slots@[i as int]@);
                        }
                        ids.push(slots[i].slot_id);
                    },
                    None => {
                        return Err(
                            LaunchPlanError::UnknownDependency {
                                slot: slots[j].label(),
                                dependency: launch.after[d].clone(),
                            },
                        );
                    },
                }
                d = d + 1;
            }
        }
        assert(first_unknown(views, 0, 0) == first_unknown(views, j + 1, 0));
        let ghost before = needs@;
        needs.push(ids);
        proof {
            assert forall|k: int, d: int|
                0 <= k < j + 1 && 0 <= d < dependencies(
                    views[k],
                ).len() implies #[trigger] needs@[k]@[d] == id_named(
                views,
                dependencies(views[k])[d],
            ) by {
                if k < j {
                    assert(needs@[k] == before[k]);
                    assert(before[k]@[d] == id_named(views, dependencies(views[k])[d]));
                }
            }
        }
        j = j + 1;
    }
    Ok(needs)
}

/// Whether an id is in the list.
fn contains_id(ids: &Vec<u128>, id: u128) -> (r: bool)
    ensures
        r == ids@.to_set().contains(id),
{
    let mut i: usize = 0;
    while i < ids.len()
        invariant
            i <= ids.len(),
            forall|k: int| 0 <= k < i ==> ids@[k] != id,
        decreases ids.len() - i,
    {
        if ids[i] == id {
            return true;
        }
        i = i + 1;
    }
    false
}

/// Whether every id in the list is done.
fn all_done(ids: &Vec<u128>, done: &Vec<u128>) -> (r: bool)
    ensures
        r == forall|k: int| 0 <= k < ids.len() ==> done@.to_set().contains(#[trigger] ids@[k]),
{
    let mut i: usize = 0;
    while i < ids.len()
        invariant
            i <= ids.len(),
            forall|k: int| 0 <= k < i ==> done@.to_set().contains(#[trigger] ids@[k]),
        decreases ids.len() - i,
    {
        if !contains_id(done, ids[i]) {
            assert(!done@.to_set().contains(ids@[i as int]));
            return false;
        }
        i = i + 1;
    }
    true
}

/// Whether the slots with this id can launch next.
fn is_ready(slots: &[&AppSlot], needs: &Vec<Vec<u128>>, done: &Vec<u128>, id: u128) -> (r: bool)
    requires
        resolved(slot_views(slots@), needs@, slots.len() as int),
    ensures
        r == ready(slot_views(slots@), done@.to_set(), id),
{
    let ghost views = slot_views(slots@);
    let ghost set = done@.to_set();
    if contains_id(done, id) {
        return false;
    }
    let mut j: usize = 0;
    while j < slots.len()
        invariant
            j <= slots.len(),
            views == slot_views(slots@),
            set == done@.to_set(),
            resolved(views, needs@, slots.len() as int),
            forall|k: int, d: int|
                0 <= k < j && views[k].slot_id == id && 0 <= d < dependencies(views[k]).len()
                    ==> set.contains(id_named(views, #[trigger] dependencies(views[k])[d])),
        decreases slots.len() - j,
    {
        assert(views[j as int] == slots@[j as int]@);
        if slots[j].slot_id == id {
            if !all_done(&needs[j], done) {
                proof {
                    let d = choose|d: int|
                        0 <= d < needs@[j as int].len() && !set.contains(
                            #[trigger] needs@[j as int]@[d],
                        );
                    assert(needs@[j as int]@[d] == id_named(
                        views,
                        dependencies(views[j as int])[d],
                    ));
                }
                return false;
            }
            assert forall|d: int| 0 <= d < dependencies(views[j as int]).len() implies set.contains(
                id_named(views, #[trigger] dependencies(views[j as int])[d]),
            ) by {
                assert(set.contains(needs@[j as int]@[d]));
            }
        }
        j = j + 1;
    }
    true
}

/// The ids that can launch next, in slot order.
fn next_wave(slots: &[&AppSlot], needs: &Vec<Vec<u128>>, done: &Vec<u128>) -> (r: Vec<u128>)
    requires
        resolved(slot_views(slots@), needs@, slots.len() as int),
    ensures
        r@ == wave(slot_views(slots@), done@.to_set(), slots.len() as int),
{
    let ghost views = slot_views(slots@);
    let mut out: Vec<u128> = Vec::new();
    let mut i: usize = 0;
    while i < slots.len()
        invariant
            i <= slots.len(),
            views == slot_views(slots@),
            resolved(views, needs@, slots.len() as int),
            out@ == wave(views, done@.to_set(), i as int),
        decreases slots.len() - i,
    {
        assert(views[i as int] == slots@[i as int]@);
        if is_ready(slots, needs, done, slots[i].slot_id) {
            out.push(slots[i].slot_id);
        }
        i = i + 1;
    }
    out
}

/// The labels of the slots that are not done.
fn labels_of_stuck(slots: &[&AppSlot], done: &Vec<u128>) -> (r: Vec<String>)
    ensures
        r.deep_view() == stuck_labels(
            slot_views(slots@),
            done@.to_set(),
            slots.len() as int,
        ),
{
    let ghost views = slot_views(slots@);
    let mut out: Vec<String> = Vec::new();
    let mut i: usize = 0;
    assert(out.deep_view() =~= seq![]);
    while i < slots.len()
        invariant
            i <= slots.len(),
            views == slot_views(slots@),
            out.deep_view() == stuck_labels(views, done@.to_set(), i as int),
        decreases slots.len() - i,
    {
        assert(views[i as int] == slots@[i as int]@);
        if !contains_id(done, slots[i].slot_id) {
            let ghost before = out.deep_view();
            let label = slots[i].label();
            out.push(label);
            proof {
                assert(out.deep_view() =~= before.push(label@));
            }
        }
        i = i + 1;
    }
    out
}

/// Order `slots` into launch waves. Slot order within a wave follows input
/// order (deterministic plans).
pub fn waves(slots: &[&AppSlot]) -> (r: Result<Vec<Vec<u128>>, LaunchPlanError>)
    ensures
        match (r, schedule(slot_views(slots@))) {
            (Ok(waves), Ok(expected)) => waves.deep_view() == expected,
            (Err(error), Err(expected)) => error@ == expected,
            _ => false,
        },
{
    let ghost views = slot_views(slots@);
    let mut j: usize = 0;
    while j < slots.len()
        invariant
            j <= slots.len(),
            views == slot_views(slots@),
            first_repeated(views, 0) == first_repeated(views, j as int),
        decreases slots.len() - j,
    {
        if repeated(slots, j) {
            assert(views[j as int] == slots@[j as int]@);
            if let Some(name) = &slots[j].name {
                return Err(LaunchPlanError::DuplicateName { name: name.clone() });
            }
        }
        j = j + 1;
    }
    let needs = match resolve_dependencies(slots) {
        Ok(needs) => needs,
        Err(error) => {
            return Err(error);
        },
    };

    let mut out: Vec<Vec<u128>> = Vec::new();
    let mut done: Vec<u128> = Vec::new();
    let mut next = next_wave(slots, &needs, &done);
    let ghost all = waves_from(views, Set::empty());
    proof {
        assert(done@.to_set() =~= Set::<u128>::empty());
        assert(out.deep_view() =~= seq![]);
        assert(out.deep_view() + all =~= all);
    }
    while next.len() > 0
        invariant
            views == slot_views(slots@),
            resolved(views, needs@, slots.len() as int),
            next@ == wave(views, done@.to_set(), slots.len() as int),
            all == out.deep_view() + waves_from(views, done@.to_set()),
            done@.to_set() == done_after(Set::empty(), all, out.len() as int),
        decreases pending(views, done@.to_set(), slots.len() as int),
    {
        let ghost before = out.deep_view();
        let ghost set = done@.to_set();
        let ghost batch = next@;
        proof {
            lemma_pending_decreases(views, set);
            assert(before.push(batch) + waves_from(views, with_wave(set, batch)) =~= before + (
            seq![batch] + waves_from(views, with_wave(set, batch))));
            assert(all[before.len() as int] == batch);
        }
        let mut i: usize = 0;
        while i < next.len()
            invariant
                i <= next.len(),
                next@ == batch,
                done@.to_set() == set.union(batch.take(i as int).to_set()),
            decreases next.len() - i,
        {
            let ghost earlier = done@;
            done.push(next[i]);
            proof {
                assert forall|id: u128| #[trigger] done@.to_set().contains(id) <==> set.union(
                    batch.take(i + 1).to_set(),
                ).contains(id) by {
                    lemma_push_to_set(earlier, batch[i as int], id);
                    assert(batch.take(i + 1) =~= batch.take(i as int).push(batch[i as int]));
                    lemma_push_to_set(batch.take(i as int), batch[i as int], id);
                }
                assert(done@.to_set() =~= set.union(batch.take(i + 1).to_set()));
            }
            i = i + 1;
        }
        assert(batch.take(i as int) =~= batch);
        assert(next.deep_view() =~= batch);
        out.push(next);
        assert(out.deep_view() =~= before.push(batch));
        next = next_wave(slots, &needs, &done);
    }
    proof {
        assert(out.deep_view() + waves_from(views, done@.to_set()) =~= out.deep_view());
    }
    let stuck = labels_of_stuck(slots, &done);
    if stuck.len() > 0 {
        return Err(LaunchPlanError::Cycle { slots: join(&stuck, ", ") });
    }
    Ok(out)
}

proof fn lemma_push_to_set(s: Seq<u128>, x: u128, id: u128)
    ensures
        s.push(x).to_set().contains(id) <==> s.to_set().contains(id) || id == x,
{
    if s.contains(id) {
        let k = choose|k: int| 0 <= k < s.len() && s[k] == id;
        assert(s.push(x)[k] == id);
    }
    if id == x {
        assert(s.push(x)[s.len() as int] == id);
    }
    if s.push(x).contains(id) && id != x {
        let k = choose|k: int| 0 <= k < s.push(x).len() && s.push(x)[k] == id;
        assert(s[k] == id);
    }
}

// ---- laws -----------------------------------------------------------------------

proof fn lemma_done_after_shift(
    start: Set<u128>,
    first: Seq<u128>,
    rest: Seq<Seq<u128>>,
    k: int,
)
    requires
        0 <= k <= rest.len(),
    ensures
        done_after(start, seq![first] + rest, k + 1) == done_after(
            with_wave(start, first),
            rest,
            k,
        ),
    decreases k,
{
    let all = seq![first] + rest;
    if k > 0 {
        lemma_done_after_shift(start, first, rest, k - 1);
        assert(all[k] == rest[k - 1]);
    } else {
        assert(all[0] == first);
        assert(done_after(start, all, 0) == start);
    }
}

/// Each wave holds what can launch after the ones before it; after the last
/// one nothing can.
proof fn lemma_waves_from(slots: Seq<AppSlotView>, start: Set<u128>)
    ensures
        ({
            let all = waves_from(slots, start);
            &&& forall|k: int|
                0 <= k < all.len() ==> #[trigger] all[k] == wave(
                    slots,
                    done_after(start, all, k),
                    slots.len() as int,
                )
            &&& wave(
                slots,
                done_after(start, all, all.len() as int),
                slots.len() as int,
            ).len() == 0
        }),
    decreases pending(slots, start, slots.len() as int),
{
    let n = slots.len() as int;
    let next = wave(slots, start, n);
    if next.len() > 0 {
        lemma_pending_decreases(slots, start);
        let rest = waves_from(slots, with_wave(start, next));
        lemma_waves_from(slots, with_wave(start, next));
        let all = waves_from(slots, start);
        assert(all == seq![next] + rest);
        assert forall|k: int| 0 <= k < all.len() implies #[trigger] all[k] == wave(
            slots,
            done_after(start, all, k),
            n,
        ) by {
            if k > 0 {
                lemma_done_after_shift(start, next, rest, k - 1);
                assert(all[k] == rest[k - 1]);
            }
        }
        lemma_done_after_shift(start, next, rest, rest.len() as int);
    }
}

/// What is done after `k` waves is what they hold.
proof fn lemma_done_after_members(waves: Seq<Seq<u128>>, k: int, id: u128)
    requires
        0 <= k <= waves.len(),
    ensures
        done_after(Set::empty(), waves, k).contains(id) <==> exists|l: int|
            0 <= l < k && (#[trigger] waves[l]).contains(id),
    decreases k,
{
    if k > 0 {
        lemma_done_after_members(waves, k - 1, id);
        if waves[k - 1].contains(id) {
            assert(waves[k - 1].to_set().contains(id));
        }
    }
}

proof fn lemma_stuck_labels(slots: Seq<AppSlotView>, done: Set<u128>, n: int)
    requires
        0 <= n <= slots.len(),
    ensures
        stuck_labels(slots, done, n).len() == 0 <==> forall|i: int|
            0 <= i < n ==> done.contains(#[trigger] slots[i].slot_id),
    decreases n,
{
    if n > 0 {
        lemma_stuck_labels(slots, done, n - 1);
    }
}

/// A wave starts only when every slot that one of its slots depends on is in
/// an earlier wave.
pub proof fn law_dependencies_come_first(
    slots: Seq<AppSlotView>,
    waves: Seq<Seq<u128>>,
    k: int,
    j: int,
    d: int,
)
    requires
        schedule(slots) == Ok::<Seq<Seq<u128>>, LaunchPlanErrorView>(waves),
        0 <= k < waves.len(),
        0 <= j < slots.len(),
        waves[k].contains(slots[j].slot_id),
        0 <= d < dependencies(slots[j]).len(),
    ensures
        exists|l: int|
            0 <= l < k && (#[trigger] waves[l]).contains(
                id_named(slots, dependencies(slots[j])[d]),
            ),
{
    lemma_waves_from(slots, Set::empty());
    let before = done_after(Set::empty(), waves, k);
    lemma_wave_members(slots, before, slots.len() as int);
    assert(waves[k] == wave(slots, before, slots.len() as int));
    assert(ready(slots, before, slots[j].slot_id));
    let id = id_named(slots, dependencies(slots[j])[d]);
    assert(before.contains(id));
    lemma_done_after_members(waves, k, id);
}

/// Every slot is in some wave.
pub proof fn law_every_slot_launches(slots: Seq<AppSlotView>, waves: Seq<Seq<u128>>, i: int)
    requires
        schedule(slots) == Ok::<Seq<Seq<u128>>, LaunchPlanErrorView>(waves),
        0 <= i < slots.len(),
    ensures
        exists|k: int| 0 <= k < waves.len() && (#[trigger] waves[k]).contains(slots[i].slot_id),
{
    let done = done_after(Set::empty(), waves, waves.len() as int);
    lemma_stuck_labels(slots, done, slots.len() as int);
    lemma_done_after_members(waves, waves.len() as int, slots[i].slot_id);
}

/// No slot is in two waves, and every id in a wave is that of a slot.
pub proof fn law_no_slot_launches_twice(
    slots: Seq<AppSlotView>,
    waves: Seq<Seq<u128>>,
    k: int,
    l: int,
    id: u128,
)
    requires
        schedule(slots) == Ok::<Seq<Seq<u128>>, LaunchPlanErrorView>(waves),
        0 <= l < k < waves.len(),
        waves[k].contains(id),
    ensures
        !waves[l].contains(id),
        exists|i: int| 0 <= i < slots.len() && #[trigger] slots[i].slot_id == id,
{
    lemma_waves_from(slots, Set::empty());
    let before = done_after(Set::empty(), waves, k);
    lemma_wave_members(slots, before, slots.len() as int);
    assert(waves[k] == wave(slots, before, slots.len() as int));
    lemma_done_after_members(waves, k, id);
}

/// No two slots have one id.
pub open spec fn ids_distinct(slots: Seq<AppSlotView>) -> bool {
    forall|i: int, j: int|
        0 <= i < j < slots.len() ==> (#[trigger] slots[i]).slot_id != (#[trigger] slots[j]).slot_id
}

proof fn lemma_wave_unique(slots: Seq<AppSlotView>, done: Set<u128>, n: int)
    requires
        ids_distinct(slots),
        0 <= n <= slots.len(),
    ensures
        wave(slots, done, n).no_duplicates(),
    decreases n,
{
    if n > 0 {
        lemma_wave_unique(slots, done, n - 1);
        lemma_wave_members(slots, done, n - 1);
        let before = wave(slots, done, n - 1);
        let id = slots[n - 1].slot_id;
        if before.contains(id) {
            let i = choose|i: int| 0 <= i < n - 1 && #[trigger] slots[i].slot_id == id;
            assert(slots[i].slot_id != slots[n - 1].slot_id);
        }
    }
}

/// No slot is twice in a wave.
pub proof fn law_no_wave_repeats(slots: Seq<AppSlotView>, waves: Seq<Seq<u128>>, k: int)
    requires
        ids_distinct(slots),
        schedule(slots) == Ok::<Seq<Seq<u128>>, LaunchPlanErrorView>(waves),
        0 <= k < waves.len(),
    ensures
        waves[k].no_duplicates(),
{
    lemma_waves_from(slots, Set::empty());
    let before = done_after(Set::empty(), waves, k);
    assert(waves[k] == wave(slots, before, slots.len() as int));
    lemma_wave_unique(slots, before, slots.len() as int);
}

/// A set of slots each of which waits for another one in the set.
#[verifier::opaque]
pub open spec fn is_knot(slots: Seq<AppSlotView>, knot: Set<u128>) -> bool {
    &&& exists|i: int| 0 <= i < slots.len() && knot.contains(#[trigger] slots[i].slot_id)
    &&& forall|i: int|
        0 <= i < slots.len() && knot.contains(#[trigger] slots[i].slot_id) ==> exists|
            j: int,
            d: int,
        |
            0 <= j < slots.len() && slots[j].slot_id == slots[i].slot_id && 0 <= d < dependencies(
                slots[j],
            ).len() && knot.contains(id_named(slots, #[trigger] dependencies(slots[j])[d]))
}

proof fn lemma_knot_never_done(
    slots: Seq<AppSlotView>,
    waves: Seq<Seq<u128>>,
    knot: Set<u128>,
    k: int,
)
    requires
        waves == waves_from(slots, Set::empty()),
        is_knot(slots, knot),
        0 <= k <= waves.len(),
    ensures
        forall|id: u128|
            done_after(Set::empty(), waves, k).contains(id) ==> !(#[trigger] knot.contains(id)),
    decreases k,
{
    if k > 0 {
        reveal(is_knot);
        lemma_knot_never_done(slots, waves, knot, k - 1);
        lemma_waves_from(slots, Set::empty());
        let before = done_after(Set::empty(), waves, k - 1);
        let n = slots.len() as int;
        lemma_wave_members(slots, before, n);
        assert(waves[k - 1] == wave(slots, before, n));
        assert forall|id: u128|
            done_after(Set::empty(), waves, k).contains(id) implies !(#[trigger] knot.contains(
            id,
        )) by {
            if knot.contains(id) {
                assert(waves[k - 1].contains(id));
                let i = choose|i: int| 0 <= i < n && #[trigger] slots[i].slot_id == id;
                assert(knot.contains(slots[i].slot_id));
                let (j, d) = choose|j: int, d: int|
                    0 <= j < slots.len() && slots[j].slot_id == slots[i].slot_id && 0 <= d
                        < dependencies(slots[j]).len() && knot.contains(
                        id_named(slots, #[trigger] dependencies(slots[j])[d]),
                    );
                assert(ready(slots, before, id));
                assert(before.contains(id_named(slots, dependencies(slots[j])[d])));
            }
        }
    }
}

/// Slots that are neither done nor able to launch form a knot.
proof fn lemma_stuck_is_knot(slots: Seq<AppSlotView>, done: Set<u128>, i: int)
    requires
        wave(slots, done, slots.len() as int).len() == 0,
        0 <= i < slots.len(),
        !done.contains(slots[i].slot_id),
    ensures
        is_knot(slots, done.complement()),
{
    let n = slots.len() as int;
    let knot = done.complement();
    reveal(is_knot);
    lemma_wave_members(slots, done, n);
    assert(knot.contains(slots[i].slot_id));
    assert forall|i: int| 0 <= i < n && knot.contains(#[trigger] slots[i].slot_id) implies exists|
        j: int,
        d: int,
    |
        0 <= j < slots.len() && slots[j].slot_id == slots[i].slot_id && 0 <= d < dependencies(
            slots[j],
        ).len() && knot.contains(id_named(slots, #[trigger] dependencies(slots[j])[d])) by {
        let id = slots[i].slot_id;
        if ready(slots, done, id) {
            assert(wave(slots, done, n).contains(id));
        }
        assert(!unblocked(slots, done, id));
        let (j, d) = choose|j: int, d: int|
            0 <= j < slots.len() && slots[j].slot_id == id && 0 <= d < dependencies(slots[j]).len()
                && !done.contains(id_named(slots, #[trigger] dependencies(slots[j])[d]));
        assert(knot.contains(id_named(slots, dependencies(slots[j])[d])));
    }
}

/// What is done when no further wave can start.
spec fn final_done(slots: Seq<AppSlotView>) -> Set<u128> {
    let all = waves_from(slots, Set::empty());
    done_after(Set::empty(), all, all.len() as int)
}

/// Planning fails exactly if some slot is never done.
proof fn lemma_fails_if_stuck(slots: Seq<AppSlotView>)
    requires
        first_repeated(slots, 0) is None,
        first_unknown(slots, 0, 0) is None,
    ensures
        schedule(slots) is Ok <==> forall|i: int|
            0 <= i < slots.len() ==> final_done(slots).contains(#[trigger] slots[i].slot_id),
{
    lemma_stuck_labels(slots, final_done(slots), slots.len() as int);
}

proof fn lemma_cycle_fails(slots: Seq<AppSlotView>, knot: Set<u128>)
    requires
        first_repeated(slots, 0) is None,
        first_unknown(slots, 0, 0) is None,
        is_knot(slots, knot),
    ensures
        schedule(slots) is Err,
{
    let all = waves_from(slots, Set::empty());
    lemma_knot_never_done(slots, all, knot, all.len() as int);
    let i = choose|i: int| 0 <= i < slots.len() && knot.contains(#[trigger] slots[i].slot_id);
    assert(0 <= i < slots.len() && knot.contains(slots[i].slot_id)) by {
        reveal(is_knot);
    }
    assert(!final_done(slots).contains(slots[i].slot_id));
    lemma_fails_if_stuck(slots);
}

/// With all names known and none repeated, planning fails exactly if some
/// slots wait for each other in a circle.
pub proof fn law_fails_exactly_on_cycles(slots: Seq<AppSlotView>)
    requires
        first_repeated(slots, 0) is None,
        first_unknown(slots, 0, 0) is None,
    ensures
        schedule(slots) is Err <==> exists|knot: Set<u128>| #[trigger] is_knot(slots, knot),
{
    let done = final_done(slots);
    let failed = schedule(slots) is Err;
    if failed {
        lemma_fails_if_stuck(slots);
        let i = choose|i: int|
            0 <= i < slots.len() && !done.contains(#[trigger] slots[i].slot_id);
        assert(wave(slots, done, slots.len() as int).len() == 0) by {
            lemma_waves_from(slots, Set::empty());
        }
        lemma_stuck_is_knot(slots, done, i);
        assert(is_knot(slots, done.complement()));
    } else if exists|knot: Set<u128>| #[trigger] is_knot(slots, knot) {
        let knot = choose|knot: Set<u128>| #[trigger] is_knot(slots, knot);
        lemma_cycle_fails(slots, knot);
    }
}

proof fn lemma_named_once(slots: Seq<AppSlotView>, i: int)
    requires
        first_repeated(slots, 0) is None,
        0 <= i < slots.len(),
        slots[i].name is Some,
    ensures
        id_named(slots, slots[i].name->0) == slots[i].slot_id,
{
    let name = slots[i].name->0;
    lemma_first_repeated(slots, 0);
    assert(slots[i].name == Some(name));
    let c = choose|c: int| 0 <= c < slots.len() && #[trigger] slots[c].name == Some(name);
    if c < i {
        assert(slots[c].name == slots[i].name);
        assert(repeats_name(slots, i));
    } else if i < c {
        assert(slots[i].name == slots[c].name);
        assert(repeats_name(slots, c));
    }
}

/// A slot launches in a later wave than every slot that its launch
/// specification names under `after`.
pub proof fn law_slots_launch_after_what_they_name(
    slots: Seq<AppSlotView>,
    waves: Seq<Seq<u128>>,
    k: int,
    i: int,
    j: int,
    launch: LaunchSpecView,
)
    requires
        schedule(slots) == Ok::<Seq<Seq<u128>>, LaunchPlanErrorView>(waves),
        0 <= i < slots.len(),
        0 <= j < slots.len(),
        slots[j].launch == Some(launch),
        slots[i].name is Some,
        launch.after.contains(slots[i].name->0),
        0 <= k < waves.len(),
        waves[k].contains(slots[j].slot_id),
    ensures
        exists|l: int| 0 <= l < k && (#[trigger] waves[l]).contains(slots[i].slot_id),
{
    let d = choose|d: int| 0 <= d < launch.after.len() && launch.after[d] == slots[i].name->0;
    lemma_named_once(slots, i);
    law_dependencies_come_first(slots, waves, k, j, d);
}

/// Slots launch as soon as they can: behind the first wave, each waits for one
/// of the wave right before its own.
pub proof fn law_slots_launch_as_soon_as_they_can(
    slots: Seq<AppSlotView>,
    waves: Seq<Seq<u128>>,
    k: int,
    j: int,
)
    requires
        ids_distinct(slots),
        schedule(slots) == Ok::<Seq<Seq<u128>>, LaunchPlanErrorView>(waves),
        0 < k < waves.len(),
        0 <= j < slots.len(),
        waves[k].contains(slots[j].slot_id),
    ensures
        slots[j].launch matches Some(launch) && exists|i: int|
            0 <= i < slots.len() && waves[k - 1].contains((#[trigger] slots[i]).slot_id)
                && slots[i].name is Some && launch.after.contains(slots[i].name->0),
{
    let n = slots.len() as int;
    let id = slots[j].slot_id;
    lemma_waves_from(slots, Set::empty());
    let before = done_after(Set::empty(), waves, k - 1);
    let after = done_after(Set::empty(), waves, k);
    lemma_wave_members(slots, before, n);
    lemma_wave_members(slots, after, n);
    assert(waves[k - 1] == wave(slots, before, n));
    assert(waves[k] == wave(slots, after, n));
    assert(ready(slots, after, id));
    assert(after == with_wave(before, waves[k - 1]));
    assert(!before.contains(id)) by {
        assert(!after.contains(id));
    }
    assert(!waves[k - 1].contains(id)) by {
        if waves[k - 1].contains(id) {
            assert(waves[k - 1].to_set().contains(id));
        }
    }
    assert(!unblocked(slots, before, id));
    let (g, d) = choose|g: int, d: int|
        0 <= g < n && slots[g].slot_id == id && 0 <= d < dependencies(slots[g]).len()
            && !before.contains(id_named(slots, #[trigger] dependencies(slots[g])[d]));
    if g < j {
        assert(slots[g].slot_id != slots[j].slot_id);
    } else if j < g {
        assert(slots[j].slot_id != slots[g].slot_id);
    }
    let name = dependencies(slots[j])[d];
    let needed = id_named(slots, name);
    assert(after.contains(needed));
    assert(waves[k - 1].to_set().contains(needed));
    assert(waves[k - 1].contains(needed));
    lemma_first_unknown(slots, 0, 0);
    assert(is_named(slots, name));
    let i = choose|i: int| 0 <= i < slots.len() && #[trigger] slots[i].name == Some(name);
    lemma_named_once(slots, i);
    let launch = slots[j].launch->0;
    assert(launch.after[d] == name);
    assert(launch.after.contains(slots[i].name->0));
    assert(waves[k - 1].contains(slots[i].slot_id));
}

proof fn lemma_first_unknown(slots: Seq<AppSlotView>, j: int, d: int)
    requires
        0 <= j,
        0 <= d,
    ensures
        first_unknown(slots, j, d) matches Some((g, e)) ==> j <= g < slots.len() && 0 <= e
            < dependencies(slots[g]).len() && !is_named(slots, dependencies(slots[g])[e]),
        first_unknown(slots, j, d) is None ==> forall|g: int, e: int|
            (j < g < slots.len() && 0 <= e < dependencies(slots[g]).len() || g == j && j
                < slots.len() && d <= e < dependencies(slots[g]).len()) ==> is_named(
                slots,
                #[trigger] dependencies(slots[g])[e],
            ),
    decreases slots.len() - j, dependencies(slots[j]).len() - d,
{
    if j < slots.len() {
        if d >= dependencies(slots[j]).len() {
            lemma_first_unknown(slots, j + 1, 0);
        } else if is_named(slots, dependencies(slots[j])[d]) {
            lemma_first_unknown(slots, j, d + 1);
        }
    }
}

/// Two slots of one name are refused, with a name that two slots have.
pub proof fn law_repeated_names_are_refused(slots: Seq<AppSlotView>, i: int, j: int)
    requires
        0 <= i < j < slots.len(),
        slots[i].name is Some,
        slots[i].name == slots[j].name,
    ensures
        schedule(slots) matches Err(LaunchPlanErrorView::DuplicateName { name }) && exists|
            a: int,
            b: int,
        |
            0 <= a < b < slots.len() && #[trigger] slots[a].name == Some(name)
                && #[trigger] slots[b].name == Some(name),
{
    lemma_first_repeated(slots, 0);
    assert(repeats_name(slots, j));
    let b = first_repeated(slots, 0)->0;
    let a = choose|a: int| 0 <= a < b && #[trigger] slots[a].name == slots[b].name;
    assert(slots[a].name == Some(slots[b].name->0));
}

/// A slot that waits for a name that no slot has is refused, with the slot and
/// the name.
pub proof fn law_unknown_names_are_refused(
    slots: Seq<AppSlotView>,
    j: int,
    launch: LaunchSpecView,
    name: Seq<char>,
)
    requires
        forall|a: int, b: int|
            0 <= a < b < slots.len() && (#[trigger] slots[a]).name is Some ==> slots[a].name != (
            #[trigger] slots[b]).name,
        0 <= j < slots.len(),
        slots[j].launch == Some(launch),
        launch.after.contains(name),
        forall|i: int| 0 <= i < slots.len() ==> (#[trigger] slots[i]).name != Some(name),
    ensures
        schedule(slots) matches Err(LaunchPlanErrorView::UnknownDependency { slot, dependency })
            && exists|g: int|
            0 <= g < slots.len() && (#[trigger] slots[g]).launch is Some && slot
                == slots[g].label() && slots[g].launch->0.after.contains(dependency),
{
    lemma_first_repeated(slots, 0);
    if let Some(b) = first_repeated(slots, 0) {
        let a = choose|a: int| 0 <= a < b && #[trigger] slots[a].name == slots[b].name;
        assert(slots[a].name != slots[b].name);
    }
    lemma_first_unknown(slots, 0, 0);
    let d = choose|d: int| 0 <= d < launch.after.len() && launch.after[d] == name;
    assert(dependencies(slots[j])[d] == name);
    assert(!is_named(slots, name));
    let (g, e) = first_unknown(slots, 0, 0)->0;
    assert(slots[g].launch->0.after[e] == dependencies(slots[g])[e]);
}

/// In a schedule a name means the one slot that has it.
pub proof fn law_names_are_slots(slots: Seq<AppSlotView>, waves: Seq<Seq<u128>>, i: int)
    requires
        schedule(slots) == Ok::<Seq<Seq<u128>>, LaunchPlanErrorView>(waves),
        0 <= i < slots.len(),
        slots[i].name is Some,
    ensures
        id_named(slots, slots[i].name->0) == slots[i].slot_id,
{
    lemma_named_once(slots, i);
}

} // verus!
