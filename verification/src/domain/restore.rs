//! Restore planning: pure functions that diff a project's declarative slots
//! against live windows and produce an executable plan.
//!
//! Matching is scored: executable path 100, class 50, initial class 40,
//! title pattern 10 — a window claims a slot only at a total of 50 or more,
//! and each window satisfies at most one slot (greedy, best score first).

use vstd::prelude::*;

use crate::domain::launch;
use crate::domain::launch::LaunchPlanError;
use crate::domain::launch::{
    LaunchPlanErrorView, dependencies, id_named, ids_distinct, law_dependencies_come_first,
    law_every_slot_launches, law_names_are_slots, law_no_slot_launches_twice,
    law_no_wave_repeats, schedule, slot_views,
};
use crate::domain::model::{
    AppSlot, LaunchSpec, Placement, Project, Readiness, Slug, WindowIdentity,
};
use crate::domain::model::{
    AppSlotView, LaunchSpecView, PlacementView, ProjectView, ReadinessView, WindowIdentityView,
};
use crate::domain::world::TrackedWindow;
use crate::domain::world::{TrackedWindowView, WindowFactsView};
use crate::domain::ws_names;
use crate::domain::ws_names::project_name;
use crate::outside::{regex_matches, same_path};
use crate::outside::regex_search;
use crate::paths::equal_paths;
use crate::text::{same, same_ignoring_case};
use crate::text::{equal_ignoring_case, lowered};

verus! {

// ---- scoring --------------------------------------------------------------------

/// The score of a slot identity against a window, given whether the
/// executables agree and whether the title pattern matches.
pub open spec fn weight(
    identity: WindowIdentityView,
    facts: WindowFactsView,
    same_executable: bool,
    title_matches: bool,
) -> int {
    let executable: int = if same_executable {
        100
    } else {
        0
    };
    let class: int = if identity.class matches Some(class) && equal_ignoring_case(
        facts.class,
        class,
    ) {
        50
    } else {
        0
    };
    let initial: int = if identity.initial_class matches Some(initial) && equal_ignoring_case(
        facts.initial_class,
        initial,
    ) {
        40
    } else {
        0
    };
    let title: int = if title_matches {
        10
    } else {
        0
    };
    executable + class + initial + title
}

/// The score, if it is high enough to claim a slot.
pub open spec fn claim(score: int) -> Option<u32> {
    if score >= 50 {
        Some(score as u32)
    } else {
        None
    }
}

/// Whether the window runs the slot's executable.
pub open spec fn executable_agrees(identity: WindowIdentityView, facts: WindowFactsView) -> bool {
    identity.executable matches Some(wanted) && facts.executable matches Some(actual)
        && equal_paths(actual, wanted)
}

/// Whether the slot's title pattern matches the window's title.
pub open spec fn title_agrees(identity: WindowIdentityView, facts: WindowFactsView) -> bool {
    identity.title_pattern matches Some(pattern) && regex_search(pattern, facts.title) == Some(
        true,
    )
}

/// How well a window fits a slot identity, if well enough.
pub open spec fn fit(identity: WindowIdentityView, window: TrackedWindowView) -> Option<u32> {
    claim(
        weight(
            identity,
            window.facts,
            executable_agrees(identity, window.facts),
            title_agrees(identity, window.facts),
        ),
    )
}

/// Score a live window against a slot identity, given whether the executables
/// agree and whether the title pattern matches. `None` when below threshold.
pub fn weigh(
    identity: &WindowIdentity,
    window: &TrackedWindow,
    same_executable: bool,
    title_matches: bool,
) -> (r: Option<u32>)
    ensures
        r == claim(weight(identity@, window@.facts, same_executable, title_matches)),
{
    let mut score: u32 = 0;
    if same_executable {
        score = score + 100;
    }
    if let Some(class) = &identity.class {
        if same_ignoring_case(window.facts.class.as_str(), class.as_str()) {
            score = score + 50;
        }
    }
    if let Some(initial) = &identity.initial_class {
        if same_ignoring_case(window.facts.initial_class.as_str(), initial.as_str()) {
            score = score + 40;
        }
    }
    if title_matches {
        score = score + 10;
    }
    if score >= 50 {
        Some(score)
    } else {
        None
    }
}

/// Score a live window against a slot identity. `None` when below threshold.
pub fn identity_score(identity: &WindowIdentity, window: &TrackedWindow) -> (r: Option<u32>)
    ensures
        r == fit(identity@, window@),
{
    let same_executable = match (&identity.executable, &window.facts.executable) {
        (Some(wanted), Some(actual)) => same_path(actual.as_str(), wanted.as_str()),
        _ => false,
    };
    let title_matches = match &identity.title_pattern {
        Some(pattern) => match regex_matches(pattern.as_str(), window.facts.title.as_str()) {
            Some(found) => found,
            None => false,
        },
        None => false,
    };
    weigh(identity, window, same_executable, title_matches)
}

// ---- reconciling ------------------------------------------------------------------

/// Result of diffing desired slots against live windows.
#[derive(Debug, PartialEq)]
pub struct Reconciliation {
    /// Slot → live window address pairs.
    pub matched: Vec<(u128, String)>,
    /// Slots with no live window.
    pub missing: Vec<u128>,
    /// Live windows assigned to the project but matching no slot.
    pub extra: Vec<String>,
}

/// What a [`Reconciliation`] holds.
#[verifier::ext_equal]
pub struct ReconciliationView {
    /// See [`Reconciliation::matched`].
    pub matched: Seq<(u128, Seq<char>)>,
    /// See [`Reconciliation::missing`].
    pub missing: Seq<u128>,
    /// See [`Reconciliation::extra`].
    pub extra: Seq<Seq<char>>,
}

impl View for Reconciliation {
    type V = ReconciliationView;

    open spec fn view(&self) -> ReconciliationView {
        ReconciliationView {
            matched: self.matched.deep_view(),
            missing: self.missing.deep_view(),
            extra: self.extra.deep_view(),
        }
    }
}

impl DeepView for Reconciliation {
    type V = ReconciliationView;

    open spec fn deep_view(&self) -> ReconciliationView {
        self.view()
    }
}

/// The windows behind a list of references.
pub open spec fn window_views(windows: Seq<&TrackedWindow>) -> Seq<TrackedWindowView> {
    Seq::new(windows.len(), |i: int| windows[i]@)
}

/// Whether a slot is a windowless service.
pub open spec fn is_service(slot: AppSlotView) -> bool {
    slot.launch matches Some(spec) && spec.service
}

/// The score of slot `s` against window `w`. A service is never matched to a
/// window.
pub open spec fn pair_score(
    apps: Seq<AppSlotView>,
    windows: Seq<TrackedWindowView>,
    s: int,
    w: int,
) -> Option<u32> {
    if is_service(apps[s]) {
        None
    } else {
        fit(apps[s].identity, windows[w])
    }
}

/// Neither the slot nor the window is taken.
pub open spec fn is_free(taken: Seq<(int, int)>, s: int, w: int) -> bool {
    forall|i: int| 0 <= i < taken.len() ==> (#[trigger] taken[i]).0 != s && taken[i].1 != w
}

/// Slot `s` and window `w` fit and are both free.
pub open spec fn is_option(
    apps: Seq<AppSlotView>,
    windows: Seq<TrackedWindowView>,
    taken: Seq<(int, int)>,
    s: int,
    w: int,
) -> bool {
    0 <= s < apps.len() && 0 <= w < windows.len() && is_free(taken, s, w) && pair_score(
        apps,
        windows,
        s,
        w,
    ) is Some
}

/// Slot `s` and window `w` go before slot `t` and window `v`: by score, then
/// by slot order, then by window order.
pub open spec fn goes_before(
    apps: Seq<AppSlotView>,
    windows: Seq<TrackedWindowView>,
    s: int,
    w: int,
    t: int,
    v: int,
) -> bool {
    let a = pair_score(apps, windows, s, w)->0;
    let b = pair_score(apps, windows, t, v)->0;
    a > b || (a == b && (s < t || (s == t && w <= v)))
}

/// The best pair that is still free.
pub open spec fn is_best(
    apps: Seq<AppSlotView>,
    windows: Seq<TrackedWindowView>,
    taken: Seq<(int, int)>,
    best: (int, int),
) -> bool {
    &&& is_option(apps, windows, taken, best.0, best.1)
    &&& forall|t: int, v: int| #[trigger]
        is_option(apps, windows, taken, t, v) ==> goes_before(
            apps,
            windows,
            best.0,
            best.1,
            t,
            v,
        )
}

/// The pairs taken when the best free pair is taken again and again.
pub open spec fn greedy(
    apps: Seq<AppSlotView>,
    windows: Seq<TrackedWindowView>,
    taken: Seq<(int, int)>,
) -> Seq<(int, int)>
    decreases apps.len() - taken.len(),
{
    if taken.len() < apps.len() && exists|p: (int, int)| #[trigger]
        is_best(apps, windows, taken, p) {
        greedy(
            apps,
            windows,
            taken.push(choose|p: (int, int)| #[trigger] is_best(apps, windows, taken, p)),
        )
    } else {
        taken
    }
}

/// The slot ids and window addresses of pairs.
pub open spec fn pair_names(
    apps: Seq<AppSlotView>,
    windows: Seq<TrackedWindowView>,
    pairs: Seq<(int, int)>,
) -> Seq<(u128, Seq<char>)> {
    Seq::new(
        pairs.len(),
        |i: int| (apps[pairs[i].0].slot_id, windows[pairs[i].1].address),
    )
}

/// Whether a slot is matched.
pub open spec fn slot_matched(matched: Seq<(u128, Seq<char>)>, id: u128) -> bool {
    exists|i: int| 0 <= i < matched.len() && (#[trigger] matched[i]).0 == id
}

/// Whether a window is matched.
pub open spec fn window_matched(matched: Seq<(u128, Seq<char>)>, address: Seq<char>) -> bool {
    exists|i: int| 0 <= i < matched.len() && (#[trigger] matched[i]).1 == address
}

/// The ids of those of the slots that are not matched.
pub open spec fn unmatched(apps: Seq<AppSlotView>, matched: Seq<(u128, Seq<char>)>) -> Seq<u128>
    decreases apps.len(),
{
    if apps.len() == 0 {
        seq![]
    } else {
        let before = unmatched(apps.drop_last(), matched);
        if slot_matched(matched, apps.last().slot_id) {
            before
        } else {
            before.push(apps.last().slot_id)
        }
    }
}

/// Whether a window is assigned to the project.
pub open spec fn belongs_to(window: TrackedWindowView, project: ProjectView) -> bool {
    window.assignment matches Some((id, _)) && id == project.id
}

/// The addresses of those of the windows that are assigned to the project but
/// not matched.
pub open spec fn left_over(
    project: ProjectView,
    windows: Seq<TrackedWindowView>,
    matched: Seq<(u128, Seq<char>)>,
) -> Seq<Seq<char>>
    decreases windows.len(),
{
    if windows.len() == 0 {
        seq![]
    } else {
        let before = left_over(project, windows.drop_last(), matched);
        if belongs_to(windows.last(), project) && !window_matched(
            matched,
            windows.last().address,
        ) {
            before.push(windows.last().address)
        } else {
            before
        }
    }
}

/// The slots of a project against the windows that may satisfy them.
pub open spec fn reconciliation(
    project: ProjectView,
    windows: Seq<TrackedWindowView>,
) -> ReconciliationView {
    let matched = pair_names(project.apps, windows, greedy(project.apps, windows, seq![]));
    ReconciliationView {
        matched,
        missing: unmatched(project.apps, matched),
        extra: left_over(project, windows, matched),
    }
}

/// One slot to launch, with everything the executor needs.
#[derive(Debug, PartialEq)]
pub struct LaunchStep {
    /// The slot being launched.
    pub slot_id: u128,
    /// Display label for progress output.
    pub label: String,
    /// Full launch specification.
    pub spec: LaunchSpec,
    /// Identity used to correlate the resulting window.
    pub identity: WindowIdentity,
    /// Desired placement once the window appears.
    pub placement: Placement,
    /// Group slug the window belongs to.
    pub group: Option<Slug>,
    /// Labels of the slots this one waits for (for skip propagation).
    pub after: Vec<String>,
    /// Effective readiness (copied from the spec for executor convenience).
    pub readiness: Readiness,
}

/// What a [`LaunchStep`] holds.
#[verifier::ext_equal]
pub struct LaunchStepView {
    /// See [`LaunchStep::slot_id`].
    pub slot_id: u128,
    /// See [`LaunchStep::label`].
    pub label: Seq<char>,
    /// See [`LaunchStep::spec`].
    pub spec: LaunchSpecView,
    /// See [`LaunchStep::identity`].
    pub identity: WindowIdentityView,
    /// See [`LaunchStep::placement`].
    pub placement: PlacementView,
    /// See [`LaunchStep::group`].
    pub group: Option<Seq<char>>,
    /// See [`LaunchStep::after`].
    pub after: Seq<Seq<char>>,
    /// See [`LaunchStep::readiness`].
    pub readiness: ReadinessView,
}

impl View for LaunchStep {
    type V = LaunchStepView;

    open spec fn view(&self) -> LaunchStepView {
        LaunchStepView {
            slot_id: self.slot_id,
            label: self.label.deep_view(),
            spec: self.spec.deep_view(),
            identity: self.identity.deep_view(),
            placement: self.placement.deep_view(),
            group: self.group.deep_view(),
            after: self.after.deep_view(),
            readiness: self.readiness.deep_view(),
        }
    }
}

impl DeepView for LaunchStep {
    type V = LaunchStepView;

    open spec fn deep_view(&self) -> LaunchStepView {
        self.view()
    }
}

impl Clone for LaunchStep {
    fn clone(&self) -> (r: Self)
        ensures
            r@ == self@,
    {
        let r = LaunchStep {
            slot_id: self.slot_id,
            label: self.label.clone(),
            spec: self.spec.clone(),
            identity: self.identity.clone(),
            placement: self.placement.clone(),
            group: self.group.clone(),
            after: self.after.clone(),
            readiness: self.readiness.clone(),
        };
        proof {
            assert(r.after.deep_view() =~= self.after.deep_view());
        }
        r
    }
}

/// A window that already exists and just needs adopting into the project.
#[derive(Debug, PartialEq)]
pub struct AdoptStep {
    /// The slot satisfied by this window.
    pub slot_id: u128,
    /// Display label.
    pub label: String,
    /// The live window's address.
    pub address: String,
    /// Whether the window must move to the project workspace.
    pub needs_move: bool,
    /// Desired placement to (re)apply.
    pub placement: Placement,
    /// Group slug the window belongs to.
    pub group: Option<Slug>,
}

/// What a [`AdoptStep`] holds.
#[verifier::ext_equal]
pub struct AdoptStepView {
    /// See [`AdoptStep::slot_id`].
    pub slot_id: u128,
    /// See [`AdoptStep::label`].
    pub label: Seq<char>,
    /// See [`AdoptStep::address`].
    pub address: Seq<char>,
    /// See [`AdoptStep::needs_move`].
    pub needs_move: bool,
    /// See [`AdoptStep::placement`].
    pub placement: PlacementView,
    /// See [`AdoptStep::group`].
    pub group: Option<Seq<char>>,
}

impl View for AdoptStep {
    type V = AdoptStepView;

    open spec fn view(&self) -> AdoptStepView {
        AdoptStepView {
            slot_id: self.slot_id,
            label: self.label.deep_view(),
            address: self.address.deep_view(),
            needs_move: self.needs_move,
            placement: self.placement.deep_view(),
            group: self.group.deep_view(),
        }
    }
}

impl DeepView for AdoptStep {
    type V = AdoptStepView;

    open spec fn deep_view(&self) -> AdoptStepView {
        self.view()
    }
}

impl Clone for AdoptStep {
    fn clone(&self) -> (r: Self)
        ensures
            r@ == self@,
    {
        let r = AdoptStep {
            slot_id: self.slot_id,
            label: self.label.clone(),
            address: self.address.clone(),
            needs_move: self.needs_move,
            placement: self.placement.clone(),
            group: self.group.clone(),
        };
        r
    }
}

/// The full executable restore plan.
#[derive(Debug, PartialEq)]
pub struct RestorePlan {
    /// Project slug.
    pub project: Slug,
    /// The Hyprland workspace name backing the project.
    pub workspace: String,
    /// Existing windows to adopt.
    pub adopt: Vec<AdoptStep>,
    /// Missing slots to launch, in dependency waves.
    pub waves: Vec<Vec<LaunchStep>>,
    /// Windows assigned to the project but matching no slot (left alone).
    pub extra: Vec<String>,
}

/// What a [`RestorePlan`] holds.
#[verifier::ext_equal]
pub struct RestorePlanView {
    /// See [`RestorePlan::project`].
    pub project: Seq<char>,
    /// See [`RestorePlan::workspace`].
    pub workspace: Seq<char>,
    /// See [`RestorePlan::adopt`].
    pub adopt: Seq<AdoptStepView>,
    /// See [`RestorePlan::waves`].
    pub waves: Seq<Seq<LaunchStepView>>,
    /// See [`RestorePlan::extra`].
    pub extra: Seq<Seq<char>>,
}

impl View for RestorePlan {
    type V = RestorePlanView;

    open spec fn view(&self) -> RestorePlanView {
        RestorePlanView {
            project: self.project.deep_view(),
            workspace: self.workspace.deep_view(),
            adopt: self.adopt.deep_view(),
            waves: self.waves.deep_view(),
            extra: self.extra.deep_view(),
        }
    }
}

impl DeepView for RestorePlan {
    type V = RestorePlanView;

    open spec fn deep_view(&self) -> RestorePlanView {
        self.view()
    }
}

fn clone_wave(wave: &Vec<LaunchStep>) -> (r: Vec<LaunchStep>)
    ensures
        r.deep_view() == wave.deep_view(),
{
    let mut out: Vec<LaunchStep> = Vec::new();
    let mut i: usize = 0;
    while i < wave.len()
        invariant
            i <= wave.len(),
            out.len() == i,
            forall|k: int| 0 <= k < i ==> (#[trigger] out@[k])@ == wave@[k]@,
        decreases wave.len() - i,
    {
        out.push(wave[i].clone());
        i = i + 1;
    }
    assert(out.deep_view() =~= wave.deep_view());
    out
}

impl Clone for RestorePlan {
    fn clone(&self) -> (r: Self)
        ensures
            r@ == self@,
    {
        let mut adopt: Vec<AdoptStep> = Vec::new();
        let mut i: usize = 0;
        while i < self.adopt.len()
            invariant
                i <= self.adopt.len(),
                adopt.len() == i,
                forall|k: int| 0 <= k < i ==> (#[trigger] adopt@[k])@ == self.adopt@[k]@,
            decreases self.adopt.len() - i,
        {
            adopt.push(self.adopt[i].clone());
            i = i + 1;
        }
        let mut waves: Vec<Vec<LaunchStep>> = Vec::new();
        let mut w: usize = 0;
        while w < self.waves.len()
            invariant
                w <= self.waves.len(),
                waves.len() == w,
                forall|k: int|
                    0 <= k < w ==> (#[trigger] waves@[k]).deep_view() == self.waves@[k].deep_view(),
            decreases self.waves.len() - w,
        {
            waves.push(clone_wave(&self.waves[w]));
            w = w + 1;
        }
        let extra = self.extra.clone();
        proof {
            assert(adopt.deep_view() =~= self.adopt.deep_view());
            assert(waves.deep_view() =~= self.waves.deep_view());
            assert(extra.deep_view() =~= self.extra.deep_view());
        }
        RestorePlan {
            project: self.project.clone(),
            workspace: self.workspace.clone(),
            adopt,
            waves,
            extra,
        }
    }
}

// ---- the reconciler -----------------------------------------------------------------

/// Pairs of positions as mathematical ones.
spec fn pairs_of(taken: Seq<(usize, usize)>) -> Seq<(int, int)> {
    Seq::new(taken.len(), |i: int| (taken[i].0 as int, taken[i].1 as int))
}

fn free(taken: &Vec<(usize, usize)>, s: usize, w: usize) -> (r: bool)
    ensures
        r == is_free(pairs_of(taken@), s as int, w as int),
{
    let ghost pairs = pairs_of(taken@);
    let mut i: usize = 0;
    while i < taken.len()
        invariant
            i <= taken.len(),
            pairs == pairs_of(taken@),
            forall|k: int| 0 <= k < i ==> (#[trigger] pairs[k]).0 != s && pairs[k].1 != w,
        decreases taken.len() - i,
    {
        assert(pairs[i as int] == (taken@[i as int].0 as int, taken@[i as int].1 as int));
        if taken[i].0 == s || taken[i].1 == w {
            return false;
        }
        i = i + 1;
    }
    true
}

/// The scores are those of the slots against the windows.
spec fn is_score_table(
    apps: Seq<AppSlotView>,
    windows: Seq<TrackedWindowView>,
    scores: Seq<Vec<Option<u32>>>,
) -> bool {
    &&& scores.len() == apps.len()
    &&& forall|s: int| 0 <= s < scores.len() ==> (#[trigger] scores[s])@.len() == windows.len()
    &&& forall|s: int, w: int|
        0 <= s < scores.len() && 0 <= w < windows.len() ==> #[trigger] scores[s]@[w]
            == pair_score(apps, windows, s, w)
}

fn score_table(apps: &Vec<AppSlot>, windows: &[&TrackedWindow]) -> (r: Vec<Vec<Option<u32>>>)
    ensures
        is_score_table(apps.deep_view(), window_views(windows@), r@),
{
    let ghost slots = apps.deep_view();
    let ghost views = window_views(windows@);
    let mut out: Vec<Vec<Option<u32>>> = Vec::new();
    let mut s: usize = 0;
    while s < apps.len()
        invariant
            s <= apps.len(),
            slots == apps.deep_view(),
            views == window_views(windows@),
            out.len() == s,
            forall|k: int| 0 <= k < s ==> (#[trigger] out@[k])@.len() == views.len(),
            forall|k: int, w: int|
                0 <= k < s && 0 <= w < views.len() ==> #[trigger] out@[k]@[w] == pair_score(
                    slots,
                    views,
                    k,
                    w,
                ),
        decreases apps.len() - s,
    {
        let mut row: Vec<Option<u32>> = Vec::new();
        let service = match &apps[s].launch {
            Some(spec) => spec.service,
            None => false,
        };
        assert(service == is_service(apps@[s as int]@));
        let mut w: usize = 0;
        while w < windows.len()
            invariant
                s < apps.len(),
                service == is_service(apps@[s as int]@),
                w <= windows.len(),
                slots == apps.deep_view(),
                views == window_views(windows@),
                row.len() == w,
                forall|k: int|
                    0 <= k < w ==> #[trigger] row@[k] == pair_score(slots, views, s as int, k),
            decreases windows.len() - w,
        {
            assert(slots[s as int] == apps@[s as int]@);
            assert(views[w as int] == windows@[w as int]@);
            row.push(
                if service {
                    None
                } else {
                    identity_score(&apps[s].identity, windows[w])
                },
            );
            w = w + 1;
        }
        let ghost before = out@;
        out.push(row);
        assert forall|k: int, w: int|
            0 <= k < s + 1 && 0 <= w < views.len() implies #[trigger] out@[k]@[w] == pair_score(
            slots,
            views,
            k,
            w,
        ) by {
            if k < s {
                assert(out@[k] == before[k]);
                assert(before[k]@[w] == pair_score(slots, views, k, w));
            }
        }
        s = s + 1;
    }
    out
}

/// The best of the free pairs that come before slot `s`, window `w`.
spec fn best_so_far(
    apps: Seq<AppSlotView>,
    windows: Seq<TrackedWindowView>,
    taken: Seq<(int, int)>,
    best: Option<(usize, usize)>,
    s: int,
    w: int,
) -> bool {
    match best {
        Some(b) => {
            &&& is_option(apps, windows, taken, b.0 as int, b.1 as int)
            &&& (b.0 < s || (b.0 == s && b.1 < w))
            &&& forall|t: int, v: int| #[trigger]
                is_option(apps, windows, taken, t, v) && (t < s || (t == s && v < w))
                    ==> goes_before(apps, windows, b.0 as int, b.1 as int, t, v)
        },
        None => forall|t: int, v: int| #[trigger]
            is_option(apps, windows, taken, t, v) ==> !(t < s || (t == s && v < w)),
    }
}

fn find_best(
    apps: &Vec<AppSlot>,
    windows: &[&TrackedWindow],
    scores: &Vec<Vec<Option<u32>>>,
    taken: &Vec<(usize, usize)>,
) -> (r: Option<(usize, usize)>)
    requires
        is_score_table(apps.deep_view(), window_views(windows@), scores@),
    ensures
        r matches Some(b) ==> is_best(
            apps.deep_view(),
            window_views(windows@),
            pairs_of(taken@),
            (b.0 as int, b.1 as int),
        ),
        r is None ==> !(exists|p: (int, int)| #[trigger]
            is_best(apps.deep_view(), window_views(windows@), pairs_of(taken@), p)),
{
    let ghost slots = apps.deep_view();
    let ghost views = window_views(windows@);
    let ghost pairs = pairs_of(taken@);
    let mut best: Option<(usize, usize)> = None;
    let mut s: usize = 0;
    while s < apps.len()
        invariant
            s <= apps.len(),
            slots == apps.deep_view(),
            views == window_views(windows@),
            pairs == pairs_of(taken@),
            is_score_table(slots, views, scores@),
            best_so_far(slots, views, pairs, best, s as int, 0),
        decreases apps.len() - s,
    {
        let mut w: usize = 0;
        while w < windows.len()
            invariant
                s < apps.len(),
                w <= windows.len(),
                slots == apps.deep_view(),
                views == window_views(windows@),
                pairs == pairs_of(taken@),
                is_score_table(slots, views, scores@),
                best_so_far(slots, views, pairs, best, s as int, w as int),
            decreases windows.len() - w,
        {
            assert(scores@[s as int]@[w as int] == pair_score(slots, views, s as int, w as int));
            if let Some(score) = scores[s][w] {
                if free(taken, s, w) {
                    assert(is_option(slots, views, pairs, s as int, w as int));
                    let better = match best {
                        None => true,
                        Some(b) => {
                            assert(is_option(slots, views, pairs, b.0 as int, b.1 as int));
                            assert(scores@[b.0 as int]@[b.1 as int] == pair_score(
                                slots,
                                views,
                                b.0 as int,
                                b.1 as int,
                            ));
                            match scores[b.0][b.1] {
                                Some(other) => score > other,
                                None => true,
                            }
                        },
                    };
                    if better {
                        best = Some((s, w));
                    }
                }
            }
            w = w + 1;
        }
        assert(best_so_far(slots, views, pairs, best, s + 1, 0));
        s = s + 1;
    }
    best
}

/// Pairs that use no slot twice are no more than there are slots.
proof fn lemma_taken_bound(apps: Seq<AppSlotView>, taken: Seq<(int, int)>)
    requires
        forall|i: int| 0 <= i < taken.len() ==> 0 <= (#[trigger] taken[i]).0 < apps.len(),
        forall|i: int, j: int|
            0 <= i < j < taken.len() ==> (#[trigger] taken[i]).0 != (#[trigger] taken[j]).0,
    ensures
        taken.len() <= apps.len(),
{
    let slots = Seq::new(taken.len(), |i: int| taken[i].0);
    assert(slots.no_duplicates()) by {
        assert forall|i: int, j: int| 0 <= i < slots.len() && 0 <= j < slots.len() && i != j implies
            slots[i] != slots[j] by {
            if i < j {
                assert(taken[i].0 != taken[j].0);
            } else {
                assert(taken[j].0 != taken[i].0);
            }
        }
    }
    slots.unique_seq_to_set();
    let range = vstd::set_lib::set_int_range(0, apps.len() as int);
    vstd::set_lib::lemma_int_range(0, apps.len() as int);
    assert(slots.to_set().subset_of(range)) by {
        assert forall|x: int| slots.to_set().contains(x) implies range.contains(x) by {
            let i = choose|i: int| 0 <= i < slots.len() && slots[i] == x;
            assert(taken[i].0 == x);
        }
    }
    vstd::set_lib::lemma_len_subset(slots.to_set(), range);
}

/// Taken pairs are in range and use no slot and no window twice.
pub open spec fn is_matching(
    apps: Seq<AppSlotView>,
    windows: Seq<TrackedWindowView>,
    taken: Seq<(int, int)>,
) -> bool {
    &&& forall|i: int|
        0 <= i < taken.len() ==> 0 <= (#[trigger] taken[i]).0 < apps.len() && 0 <= taken[i].1
            < windows.len() && pair_score(apps, windows, taken[i].0, taken[i].1) is Some
    &&& forall|i: int, j: int|
        0 <= i < j < taken.len() ==> (#[trigger] taken[i]).0 != (#[trigger] taken[j]).0
            && taken[i].1 != taken[j].1
}

proof fn lemma_matching_grows(
    apps: Seq<AppSlotView>,
    windows: Seq<TrackedWindowView>,
    taken: Seq<(int, int)>,
    p: (int, int),
)
    requires
        is_matching(apps, windows, taken),
        is_option(apps, windows, taken, p.0, p.1),
    ensures
        is_matching(apps, windows, taken.push(p)),
        taken.len() < apps.len(),
{
    let more = taken.push(p);
    assert forall|i: int, j: int| 0 <= i < j < more.len() implies (#[trigger] more[i]).0 != (
    #[trigger] more[j]).0 && more[i].1 != more[j].1 by {
        if j < taken.len() {
            assert(taken[i].0 != taken[j].0 && taken[i].1 != taken[j].1);
        } else {
            assert(taken[i].0 != p.0 && taken[i].1 != p.1);
        }
    }
    lemma_taken_bound(apps, more);
}

/// There is only one best pair.
proof fn lemma_best_is_unique(
    apps: Seq<AppSlotView>,
    windows: Seq<TrackedWindowView>,
    taken: Seq<(int, int)>,
    p: (int, int),
    q: (int, int),
)
    requires
        is_best(apps, windows, taken, p),
        is_best(apps, windows, taken, q),
    ensures
        p == q,
{
    assert(is_option(apps, windows, taken, p.0, p.1));
    assert(is_option(apps, windows, taken, q.0, q.1));
}

/// Whether a slot id is among the matched ones.
fn has_slot(matched: &Vec<(u128, String)>, id: u128) -> (r: bool)
    ensures
        r == slot_matched(matched.deep_view(), id),
{
    let ghost views = matched.deep_view();
    let mut i: usize = 0;
    while i < matched.len()
        invariant
            i <= matched.len(),
            views == matched.deep_view(),
            forall|k: int| 0 <= k < i ==> (#[trigger] views[k]).0 != id,
        decreases matched.len() - i,
    {
        assert(views[i as int].0 == matched@[i as int].0);
        if matched[i].0 == id {
            return true;
        }
        i = i + 1;
    }
    false
}

/// Whether a window address is among the matched ones.
fn has_window(matched: &Vec<(u128, String)>, address: &str) -> (r: bool)
    ensures
        r == window_matched(matched.deep_view(), address@),
{
    let ghost views = matched.deep_view();
    let mut i: usize = 0;
    while i < matched.len()
        invariant
            i <= matched.len(),
            views == matched.deep_view(),
            forall|k: int| 0 <= k < i ==> (#[trigger] views[k]).1 != address@,
        decreases matched.len() - i,
    {
        assert(views[i as int].1 == matched@[i as int].1@);
        if same(matched[i].1.as_str(), address) {
            return true;
        }
        i = i + 1;
    }
    false
}

/// Greedy best-score matching between a project's slots and candidate
/// windows. `candidates` should be the windows plausibly belonging to the
/// project (assigned to it, or unassigned).
pub fn reconcile(project: &Project, candidates: &[&TrackedWindow]) -> (r: Reconciliation)
    ensures
        r@ == reconciliation(project@, window_views(candidates@)),
{
    let ghost slots = project.apps.deep_view();
    let ghost views = window_views(candidates@);
    let scores = score_table(&project.apps, candidates);
    let mut taken: Vec<(usize, usize)> = Vec::new();
    let mut matched: Vec<(u128, String)> = Vec::new();
    let ghost whole = greedy(slots, views, seq![]);
    proof {
        assert(pairs_of(taken@) =~= seq![]);
        assert(matched.deep_view() =~= pair_names(slots, views, pairs_of(taken@)));
    }
    loop
        invariant
            slots == project.apps.deep_view(),
            views == window_views(candidates@),
            is_score_table(slots, views, scores@),
            is_matching(slots, views, pairs_of(taken@)),
            whole == greedy(slots, views, pairs_of(taken@)),
            matched.deep_view() == pair_names(slots, views, pairs_of(taken@)),
        ensures
            matched.deep_view() == pair_names(slots, views, whole),
        decreases slots.len() - taken.len(),
    {
        let (s, w) = match find_best(&project.apps, candidates, &scores, &taken) {
            Some(best) => best,
            None => {
                break;
            },
        };
        let ghost pairs = pairs_of(taken@);
        let ghost p = (s as int, w as int);
        proof {
            assert(is_best(slots, views, pairs, p));
            lemma_matching_grows(slots, views, pairs, p);
            let chosen = choose|p: (int, int)| #[trigger] is_best(slots, views, pairs, p);
            lemma_best_is_unique(slots, views, pairs, chosen, p);
            assert(slots[s as int] == project.apps@[s as int]@);
            assert(views[w as int] == candidates@[w as int]@);
        }
        let ghost before = matched.deep_view();
        let pair = (project.apps[s].slot_id, candidates[w].address.clone());
        matched.push(pair);
        taken.push((s, w));
        proof {
            assert(pairs_of(taken@) =~= pairs.push(p));
            assert(matched.deep_view() =~= before.push((pair.0, pair.1@)));
            assert(matched.deep_view() =~= pair_names(slots, views, pairs_of(taken@)));
        }
    }
    let ghost pairs_named = matched.deep_view();

    let mut missing: Vec<u128> = Vec::new();
    let mut i: usize = 0;
    proof {
        assert(slots.take(0) =~= seq![]);
    }
    while i < project.apps.len()
        invariant
            i <= project.apps.len(),
            slots == project.apps.deep_view(),
            pairs_named == matched.deep_view(),
            missing@ == unmatched(slots.take(i as int), pairs_named),
        decreases project.apps.len() - i,
    {
        proof {
            assert(slots.take(i + 1).drop_last() =~= slots.take(i as int));
            assert(slots[i as int] == project.apps@[i as int]@);
        }
        if !has_slot(&matched, project.apps[i].slot_id) {
            missing.push(project.apps[i].slot_id);
        }
        i = i + 1;
    }
    proof {
        assert(slots.take(i as int) =~= slots);
        assert(missing.deep_view() =~= missing@);
    }

    let mut extra: Vec<String> = Vec::new();
    let mut k: usize = 0;
    proof {
        assert(views.take(0) =~= seq![]);
        assert(extra.deep_view() =~= seq![]);
    }
    while k < candidates.len()
        invariant
            k <= candidates.len(),
            views == window_views(candidates@),
            pairs_named == matched.deep_view(),
            extra.deep_view() == left_over(project@, views.take(k as int), pairs_named),
        decreases candidates.len() - k,
    {
        let window = candidates[k];
        proof {
            assert(views.take(k + 1).drop_last() =~= views.take(k as int));
            assert(views[k as int] == window@);
        }
        let belongs = match &window.assignment {
            Some((id, _)) => *id == project.id,
            None => false,
        };
        assert(belongs == belongs_to(window@, project@));
        if belongs && !has_window(&matched, window.address.as_str()) {
            let ghost before = extra.deep_view();
            let address = window.address.clone();
            extra.push(address);
            proof {
                assert(extra.deep_view() =~= before.push(address@));
            }
        }
        k = k + 1;
    }
    proof {
        assert(views.take(k as int) =~= views);
    }
    Reconciliation { matched, missing, extra }
}

// ---- planning -----------------------------------------------------------------------

/// Errors from restore planning.
#[derive(Debug)]
pub enum PlanError {
    /// The dependency graph is invalid.
    Launch(LaunchPlanError),
}

impl View for PlanError {
    type V = LaunchPlanErrorView;

    open spec fn view(&self) -> LaunchPlanErrorView {
        match self {
            PlanError::Launch(error) => error@,
        }
    }
}

impl PlanError {
    /// The message of the error.
    pub fn message(&self) -> (r: String)
        ensures
            r@ == self@.message(),
    {
        match self {
            PlanError::Launch(error) => error.message(),
        }
    }
}

/// The first slot with the id.
pub open spec fn slot_with(apps: Seq<AppSlotView>, id: u128) -> Option<AppSlotView>
    decreases apps.len(),
{
    if apps.len() == 0 {
        None
    } else if apps[0].slot_id == id {
        Some(apps[0])
    } else {
        slot_with(apps.skip(1), id)
    }
}

/// The first window with the address.
pub open spec fn window_with(
    windows: Seq<TrackedWindowView>,
    address: Seq<char>,
) -> Option<TrackedWindowView>
    decreases windows.len(),
{
    if windows.len() == 0 {
        None
    } else if windows[0].address == address {
        Some(windows[0])
    } else {
        window_with(windows.skip(1), address)
    }
}

/// The adoption of a window by a slot.
pub open spec fn adoption(
    slot: AppSlotView,
    window: TrackedWindowView,
    workspace: Seq<char>,
) -> AdoptStepView {
    AdoptStepView {
        slot_id: slot.slot_id,
        label: slot.label(),
        address: window.address,
        needs_move: window.facts.workspace != workspace,
        placement: slot.placement,
        group: slot.group,
    }
}

/// The adoptions that matched pairs ask for.
pub open spec fn adoptions(
    apps: Seq<AppSlotView>,
    windows: Seq<TrackedWindowView>,
    workspace: Seq<char>,
    matched: Seq<(u128, Seq<char>)>,
) -> Seq<AdoptStepView>
    decreases matched.len(),
{
    if matched.len() == 0 {
        seq![]
    } else {
        let before = adoptions(apps, windows, workspace, matched.drop_last());
        match (slot_with(apps, matched.last().0), window_with(windows, matched.last().1)) {
            (Some(slot), Some(window)) => before.push(adoption(slot, window, workspace)),
            _ => before,
        }
    }
}

/// The launch of a slot with the given specification.
pub open spec fn launch_of(slot: AppSlotView, spec: LaunchSpecView) -> LaunchStepView {
    LaunchStepView {
        slot_id: slot.slot_id,
        label: slot.label(),
        spec,
        identity: slot.identity,
        placement: slot.placement,
        group: slot.group,
        after: spec.after,
        readiness: spec.readiness,
    }
}

/// The launch that an id asks for: none if its slot is not missing or does not
/// say how it is launched.
pub open spec fn launch_for(
    apps: Seq<AppSlotView>,
    missing: Seq<u128>,
    id: u128,
) -> Option<LaunchStepView> {
    if missing.contains(id) {
        match slot_with(apps, id) {
            Some(slot) => match slot.launch {
                Some(spec) => Some(launch_of(slot, spec)),
                None => None,
            },
            None => None,
        }
    } else {
        None
    }
}

/// The launches of a wave.
pub open spec fn wave_launches(
    apps: Seq<AppSlotView>,
    missing: Seq<u128>,
    wave: Seq<u128>,
) -> Seq<LaunchStepView>
    decreases wave.len(),
{
    if wave.len() == 0 {
        seq![]
    } else {
        let before = wave_launches(apps, missing, wave.drop_last());
        match launch_for(apps, missing, wave.last()) {
            Some(step) => before.push(step),
            None => before,
        }
    }
}

/// The launches of the waves, without the waves that have none.
pub open spec fn plan_waves(
    apps: Seq<AppSlotView>,
    missing: Seq<u128>,
    waves: Seq<Seq<u128>>,
) -> Seq<Seq<LaunchStepView>>
    decreases waves.len(),
{
    if waves.len() == 0 {
        seq![]
    } else {
        let before = plan_waves(apps, missing, waves.drop_last());
        let last = wave_launches(apps, missing, waves.last());
        if last.len() == 0 {
            before
        } else {
            before.push(last)
        }
    }
}

/// The plan that restores a project, or what is wrong with its dependencies.
///
/// Waves are those of the whole project, so that dependencies on slots that
/// already run are honored, reduced to the missing ones.
pub open spec fn restore_plan(
    project: ProjectView,
    windows: Seq<TrackedWindowView>,
    prefix: Seq<char>,
) -> Result<RestorePlanView, LaunchPlanErrorView> {
    let workspace = project_name(prefix, project.slug);
    let found = reconciliation(project, windows);
    match schedule(project.apps) {
        Ok(waves) => Ok(
            RestorePlanView {
                project: project.slug,
                workspace,
                adopt: adoptions(project.apps, windows, workspace, found.matched),
                waves: plan_waves(project.apps, found.missing, waves),
                extra: found.extra,
            },
        ),
        Err(error) => Err(error),
    }
}

fn find_slot(apps: &Vec<AppSlot>, id: u128) -> (r: Option<&AppSlot>)
    ensures
        r matches Some(slot) ==> slot_with(apps.deep_view(), id) == Some(slot@),
        r is None ==> slot_with(apps.deep_view(), id) is None,
{
    let ghost slots = apps.deep_view();
    let mut i: usize = 0;
    proof {
        assert(slots.skip(0) =~= slots);
    }
    while i < apps.len()
        invariant
            i <= apps.len(),
            slots == apps.deep_view(),
            slot_with(slots, id) == slot_with(slots.skip(i as int), id),
        decreases apps.len() - i,
    {
        proof {
            assert(slots.skip(i as int)[0] == apps@[i as int]@);
            assert(slots.skip(i as int).skip(1) =~= slots.skip(i + 1));
        }
        if apps[i].slot_id == id {
            return Some(&apps[i]);
        }
        i = i + 1;
    }
    None
}

fn find_window<'a>(windows: &[&'a TrackedWindow], address: &str) -> (r: Option<&'a TrackedWindow>)
    ensures
        r matches Some(w) ==> window_with(window_views(windows@), address@) == Some(w@)
            && w.address@ == address@,
        r is None ==> window_with(window_views(windows@), address@) is None,
{
    let ghost views = window_views(windows@);
    let mut i: usize = 0;
    proof {
        assert(views.skip(0) =~= views);
    }
    while i < windows.len()
        invariant
            i <= windows.len(),
            views == window_views(windows@),
            window_with(views, address@) == window_with(views.skip(i as int), address@),
        decreases windows.len() - i,
    {
        proof {
            assert(views.skip(i as int)[0] == windows@[i as int]@);
            assert(views.skip(i as int).skip(1) =~= views.skip(i + 1));
        }
        if same(windows[i].address.as_str(), address) {
            return Some(windows[i]);
        }
        i = i + 1;
    }
    None
}

/// A slot that is found under an id has it.
proof fn lemma_slot_with(apps: Seq<AppSlotView>, id: u128)
    ensures
        slot_with(apps, id) matches Some(slot) ==> slot.slot_id == id,
    decreases apps.len(),
{
    if apps.len() > 0 {
        lemma_slot_with(apps.skip(1), id);
    }
}

fn contains_id(ids: &Vec<u128>, id: u128) -> (r: bool)
    ensures
        r == ids@.contains(id),
{
    let mut i: usize = 0;
    while i < ids.len()
        invariant
            i <= ids.len(),
            forall|k: int| 0 <= k < i ==> ids@[k] != id,
        decreases ids.len() - i,
    {
        if ids[i] == id {
            return true;
        }
        i = i + 1;
    }
    false
}

fn launches(apps: &Vec<AppSlot>, missing: &Vec<u128>, wave: &Vec<u128>) -> (r: Vec<LaunchStep>)
    ensures
        r.deep_view() == wave_launches(apps.deep_view(), missing@, wave@),
{
    let ghost slots = apps.deep_view();
    let mut out: Vec<LaunchStep> = Vec::new();
    let mut i: usize = 0;
    proof {
        assert(wave@.take(0) =~= seq![]);
        assert(out.deep_view() =~= seq![]);
    }
    while i < wave.len()
        invariant
            i <= wave.len(),
            slots == apps.deep_view(),
            out.deep_view() == wave_launches(slots, missing@, wave@.take(i as int)),
        decreases wave.len() - i,
    {
        let id = wave[i];
        proof {
            assert(wave@.take(i + 1).drop_last() =~= wave@.take(i as int));
            lemma_slot_with(slots, id);
        }
        if contains_id(missing, id) {
            if let Some(slot) = find_slot(apps, id) {
                if let Some(spec) = &slot.launch {
                    let step = LaunchStep {
                        slot_id: id,
                        label: slot.label(),
                        spec: spec.clone(),
                        identity: slot.identity.clone(),
                        placement: slot.placement.clone(),
                        group: slot.group.clone(),
                        after: spec.after.clone(),
                        readiness: spec.readiness.clone(),
                    };
                    proof {
                        assert(step.after.deep_view() =~= spec.after.deep_view());
                        assert(step@ =~= launch_of(slot@, spec@));
                    }
                    let ghost before = out.deep_view();
                    out.push(step);
                    proof {
                        assert(out.deep_view() =~= before.push(step@));
                    }
                }
            }
        }
        i = i + 1;
    }
    proof {
        assert(wave@.take(i as int) =~= wave@);
    }
    out
}

fn references(apps: &Vec<AppSlot>) -> (r: Vec<&AppSlot>)
    ensures
        slot_views(r@) == apps.deep_view(),
{
    let mut out: Vec<&AppSlot> = Vec::new();
    let mut i: usize = 0;
    while i < apps.len()
        invariant
            i <= apps.len(),
            out.len() == i,
            forall|k: int| 0 <= k < i ==> *(#[trigger] out@[k]) == apps@[k],
        decreases apps.len() - i,
    {
        out.push(&apps[i]);
        i = i + 1;
    }
    proof {
        assert(slot_views(out@) =~= apps.deep_view());
    }
    out
}

/// Build the plan for restoring `project`.
///
/// `candidates` are live windows that may satisfy slots (assigned to the
/// project or unassigned); `workspace_prefix` is the configured prefix.
pub fn plan(
    project: &Project,
    candidates: &[&TrackedWindow],
    workspace_prefix: &str,
) -> (r: Result<RestorePlan, PlanError>)
    ensures
        match (r, restore_plan(project@, window_views(candidates@), workspace_prefix@)) {
            (Ok(plan), Ok(expected)) => plan@ == expected,
            (Err(error), Err(expected)) => error@ == expected,
            _ => false,
        },
{
    let workspace = ws_names::project_workspace(workspace_prefix, &project.slug);
    let found = reconcile(project, candidates);
    let ghost slots = project.apps.deep_view();
    let ghost views = window_views(candidates@);
    let ghost matched = found.matched.deep_view();

    let mut adopt: Vec<AdoptStep> = Vec::new();
    let mut i: usize = 0;
    proof {
        assert(matched.take(0) =~= seq![]);
        assert(adopt.deep_view() =~= seq![]);
    }
    while i < found.matched.len()
        invariant
            i <= found.matched.len(),
            slots == project.apps.deep_view(),
            views == window_views(candidates@),
            matched == found.matched.deep_view(),
            adopt.deep_view() == adoptions(slots, views, workspace@, matched.take(i as int)),
        decreases found.matched.len() - i,
    {
        let slot_id = found.matched[i].0;
        let address = &found.matched[i].1;
        proof {
            assert(matched.take(i + 1).drop_last() =~= matched.take(i as int));
            assert(matched[i as int] == (slot_id, address@));
            lemma_slot_with(slots, slot_id);
        }
        if let Some(slot) = find_slot(&project.apps, slot_id) {
            if let Some(window) = find_window(candidates, address.as_str()) {
                let step = AdoptStep {
                    slot_id,
                    label: slot.label(),
                    address: address.clone(),
                    needs_move: !same(window.facts.workspace.as_str(), workspace.as_str()),
                    placement: slot.placement.clone(),
                    group: slot.group.clone(),
                };
                let ghost before = adopt.deep_view();
                proof {
                    assert(step@ =~= adoption(slot@, window@, workspace@));
                }
                adopt.push(step);
                proof {
                    assert(adopt.deep_view() =~= before.push(step@));
                }
            }
        }
        i = i + 1;
    }
    proof {
        assert(matched.take(i as int) =~= matched);
        assert(found.missing.deep_view() =~= found.missing@);
    }

    // Waves are computed over the whole project so dependencies on already-
    // running slots are honored, then filtered down to the missing ones.
    let all_slots = references(&project.apps);
    let all_waves = match launch::waves(all_slots.as_slice()) {
        Ok(waves) => waves,
        Err(error) => {
            return Err(PlanError::Launch(error));
        },
    };
    let ghost ids = all_waves.deep_view();
    let mut waves: Vec<Vec<LaunchStep>> = Vec::new();
    let mut k: usize = 0;
    proof {
        assert(ids.take(0) =~= seq![]);
        assert(waves.deep_view() =~= seq![]);
    }
    while k < all_waves.len()
        invariant
            k <= all_waves.len(),
            slots == project.apps.deep_view(),
            ids == all_waves.deep_view(),
            waves.deep_view() == plan_waves(slots, found.missing@, ids.take(k as int)),
        decreases all_waves.len() - k,
    {
        proof {
            assert(ids.take(k + 1).drop_last() =~= ids.take(k as int));
            assert(all_waves@[k as int].deep_view() =~= all_waves@[k as int]@);
            assert(ids[k as int] == all_waves@[k as int]@);
        }
        let steps = launches(&project.apps, &found.missing, &all_waves[k]);
        if steps.len() > 0 {
            let ghost before = waves.deep_view();
            let ghost views = steps.deep_view();
            waves.push(steps);
            proof {
                assert(waves.deep_view() =~= before.push(views));
            }
        }
        k = k + 1;
    }
    proof {
        assert(ids.take(k as int) =~= ids);
    }
    Ok(RestorePlan { project: project.slug.clone(), workspace, adopt, waves, extra: found.extra })
}

/// Whether a window may satisfy a slot of a project: it is assigned to the
/// project or not assigned at all.
pub open spec fn is_candidate(window: TrackedWindowView, project: ProjectView) -> bool {
    window.assignment is None || belongs_to(window, project)
}

/// Those of the windows that may satisfy a slot of a project.
pub open spec fn candidates(windows: Seq<TrackedWindowView>, project: ProjectView) -> Seq<
    TrackedWindowView,
>
    decreases windows.len(),
{
    if windows.len() == 0 {
        seq![]
    } else {
        let before = candidates(windows.drop_last(), project);
        if is_candidate(windows.last(), project) {
            before.push(windows.last())
        } else {
            before
        }
    }
}

/// Those of the windows that may satisfy a slot of a project.
pub fn candidates_for<'a>(windows: &'a Vec<TrackedWindow>, project: &Project) -> (r: Vec<
    &'a TrackedWindow,
>)
    ensures
        window_views(r@) == candidates(windows.deep_view(), project@),
{
    let ghost all = windows.deep_view();
    let mut out: Vec<&TrackedWindow> = Vec::new();
    let mut i: usize = 0;
    proof {
        assert(all.take(0) =~= seq![]);
        assert(window_views(out@) =~= seq![]);
    }
    while i < windows.len()
        invariant
            i <= windows.len(),
            all == windows.deep_view(),
            window_views(out@) == candidates(all.take(i as int), project@),
        decreases windows.len() - i,
    {
        let window = &windows[i];
        proof {
            assert(all.take(i + 1).drop_last() =~= all.take(i as int));
            assert(all[i as int] == window@);
        }
        let fits = match &window.assignment {
            None => true,
            Some((id, _)) => *id == project.id,
        };
        assert(fits == is_candidate(window@, project@));
        if fits {
            let ghost before = window_views(out@);
            out.push(window);
            assert(window_views(out@) =~= before.push(window@));
        }
        i = i + 1;
    }
    proof {
        assert(all.take(i as int) =~= all);
    }
    out
}

/// How many slots the waves launch.
pub open spec fn launch_total(waves: Seq<Seq<LaunchStepView>>) -> nat
    decreases waves.len(),
{
    if waves.len() == 0 {
        0
    } else {
        launch_total(waves.drop_last()) + waves.last().len()
    }
}

proof fn lemma_launch_total_grows(waves: Seq<Seq<LaunchStepView>>, n: int)
    requires
        0 <= n <= waves.len(),
    ensures
        launch_total(waves.take(n)) <= launch_total(waves),
    decreases waves.len() - n,
{
    if n < waves.len() {
        lemma_launch_total_grows(waves, n + 1);
        assert(waves.take(n + 1).drop_last() =~= waves.take(n));
    } else {
        assert(waves.take(n) =~= waves);
    }
}

impl RestorePlan {
    /// Total number of slots to launch.
    pub fn launch_count(&self) -> (r: usize)
        requires
            launch_total(self@.waves) <= usize::MAX,
        ensures
            r == launch_total(self@.waves),
    {
        let ghost views = self.waves.deep_view();
        let mut total: usize = 0;
        let mut i: usize = 0;
        proof {
            assert(views.take(0) =~= seq![]);
        }
        while i < self.waves.len()
            invariant
                i <= self.waves.len(),
                views == self.waves.deep_view(),
                launch_total(views) <= usize::MAX,
                total == launch_total(views.take(i as int)),
            decreases self.waves.len() - i,
        {
            proof {
                lemma_launch_total_grows(views, i + 1);
                assert(views.take(i + 1).drop_last() =~= views.take(i as int));
                assert(views[i as int].len() == self.waves@[i as int].len());
            }
            total = total + self.waves[i].len();
            i = i + 1;
        }
        proof {
            assert(views.take(i as int) =~= views);
        }
        total
    }
}

// ---- laws -----------------------------------------------------------------------

/// A title pattern alone never claims a slot, whatever the window.
pub proof fn law_title_alone_never_claims(
    identity: WindowIdentityView,
    window: TrackedWindowView,
)
    requires
        identity.executable is None,
        identity.class is None,
        identity.initial_class is None,
    ensures
        fit(identity, window) is None,
{
}

/// The executable alone claims a slot, and so does the class; the executable
/// outranks class, initial class and title together.
pub proof fn law_score_ranks(identity: WindowIdentityView, window: TrackedWindowView)
    ensures
        executable_agrees(identity, window.facts) ==> (fit(identity, window) matches Some(score)
            && score >= 100),
        !executable_agrees(identity, window.facts) ==> (fit(identity, window) matches Some(score)
            ==> score <= 100),
        (identity.class matches Some(class) && equal_ignoring_case(window.facts.class, class))
            ==> fit(identity, window) is Some,
{
}

proof fn lemma_greedy(
    apps: Seq<AppSlotView>,
    windows: Seq<TrackedWindowView>,
    taken: Seq<(int, int)>,
)
    requires
        is_matching(apps, windows, taken),
    ensures
        is_matching(apps, windows, greedy(apps, windows, taken)),
        forall|p: (int, int)| !(#[trigger]
            is_best(apps, windows, greedy(apps, windows, taken), p)),
    decreases apps.len() - taken.len(),
{
    if exists|p: (int, int)| #[trigger] is_best(apps, windows, taken, p) {
        let p = choose|p: (int, int)| #[trigger] is_best(apps, windows, taken, p);
        lemma_matching_grows(apps, windows, taken, p);
        lemma_greedy(apps, windows, taken.push(p));
    }
}

/// Of the free pairs, if there are any, one is best.
proof fn lemma_some_best(
    apps: Seq<AppSlotView>,
    windows: Seq<TrackedWindowView>,
    taken: Seq<(int, int)>,
    s: int,
    w: int,
)
    requires
        is_option(apps, windows, taken, s, w),
    ensures
        exists|p: (int, int)| #[trigger] is_best(apps, windows, taken, p),
    decreases
            300 - pair_score(apps, windows, s, w)->0,
            s,
            w,
{
    if !is_best(apps, windows, taken, (s, w)) {
        let (t, v) = choose|t: int, v: int|
            #[trigger] is_option(apps, windows, taken, t, v) && !goes_before(
                apps,
                windows,
                s,
                w,
                t,
                v,
            );
        assert(is_option(apps, windows, taken, t, v));
        lemma_some_best(apps, windows, taken, t, v);
    }
}

/// Each window satisfies at most one slot and each slot takes at most one
/// window; a slot and a window that fit are never both left over.
pub proof fn law_matching_is_one_to_one_and_complete(
    apps: Seq<AppSlotView>,
    windows: Seq<TrackedWindowView>,
)
    ensures
        is_matching(apps, windows, greedy(apps, windows, seq![])),
        forall|s: int, w: int| !(#[trigger]
            is_option(apps, windows, greedy(apps, windows, seq![]), s, w)),
{
    lemma_greedy(apps, windows, seq![]);
    let all = greedy(apps, windows, seq![]);
    assert forall|s: int, w: int| !(#[trigger] is_option(apps, windows, all, s, w)) by {
        if is_option(apps, windows, all, s, w) {
            lemma_some_best(apps, windows, all, s, w);
        }
    }
}

/// Each pair is the best one that the pairs before it leave free.
proof fn lemma_greedy_steps(
    apps: Seq<AppSlotView>,
    windows: Seq<TrackedWindowView>,
    taken: Seq<(int, int)>,
)
    ensures
        ({
            let all = greedy(apps, windows, taken);
            &&& all.len() >= taken.len()
            &&& all.take(taken.len() as int) == taken
            &&& forall|i: int|
                taken.len() <= i < all.len() ==> is_best(
                    apps,
                    windows,
                    all.take(i),
                    #[trigger] all[i],
                )
        }),
    decreases apps.len() - taken.len(),
{
    let all = greedy(apps, windows, taken);
    if taken.len() < apps.len() && exists|p: (int, int)| #[trigger]
        is_best(apps, windows, taken, p) {
        let p = choose|p: (int, int)| #[trigger] is_best(apps, windows, taken, p);
        let more = taken.push(p);
        lemma_greedy_steps(apps, windows, more);
        assert(all.take(taken.len() as int) =~= all.take(more.len() as int).take(
            taken.len() as int,
        ));
        assert(more.take(taken.len() as int) =~= taken);
        assert(all[taken.len() as int] == all.take(more.len() as int)[taken.len() as int]);
        assert forall|i: int| taken.len() <= i < all.len() implies is_best(
            apps,
            windows,
            all.take(i),
            #[trigger] all[i],
        ) by {
            if i == taken.len() {
                assert(all[i] == p);
            }
        }
    } else {
        assert(all.take(taken.len() as int) =~= taken);
    }
}

proof fn lemma_still_free(taken: Seq<(int, int)>, i: int, s: int, w: int)
    requires
        0 <= i <= taken.len(),
        is_free(taken, s, w),
    ensures
        is_free(taken.take(i), s, w),
{
    assert forall|k: int| 0 <= k < i implies (#[trigger] taken.take(i)[k]).0 != s && taken.take(
        i,
    )[k].1 != w by {
        assert(taken[k].0 != s && taken[k].1 != w);
    }
}

proof fn lemma_first_rival(
    apps: Seq<AppSlotView>,
    windows: Seq<TrackedWindowView>,
    all: Seq<(int, int)>,
    n: int,
    s: int,
    w: int,
)
    requires
        0 <= n <= all.len(),
        0 <= s < apps.len(),
        0 <= w < windows.len(),
        pair_score(apps, windows, s, w) is Some,
        is_free(all.take(n), s, w),
        !is_free(all, s, w),
        forall|i: int|
            0 <= i < all.len() ==> is_best(apps, windows, all.take(i), #[trigger] all[i]),
    ensures
        exists|i: int|
            0 <= i < all.len() && ((#[trigger] all[i]).0 == s || all[i].1 == w) && (pair_score(
                apps,
                windows,
                all[i].0,
                all[i].1,
            ) matches Some(score) && score >= pair_score(apps, windows, s, w)->0),
    decreases all.len() - n,
{
    if n == all.len() {
        assert(all.take(n) =~= all);
    } else if all[n].0 == s || all[n].1 == w {
        assert(is_best(apps, windows, all.take(n), all[n]));
        assert(is_option(apps, windows, all.take(n), s, w));
        assert(goes_before(apps, windows, all[n].0, all[n].1, s, w));
    } else {
        assert forall|k: int| 0 <= k < n + 1 implies (#[trigger] all.take(n + 1)[k]).0 != s
            && all.take(n + 1)[k].1 != w by {
            if k < n {
                assert(all.take(n)[k].0 != s && all.take(n)[k].1 != w);
                assert(all.take(n)[k] == all[k]);
            }
        }
        lemma_first_rival(apps, windows, all, n + 1, s, w);
    }
}

/// Best scores go first: along the matched pairs scores never rise, and a slot
/// and a window that fit are matched to each other or one of them is in a pair
/// that scores at least as much.
pub proof fn law_best_scores_go_first(apps: Seq<AppSlotView>, windows: Seq<TrackedWindowView>)
    ensures
        ({
            let pairs = greedy(apps, windows, seq![]);
            let score = |i: int| pair_score(apps, windows, pairs[i].0, pairs[i].1);
            &&& forall|i: int| 0 <= i < pairs.len() ==> (#[trigger] score(i)) is Some
            &&& forall|i: int, j: int|
                0 <= i < j < pairs.len() ==> (#[trigger] score(i))->0 >= (#[trigger] score(j))->0
            &&& forall|s: int, w: int|
                0 <= s < apps.len() && 0 <= w < windows.len() && (#[trigger] pair_score(
                    apps,
                    windows,
                    s,
                    w,
                )) is Some ==> exists|i: int|
                    0 <= i < pairs.len() && (pairs[i].0 == s || pairs[i].1 == w) && (
                    #[trigger] score(i))->0 >= pair_score(apps, windows, s, w)->0
        }),
{
    let pairs = greedy(apps, windows, seq![]);
    let score = |i: int| pair_score(apps, windows, pairs[i].0, pairs[i].1);
    lemma_greedy_steps(apps, windows, seq![]);
    law_matching_is_one_to_one_and_complete(apps, windows);
    assert forall|i: int| 0 <= i < pairs.len() implies (#[trigger] score(i)) is Some by {
        assert(pair_score(apps, windows, pairs[i].0, pairs[i].1) is Some);
    }
    assert forall|i: int, j: int| 0 <= i < j < pairs.len() implies (#[trigger] score(i))->0 >= (
    #[trigger] score(j))->0 by {
        assert(is_best(apps, windows, pairs.take(i), pairs[i]));
        assert(is_best(apps, windows, pairs.take(j), pairs[j]));
        lemma_still_free(pairs.take(j), i, pairs[j].0, pairs[j].1);
        assert(pairs.take(j).take(i) =~= pairs.take(i));
        assert(is_option(apps, windows, pairs.take(i), pairs[j].0, pairs[j].1));
    }
    assert forall|s: int, w: int|
        0 <= s < apps.len() && 0 <= w < windows.len() && (#[trigger] pair_score(
            apps,
            windows,
            s,
            w,
        )) is Some implies exists|i: int|
        0 <= i < pairs.len() && (pairs[i].0 == s || pairs[i].1 == w) && (#[trigger] score(i))->0
            >= pair_score(apps, windows, s, w)->0 by {
        assert(!is_option(apps, windows, pairs, s, w));
        assert(is_free(pairs.take(0), s, w));
        lemma_first_rival(apps, windows, pairs, 0, s, w);
        let i = choose|i: int|
            0 <= i < pairs.len() && ((#[trigger] pairs[i]).0 == s || pairs[i].1 == w) && (
            pair_score(apps, windows, pairs[i].0, pairs[i].1) matches Some(score) && score
                >= pair_score(apps, windows, s, w)->0);
        assert(score(i)->0 >= pair_score(apps, windows, s, w)->0);
    }
}

/// No two windows have one address.
pub open spec fn addresses_distinct(windows: Seq<TrackedWindowView>) -> bool {
    forall|i: int, j: int|
        0 <= i < j < windows.len() ==> (#[trigger] windows[i]).address != (
        #[trigger] windows[j]).address
}

/// Where slots have distinct ids and windows distinct addresses, neither an id
/// nor an address is matched twice, and the slots that are not matched are
/// missing in their order.
pub proof fn law_names_are_matched_once(project: ProjectView, windows: Seq<TrackedWindowView>)
    requires
        ids_distinct(project.apps),
        addresses_distinct(windows),
    ensures
        ({
            let r = reconciliation(project, windows);
            &&& forall|i: int, j: int|
                0 <= i < j < r.matched.len() ==> (#[trigger] r.matched[i]).0 != (
                #[trigger] r.matched[j]).0 && r.matched[i].1 != r.matched[j].1
            &&& r.missing == unmatched(project.apps, r.matched)
            &&& r.extra == left_over(project, windows, r.matched)
        }),
{
    let apps = project.apps;
    let pairs = greedy(apps, windows, seq![]);
    law_matching_is_one_to_one_and_complete(apps, windows);
    let r = reconciliation(project, windows);
    assert forall|i: int, j: int| 0 <= i < j < r.matched.len() implies (
    #[trigger] r.matched[i]).0 != (#[trigger] r.matched[j]).0 && r.matched[i].1
        != r.matched[j].1 by {
        let (s, w) = pairs[i];
        let (t, v) = pairs[j];
        assert(s != t && w != v);
        assert(apps[s].slot_id != apps[t].slot_id) by {
            if s < t {
                assert(apps[s].slot_id != apps[t].slot_id);
            } else {
                assert(apps[t].slot_id != apps[s].slot_id);
            }
        }
        assert(windows[w].address != windows[v].address) by {
            if w < v {
                assert(windows[w].address != windows[v].address);
            } else {
                assert(windows[v].address != windows[w].address);
            }
        }
    }
}

/// A service is never matched to a window: it is always missing.
pub proof fn law_services_are_never_matched(
    project: ProjectView,
    windows: Seq<TrackedWindowView>,
    s: int,
)
    requires
        ids_distinct(project.apps),
        0 <= s < project.apps.len(),
        is_service(project.apps[s]),
    ensures
        ({
            let r = reconciliation(project, windows);
            let id = project.apps[s].slot_id;
            !slot_matched(r.matched, id) && r.missing.contains(id)
        }),
{
    let apps = project.apps;
    let id = apps[s].slot_id;
    let pairs = greedy(apps, windows, seq![]);
    law_matching_is_one_to_one_and_complete(apps, windows);
    let matched = reconciliation(project, windows).matched;
    if slot_matched(matched, id) {
        let i = choose|i: int| 0 <= i < matched.len() && (#[trigger] matched[i]).0 == id;
        let t = pairs[i].0;
        assert(apps[t].slot_id == id);
        if t < s {
            assert(apps[t].slot_id != apps[s].slot_id);
        } else if s < t {
            assert(apps[s].slot_id != apps[t].slot_id);
        }
        assert(pair_score(apps, windows, pairs[i].0, pairs[i].1) is Some);
    }
    law_slots_are_matched_or_missing(project, windows, s);
}

proof fn lemma_unmatched(apps: Seq<AppSlotView>, matched: Seq<(u128, Seq<char>)>, id: u128)
    ensures
        unmatched(apps, matched).contains(id) <==> !slot_matched(matched, id) && exists|i: int|
            0 <= i < apps.len() && (#[trigger] apps[i]).slot_id == id,
    decreases apps.len(),
{
    if apps.len() > 0 {
        let front = apps.drop_last();
        lemma_unmatched(front, matched, id);
        let before = unmatched(front, matched);
        let now = unmatched(apps, matched);
        if before.contains(id) {
            let k = choose|k: int| 0 <= k < before.len() && before[k] == id;
            assert(now[k] == id);
            let i = choose|i: int| 0 <= i < front.len() && (#[trigger] front[i]).slot_id == id;
            assert(apps[i].slot_id == id);
        }
        if now.contains(id) && !before.contains(id) {
            let k = choose|k: int| 0 <= k < now.len() && now[k] == id;
            assert(k == before.len());
            assert(apps[apps.len() - 1].slot_id == id);
        }
        if !slot_matched(matched, id) && exists|i: int|
            0 <= i < apps.len() && (#[trigger] apps[i]).slot_id == id {
            let i = choose|i: int| 0 <= i < apps.len() && (#[trigger] apps[i]).slot_id == id;
            if i < front.len() {
                assert(front[i].slot_id == id);
            } else {
                assert(now[before.len() as int] == id);
            }
        }
    }
}

/// Every slot is either matched to a window or missing, never both.
pub proof fn law_slots_are_matched_or_missing(
    project: ProjectView,
    windows: Seq<TrackedWindowView>,
    i: int,
)
    requires
        0 <= i < project.apps.len(),
    ensures
        ({
            let r = reconciliation(project, windows);
            r.missing.contains(project.apps[i].slot_id) <==> !slot_matched(
                r.matched,
                project.apps[i].slot_id,
            )
        }),
{
    let matched = reconciliation(project, windows).matched;
    lemma_unmatched(project.apps, matched, project.apps[i].slot_id);
}

proof fn lemma_slot_with_exists(apps: Seq<AppSlotView>, i: int)
    requires
        0 <= i < apps.len(),
    ensures
        slot_with(apps, apps[i].slot_id) is Some,
    decreases i,
{
    if i > 0 && apps[0].slot_id != apps[i].slot_id {
        assert(apps.skip(1)[i - 1] == apps[i]);
        lemma_slot_with_exists(apps.skip(1), i - 1);
    }
}

/// A wave launches an id exactly if it holds it and the id asks for a launch.
proof fn lemma_wave_launches(
    apps: Seq<AppSlotView>,
    missing: Seq<u128>,
    wave: Seq<u128>,
    id: u128,
)
    ensures
        (exists|x: int|
            0 <= x < wave_launches(apps, missing, wave).len() && (#[trigger] wave_launches(
                apps,
                missing,
                wave,
            )[x]).slot_id == id) <==> wave.contains(id) && launch_for(apps, missing, id) is Some,
    decreases wave.len(),
{
    lemma_slot_with(apps, id);
    if wave.len() > 0 {
        let front = wave.drop_last();
        let last = wave.last();
        lemma_wave_launches(apps, missing, front, id);
        lemma_slot_with(apps, last);
        let before = wave_launches(apps, missing, front);
        let now = wave_launches(apps, missing, wave);
        if exists|x: int| 0 <= x < now.len() && (#[trigger] now[x]).slot_id == id {
            let x = choose|x: int| 0 <= x < now.len() && (#[trigger] now[x]).slot_id == id;
            if x < before.len() {
                assert(before[x].slot_id == id);
                let k = choose|k: int| 0 <= k < front.len() && front[k] == id;
                assert(wave[k] == id);
            } else {
                assert(wave[wave.len() - 1] == id);
            }
        }
        if wave.contains(id) && launch_for(apps, missing, id) is Some {
            let k = choose|k: int| 0 <= k < wave.len() && wave[k] == id;
            if k < front.len() {
                assert(front[k] == id);
                let x = choose|x: int|
                    0 <= x < before.len() && (#[trigger] before[x]).slot_id == id;
                assert(now[x].slot_id == id);
            } else {
                assert(now[before.len() as int].slot_id == id);
            }
        }
    }
}

/// Planning waves can be cut anywhere.
proof fn lemma_plan_waves_cut(
    apps: Seq<AppSlotView>,
    missing: Seq<u128>,
    waves: Seq<Seq<u128>>,
    k: int,
)
    requires
        0 <= k <= waves.len(),
    ensures
        plan_waves(apps, missing, waves) == plan_waves(apps, missing, waves.take(k)) + plan_waves(
            apps,
            missing,
            waves.skip(k),
        ),
    decreases waves.len(),
{
    if k == waves.len() {
        assert(waves.take(k) =~= waves);
        assert(waves.skip(k) =~= seq![]);
        assert(plan_waves(apps, missing, waves.skip(k)) =~= seq![]);
        assert(plan_waves(apps, missing, waves) + Seq::<Seq<LaunchStepView>>::empty()
            =~= plan_waves(apps, missing, waves));
    } else {
        let front = waves.drop_last();
        lemma_plan_waves_cut(apps, missing, front, k);
        assert(front.take(k) =~= waves.take(k));
        assert(front.skip(k) =~= waves.skip(k).drop_last());
        assert(waves.skip(k).last() == waves.last());
        let last = wave_launches(apps, missing, waves.last());
        let head = plan_waves(apps, missing, waves.take(k));
        let tail = plan_waves(apps, missing, waves.skip(k).drop_last());
        assert((head + tail).push(last) =~= head + tail.push(last));
    }
}

/// What is launched in the waves is what they hold and what asks for it.
proof fn lemma_plan_waves_launch(
    apps: Seq<AppSlotView>,
    missing: Seq<u128>,
    waves: Seq<Seq<u128>>,
    k: int,
    id: u128,
)
    requires
        0 <= k < waves.len(),
        waves[k].contains(id),
        launch_for(apps, missing, id) is Some,
    ensures
        exists|a: int, x: int|
            0 <= a < plan_waves(apps, missing, waves).len() && 0 <= x < plan_waves(
                apps,
                missing,
                waves,
            )[a].len() && (#[trigger] plan_waves(apps, missing, waves)[a][x]).slot_id == id,
    decreases waves.len(),
{
    let planned = plan_waves(apps, missing, waves);
    let front = waves.drop_last();
    let before = plan_waves(apps, missing, front);
    if k < front.len() {
        lemma_plan_waves_launch(apps, missing, front, k, id);
        let (a, x) = choose|a: int, x: int|
            0 <= a < before.len() && 0 <= x < before[a].len() && (#[trigger] before[a][x]).slot_id
                == id;
        assert(planned[a] == before[a]);
        assert(planned[a][x].slot_id == id);
    } else {
        lemma_wave_launches(apps, missing, waves.last(), id);
        let last = wave_launches(apps, missing, waves.last());
        let x = choose|x: int| 0 <= x < last.len() && (#[trigger] last[x]).slot_id == id;
        assert(planned[before.len() as int][x].slot_id == id);
    }
}

proof fn lemma_plan_waves_only(
    apps: Seq<AppSlotView>,
    missing: Seq<u128>,
    waves: Seq<Seq<u128>>,
    a: int,
    x: int,
)
    requires
        0 <= a < plan_waves(apps, missing, waves).len(),
        0 <= x < plan_waves(apps, missing, waves)[a].len(),
    ensures
        launch_for(apps, missing, plan_waves(apps, missing, waves)[a][x].slot_id) is Some,
    decreases waves.len(),
{
    if waves.len() > 0 {
        let planned = plan_waves(apps, missing, waves);
        let before = plan_waves(apps, missing, waves.drop_last());
        if a < before.len() {
            assert(planned[a] == before[a]);
            lemma_plan_waves_only(apps, missing, waves.drop_last(), a, x);
        } else {
            lemma_wave_launches(apps, missing, waves.last(), planned[a][x].slot_id);
            let last = wave_launches(apps, missing, waves.last());
            assert(last[x].slot_id == planned[a][x].slot_id);
        }
    }
}

/// A plan launches the missing slots that say how, and no others.
pub proof fn law_plan_launches_what_is_missing(
    project: ProjectView,
    windows: Seq<TrackedWindowView>,
    prefix: Seq<char>,
    plan: RestorePlanView,
    i: int,
)
    requires
        restore_plan(project, windows, prefix) == Ok::<RestorePlanView, LaunchPlanErrorView>(plan),
        0 <= i < project.apps.len(),
    ensures
        ({
            let missing = reconciliation(project, windows).missing;
            let id = project.apps[i].slot_id;
            (exists|a: int, x: int|
                0 <= a < plan.waves.len() && 0 <= x < plan.waves[a].len() && (
                #[trigger] plan.waves[a][x]).slot_id == id) <==> launch_for(
                project.apps,
                missing,
                id,
            ) is Some
        }),
{
    let missing = reconciliation(project, windows).missing;
    let id = project.apps[i].slot_id;
    let waves = schedule(project.apps)->Ok_0;
    if launch_for(project.apps, missing, id) is Some {
        law_every_slot_launches(project.apps, waves, i);
        let k = choose|k: int| 0 <= k < waves.len() && (#[trigger] waves[k]).contains(id);
        lemma_plan_waves_launch(project.apps, missing, waves, k, id);
    }
    if exists|a: int, x: int|
        0 <= a < plan.waves.len() && 0 <= x < plan.waves[a].len() && (
        #[trigger] plan.waves[a][x]).slot_id == id {
        let (a, x) = choose|a: int, x: int|
            0 <= a < plan.waves.len() && 0 <= x < plan.waves[a].len() && (
            #[trigger] plan.waves[a][x]).slot_id == id;
        lemma_plan_waves_only(project.apps, missing, waves, a, x);
    }
}

proof fn lemma_wave_launches_once(
    apps: Seq<AppSlotView>,
    missing: Seq<u128>,
    wave: Seq<u128>,
    x: int,
    y: int,
)
    requires
        wave.no_duplicates(),
        0 <= x < y < wave_launches(apps, missing, wave).len(),
    ensures
        wave_launches(apps, missing, wave)[x].slot_id != wave_launches(
            apps,
            missing,
            wave,
        )[y].slot_id,
    decreases wave.len(),
{
    if wave.len() > 0 {
        let front = wave.drop_last();
        let before = wave_launches(apps, missing, front);
        let now = wave_launches(apps, missing, wave);
        assert(front.no_duplicates());
        if y < before.len() {
            lemma_wave_launches_once(apps, missing, front, x, y);
        } else {
            let id = before[x].slot_id;
            lemma_wave_launches(apps, missing, front, id);
            lemma_slot_with(apps, wave.last());
            assert(front.contains(id));
            let k = choose|k: int| 0 <= k < front.len() && front[k] == id;
            assert(wave[k] == id);
            assert(now[y].slot_id == wave.last());
        }
    }
}

/// What is launched stands in some wave.
proof fn lemma_plan_waves_source(
    apps: Seq<AppSlotView>,
    missing: Seq<u128>,
    waves: Seq<Seq<u128>>,
    a: int,
    x: int,
)
    requires
        0 <= a < plan_waves(apps, missing, waves).len(),
        0 <= x < plan_waves(apps, missing, waves)[a].len(),
    ensures
        exists|k: int|
            0 <= k < waves.len() && (#[trigger] waves[k]).contains(
                plan_waves(apps, missing, waves)[a][x].slot_id,
            ),
    decreases waves.len(),
{
    if waves.len() > 0 {
        let front = waves.drop_last();
        let planned = plan_waves(apps, missing, waves);
        let before = plan_waves(apps, missing, front);
        let id = planned[a][x].slot_id;
        if a < before.len() {
            assert(planned[a] == before[a]);
            lemma_plan_waves_source(apps, missing, front, a, x);
            let k = choose|k: int| 0 <= k < front.len() && (#[trigger] front[k]).contains(id);
            assert(waves[k].contains(id));
        } else {
            let last = wave_launches(apps, missing, waves.last());
            assert(last[x].slot_id == id);
            lemma_wave_launches(apps, missing, waves.last(), id);
            assert(waves[waves.len() - 1].contains(id));
        }
    }
}

proof fn lemma_plan_waves_once(
    apps: Seq<AppSlotView>,
    missing: Seq<u128>,
    waves: Seq<Seq<u128>>,
    a: int,
    x: int,
    b: int,
    y: int,
)
    requires
        forall|k: int| 0 <= k < waves.len() ==> (#[trigger] waves[k]).no_duplicates(),
        forall|k: int, l: int, id: u128|
            0 <= l < k < waves.len() && #[trigger] waves[k].contains(id)
                ==> !#[trigger] waves[l].contains(id),
        0 <= a <= b < plan_waves(apps, missing, waves).len(),
        0 <= x < plan_waves(apps, missing, waves)[a].len(),
        0 <= y < plan_waves(apps, missing, waves)[b].len(),
        plan_waves(apps, missing, waves)[a][x].slot_id == plan_waves(
            apps,
            missing,
            waves,
        )[b][y].slot_id,
    ensures
        a == b,
        x == y,
    decreases waves.len(),
{
    if waves.len() > 0 {
        let front = waves.drop_last();
        let planned = plan_waves(apps, missing, waves);
        let before = plan_waves(apps, missing, front);
        let last = wave_launches(apps, missing, waves.last());
        let id = planned[a][x].slot_id;
        if b < before.len() {
            assert(planned[a] == before[a] && planned[b] == before[b]);
            lemma_plan_waves_once(apps, missing, front, a, x, b, y);
        } else if a < before.len() {
            assert(planned[a] == before[a]);
            lemma_plan_waves_source(apps, missing, front, a, x);
            let k = choose|k: int| 0 <= k < front.len() && (#[trigger] front[k]).contains(id);
            assert(last[y].slot_id == id);
            lemma_wave_launches(apps, missing, waves.last(), id);
            assert(waves[waves.len() - 1].contains(id));
            assert(waves[k].contains(id));
        } else {
            assert(waves[waves.len() - 1].no_duplicates());
            if x < y {
                lemma_wave_launches_once(apps, missing, waves.last(), x, y);
            } else if y < x {
                lemma_wave_launches_once(apps, missing, waves.last(), y, x);
            }
        }
    }
}

proof fn lemma_waves_filled(apps: Seq<AppSlotView>, missing: Seq<u128>, waves: Seq<Seq<u128>>)
    ensures
        forall|a: int|
            0 <= a < plan_waves(apps, missing, waves).len() ==> (#[trigger] plan_waves(
                apps,
                missing,
                waves,
            )[a]).len() > 0,
    decreases waves.len(),
{
    if waves.len() > 0 {
        lemma_waves_filled(apps, missing, waves.drop_last());
        let before = plan_waves(apps, missing, waves.drop_last());
        let planned = plan_waves(apps, missing, waves);
        assert forall|a: int| 0 <= a < planned.len() implies (#[trigger] planned[a]).len() > 0 by {
            if a < before.len() {
                assert(planned[a] == before[a]);
            }
        }
    }
}

/// A plan has exactly one step for each missing slot that says how it is
/// launched, a step for nothing else, and no empty wave.
pub proof fn law_plan_launches_each_slot_once(
    project: ProjectView,
    windows: Seq<TrackedWindowView>,
    prefix: Seq<char>,
    plan: RestorePlanView,
)
    requires
        ids_distinct(project.apps),
        restore_plan(project, windows, prefix) == Ok::<RestorePlanView, LaunchPlanErrorView>(plan),
    ensures
        ({
            let missing = reconciliation(project, windows).missing;
            &&& forall|id: u128|
                (#[trigger] launch_for(project.apps, missing, id)) is Some ==> exists|
                    a: int,
                    x: int,
                |
                    0 <= a < plan.waves.len() && 0 <= x < plan.waves[a].len() && (
                    #[trigger] plan.waves[a][x]).slot_id == id
            &&& forall|a: int, x: int|
                0 <= a < plan.waves.len() && 0 <= x < plan.waves[a].len() ==> launch_for(
                    project.apps,
                    missing,
                    (#[trigger] plan.waves[a][x]).slot_id,
                ) is Some
            &&& forall|a: int, x: int, b: int, y: int|
                0 <= a < plan.waves.len() && 0 <= x < plan.waves[a].len() && 0 <= b
                    < plan.waves.len() && 0 <= y < plan.waves[b].len() && (
                #[trigger] plan.waves[a][x]).slot_id == (#[trigger] plan.waves[b][y]).slot_id ==> a
                    == b && x == y
            &&& forall|a: int| 0 <= a < plan.waves.len() ==> (#[trigger] plan.waves[a]).len() > 0
        }),
{
    let apps = project.apps;
    let missing = reconciliation(project, windows).missing;
    let waves = schedule(apps)->Ok_0;
    assert forall|id: u128| (#[trigger] launch_for(apps, missing, id)) is Some implies exists|
        a: int,
        x: int,
    |
        0 <= a < plan.waves.len() && 0 <= x < plan.waves[a].len() && (
        #[trigger] plan.waves[a][x]).slot_id == id by {
        lemma_unmatched(apps, reconciliation(project, windows).matched, id);
        let i = choose|i: int| 0 <= i < apps.len() && (#[trigger] apps[i]).slot_id == id;
        law_plan_launches_what_is_missing(project, windows, prefix, plan, i);
    }
    assert forall|a: int, x: int|
        0 <= a < plan.waves.len() && 0 <= x < plan.waves[a].len() implies launch_for(
        apps,
        missing,
        (#[trigger] plan.waves[a][x]).slot_id,
    ) is Some by {
        lemma_plan_waves_only(apps, missing, waves, a, x);
    }
    assert forall|k: int| 0 <= k < waves.len() implies (#[trigger] waves[k]).no_duplicates() by {
        law_no_wave_repeats(apps, waves, k);
    }
    assert forall|k: int, l: int, id: u128|
        0 <= l < k < waves.len() && #[trigger] waves[k].contains(
            id,
        ) implies !#[trigger] waves[l].contains(id) by {
        law_no_slot_launches_twice(apps, waves, k, l, id);
    }
    assert forall|a: int, x: int, b: int, y: int|
        0 <= a < plan.waves.len() && 0 <= x < plan.waves[a].len() && 0 <= b < plan.waves.len()
            && 0 <= y < plan.waves[b].len() && (#[trigger] plan.waves[a][x]).slot_id == (
        #[trigger] plan.waves[b][y]).slot_id implies a == b && x == y by {
        if a <= b {
            lemma_plan_waves_once(apps, missing, waves, a, x, b, y);
        } else {
            lemma_plan_waves_once(apps, missing, waves, b, y, a, x);
        }
    }
    lemma_waves_filled(apps, missing, waves);
}

proof fn lemma_adoptions(
    apps: Seq<AppSlotView>,
    windows: Seq<TrackedWindowView>,
    workspace: Seq<char>,
    pairs: Seq<(int, int)>,
)
    requires
        ids_distinct(apps),
        addresses_distinct(windows),
        is_matching(apps, windows, pairs),
    ensures
        ({
            let steps = adoptions(apps, windows, workspace, pair_names(apps, windows, pairs));
            &&& steps.len() == pairs.len()
            &&& forall|i: int|
                0 <= i < pairs.len() ==> #[trigger] steps[i] == adoption(
                    apps[pairs[i].0],
                    windows[pairs[i].1],
                    workspace,
                )
        }),
    decreases pairs.len(),
{
    let matched = pair_names(apps, windows, pairs);
    if pairs.len() > 0 {
        let front = pairs.drop_last();
        assert(is_matching(apps, windows, front)) by {
            assert forall|i: int| 0 <= i < front.len() implies 0 <= (#[trigger] front[i]).0
                < apps.len() && 0 <= front[i].1 < windows.len() && pair_score(
                apps,
                windows,
                front[i].0,
                front[i].1,
            ) is Some by {
                assert(front[i] == pairs[i]);
            }
            assert forall|i: int, j: int| 0 <= i < j < front.len() implies (
            #[trigger] front[i]).0 != (#[trigger] front[j]).0 && front[i].1 != front[j].1 by {
                assert(pairs[i].0 != pairs[j].0 && pairs[i].1 != pairs[j].1);
            }
        }
        lemma_adoptions(apps, windows, workspace, front);
        assert(matched.drop_last() =~= pair_names(apps, windows, front));
        let (s, w) = pairs[pairs.len() - 1];
        lemma_slot_is_found(apps, s);
        lemma_window_is_found(windows, w);
    }
}

proof fn lemma_slot_is_found(apps: Seq<AppSlotView>, i: int)
    requires
        ids_distinct(apps),
        0 <= i < apps.len(),
    ensures
        slot_with(apps, apps[i].slot_id) == Some(apps[i]),
    decreases i,
{
    if i > 0 {
        assert(apps[0].slot_id != apps[i].slot_id);
        let rest = apps.skip(1);
        assert(ids_distinct(rest)) by {
            assert forall|a: int, b: int| 0 <= a < b < rest.len() implies (
            #[trigger] rest[a]).slot_id != (#[trigger] rest[b]).slot_id by {
                assert(apps[a + 1].slot_id != apps[b + 1].slot_id);
            }
        }
        assert(rest[i - 1] == apps[i]);
        lemma_slot_is_found(rest, i - 1);
    }
}

proof fn lemma_window_is_found(windows: Seq<TrackedWindowView>, i: int)
    requires
        addresses_distinct(windows),
        0 <= i < windows.len(),
    ensures
        window_with(windows, windows[i].address) == Some(windows[i]),
    decreases i,
{
    if i > 0 {
        assert(windows[0].address != windows[i].address);
        let rest = windows.skip(1);
        assert(addresses_distinct(rest)) by {
            assert forall|a: int, b: int| 0 <= a < b < rest.len() implies (
            #[trigger] rest[a]).address != (#[trigger] rest[b]).address by {
                assert(windows[a + 1].address != windows[b + 1].address);
            }
        }
        assert(rest[i - 1] == windows[i]);
        lemma_window_is_found(rest, i - 1);
    }
}

/// A plan adopts what is matched, pair by pair: a window moves exactly if it is
/// not on the project's workspace. What is left over is left alone.
pub proof fn law_plan_adopts_what_is_matched(
    project: ProjectView,
    windows: Seq<TrackedWindowView>,
    prefix: Seq<char>,
    plan: RestorePlanView,
)
    requires
        ids_distinct(project.apps),
        addresses_distinct(windows),
        restore_plan(project, windows, prefix) == Ok::<RestorePlanView, LaunchPlanErrorView>(plan),
    ensures
        ({
            let r = reconciliation(project, windows);
            let pairs = greedy(project.apps, windows, seq![]);
            &&& plan.workspace == project_name(prefix, project.slug)
            &&& plan.extra == r.extra
            &&& plan.adopt.len() == r.matched.len() == pairs.len()
            &&& forall|i: int|
                0 <= i < plan.adopt.len() ==> {
                    let step = #[trigger] plan.adopt[i];
                    &&& step.slot_id == r.matched[i].0
                    &&& step.address == r.matched[i].1
                    &&& step.needs_move <==> windows[pairs[i].1].facts.workspace != plan.workspace
                }
        }),
{
    let pairs = greedy(project.apps, windows, seq![]);
    law_matching_is_one_to_one_and_complete(project.apps, windows);
    lemma_adoptions(project.apps, windows, project_name(prefix, project.slug), pairs);
}

/// In a plan, a launched slot stands in a later wave than each launched slot
/// that it depends on.
pub proof fn law_plan_honors_dependencies(
    project: ProjectView,
    windows: Seq<TrackedWindowView>,
    prefix: Seq<char>,
    plan: RestorePlanView,
    j: int,
    d: int,
)
    requires
        restore_plan(project, windows, prefix) == Ok::<RestorePlanView, LaunchPlanErrorView>(plan),
        0 <= j < project.apps.len(),
        0 <= d < dependencies(project.apps[j]).len(),
        launch_for(
            project.apps,
            reconciliation(project, windows).missing,
            project.apps[j].slot_id,
        ) is Some,
        launch_for(
            project.apps,
            reconciliation(project, windows).missing,
            id_named(project.apps, dependencies(project.apps[j])[d]),
        ) is Some,
    ensures
        exists|a: int, x: int, b: int, y: int|
            0 <= a < b < plan.waves.len() && 0 <= x < plan.waves[a].len() && 0 <= y
                < plan.waves[b].len() && (#[trigger] plan.waves[a][x]).slot_id == id_named(
                project.apps,
                dependencies(project.apps[j])[d],
            ) && (#[trigger] plan.waves[b][y]).slot_id == project.apps[j].slot_id,
        ids_distinct(project.apps) ==> forall|a: int, x: int, b: int, y: int|
            0 <= a < plan.waves.len() && 0 <= x < plan.waves[a].len() && 0 <= b < plan.waves.len()
                && 0 <= y < plan.waves[b].len() && (#[trigger] plan.waves[a][x]).slot_id
                == id_named(project.apps, dependencies(project.apps[j])[d]) && (
            #[trigger] plan.waves[b][y]).slot_id == project.apps[j].slot_id ==> a < b,
{
    let apps = project.apps;
    let missing = reconciliation(project, windows).missing;
    let id = apps[j].slot_id;
    let needed = id_named(apps, dependencies(apps[j])[d]);
    let waves = schedule(apps)->Ok_0;
    law_every_slot_launches(apps, waves, j);
    let k = choose|k: int| 0 <= k < waves.len() && (#[trigger] waves[k]).contains(id);
    law_dependencies_come_first(apps, waves, k, j, d);
    let l = choose|l: int| 0 <= l < k && (#[trigger] waves[l]).contains(needed);
    let early = waves.take(k);
    let late = waves.skip(k);
    assert(early[l] == waves[l]);
    assert(late[0] == waves[k]);
    lemma_plan_waves_cut(apps, missing, waves, k);
    lemma_plan_waves_launch(apps, missing, early, l, needed);
    lemma_plan_waves_launch(apps, missing, late, 0, id);
    let head = plan_waves(apps, missing, early);
    let tail = plan_waves(apps, missing, late);
    let (a, x) = choose|a: int, x: int|
        0 <= a < head.len() && 0 <= x < head[a].len() && (#[trigger] head[a][x]).slot_id == needed;
    let (b, y) = choose|b: int, y: int|
        0 <= b < tail.len() && 0 <= y < tail[b].len() && (#[trigger] tail[b][y]).slot_id == id;
    assert(plan.waves[a] == head[a]);
    assert(plan.waves[head.len() + b] == tail[b]);
    assert(plan.waves[a][x].slot_id == needed);
    assert(plan.waves[head.len() + b][y].slot_id == id);
    if ids_distinct(apps) {
        law_plan_launches_each_slot_once(project, windows, prefix, plan);
    }
}

proof fn lemma_slot_stands(apps: Seq<AppSlotView>, id: u128)
    requires
        slot_with(apps, id) is Some,
    ensures
        exists|i: int|
            0 <= i < apps.len() && #[trigger] apps[i] == slot_with(apps, id)->0 && apps[i].slot_id
                == id,
    decreases apps.len(),
{
    if apps.len() > 0 {
        if apps[0].slot_id == id {
            assert(apps[0] == slot_with(apps, id)->0);
        } else {
            let rest = apps.skip(1);
            lemma_slot_stands(rest, id);
            let i = choose|i: int|
                0 <= i < rest.len() && #[trigger] rest[i] == slot_with(rest, id)->0
                    && rest[i].slot_id == id;
            assert(apps[i + 1] == slot_with(apps, id)->0);
        }
    }
}

proof fn lemma_window_stands(windows: Seq<TrackedWindowView>, address: Seq<char>)
    requires
        window_with(windows, address) is Some,
    ensures
        exists|w: int|
            0 <= w < windows.len() && #[trigger] windows[w] == window_with(windows, address)->0
                && windows[w].address == address,
    decreases windows.len(),
{
    if windows.len() > 0 {
        if windows[0].address == address {
            assert(windows[0] == window_with(windows, address)->0);
        } else {
            let rest = windows.skip(1);
            lemma_window_stands(rest, address);
            let w = choose|w: int|
                0 <= w < rest.len() && #[trigger] rest[w] == window_with(rest, address)->0
                    && rest[w].address == address;
            assert(windows[w + 1] == window_with(windows, address)->0);
        }
    }
}

proof fn lemma_wave_step(apps: Seq<AppSlotView>, missing: Seq<u128>, wave: Seq<u128>, x: int)
    requires
        0 <= x < wave_launches(apps, missing, wave).len(),
    ensures
        exists|id: u128|
            #[trigger] launch_for(apps, missing, id) == Some(wave_launches(apps, missing, wave)[x]),
    decreases wave.len(),
{
    if wave.len() > 0 {
        let front = wave.drop_last();
        let before = wave_launches(apps, missing, front);
        let now = wave_launches(apps, missing, wave);
        if x < before.len() {
            assert(now[x] == before[x]);
            lemma_wave_step(apps, missing, front, x);
        } else {
            assert(launch_for(apps, missing, wave.last()) == Some(now[x]));
        }
    }
}

proof fn lemma_plan_step(
    apps: Seq<AppSlotView>,
    missing: Seq<u128>,
    waves: Seq<Seq<u128>>,
    a: int,
    x: int,
)
    requires
        0 <= a < plan_waves(apps, missing, waves).len(),
        0 <= x < plan_waves(apps, missing, waves)[a].len(),
    ensures
        exists|id: u128|
            #[trigger] launch_for(apps, missing, id) == Some(
                plan_waves(apps, missing, waves)[a][x],
            ),
    decreases waves.len(),
{
    if waves.len() > 0 {
        let planned = plan_waves(apps, missing, waves);
        let before = plan_waves(apps, missing, waves.drop_last());
        if a < before.len() {
            assert(planned[a] == before[a]);
            lemma_plan_step(apps, missing, waves.drop_last(), a, x);
        } else {
            lemma_wave_step(apps, missing, waves.last(), x);
        }
    }
}

proof fn lemma_adopt_step(
    apps: Seq<AppSlotView>,
    windows: Seq<TrackedWindowView>,
    workspace: Seq<char>,
    matched: Seq<(u128, Seq<char>)>,
    k: int,
)
    requires
        0 <= k < adoptions(apps, windows, workspace, matched).len(),
    ensures
        exists|i: int, w: int|
            0 <= i < apps.len() && 0 <= w < windows.len() && #[trigger] adoption(
                apps[i],
                windows[w],
                workspace,
            ) == adoptions(apps, windows, workspace, matched)[k],
    decreases matched.len(),
{
    if matched.len() > 0 {
        let steps = adoptions(apps, windows, workspace, matched);
        let before = adoptions(apps, windows, workspace, matched.drop_last());
        if k < before.len() {
            assert(steps[k] == before[k]);
            lemma_adopt_step(apps, windows, workspace, matched.drop_last(), k);
        } else {
            let (id, address) = matched.last();
            lemma_slot_stands(apps, id);
            lemma_window_stands(windows, address);
            let i = choose|i: int|
                0 <= i < apps.len() && #[trigger] apps[i] == slot_with(apps, id)->0
                    && apps[i].slot_id == id;
            let w = choose|w: int|
                0 <= w < windows.len() && #[trigger] windows[w] == window_with(windows, address)->0
                    && windows[w].address == address;
            assert(adoption(apps[i], windows[w], workspace) == steps[k]);
        }
    }
}

/// Every launch of a plan is the launch of one of the project's slots and
/// carries that slot's own data: the whole launch specification, the identity
/// by which its window is recognised, the placement and the group.
pub proof fn law_steps_carry_their_slots(
    project: ProjectView,
    windows: Seq<TrackedWindowView>,
    prefix: Seq<char>,
    plan: RestorePlanView,
    a: int,
    x: int,
)
    requires
        restore_plan(project, windows, prefix) == Ok::<RestorePlanView, LaunchPlanErrorView>(plan),
        0 <= a < plan.waves.len(),
        0 <= x < plan.waves[a].len(),
    ensures
        exists|i: int|
            0 <= i < project.apps.len() && {
                let slot = #[trigger] project.apps[i];
                let step = plan.waves[a][x];
                &&& slot.slot_id == step.slot_id
                &&& slot.launch matches Some(launch) && {
                    &&& step.spec.command == launch.command
                    &&& step.spec.args == launch.args
                    &&& step.spec.env == launch.env
                    &&& step.spec.workdir == launch.workdir
                    &&& step.spec.after == launch.after
                    &&& step.spec.startup_delay_ms == launch.startup_delay_ms
                    &&& step.spec.timeout_ms == launch.timeout_ms
                    &&& step.spec.readiness == launch.readiness
                    &&& step.spec.service == launch.service
                    &&& step.after == launch.after
                    &&& step.readiness == launch.readiness
                }
                &&& step.identity == slot.identity
                &&& step.placement == slot.placement
                &&& step.group == slot.group
                &&& slot.name is Some ==> step.label == slot.name->0
                &&& slot.name is None && slot.identity.class is Some ==> step.label
                    == slot.identity.class->0
                &&& slot.name is None && slot.identity.class is None ==> step.label
                    == slot.launch->0.command
            },
{
    let missing = reconciliation(project, windows).missing;
    let waves = schedule(project.apps)->Ok_0;
    lemma_plan_step(project.apps, missing, waves, a, x);
    let id = choose|id: u128|
        #[trigger] launch_for(project.apps, missing, id) == Some(plan.waves[a][x]);
    lemma_slot_stands(project.apps, id);
    let i = choose|i: int|
        0 <= i < project.apps.len() && #[trigger] project.apps[i] == slot_with(project.apps, id)->0
            && project.apps[i].slot_id == id;
    assert(project.apps[i].slot_id == plan.waves[a][x].slot_id);
}

/// Every adoption of a plan is that of one of the windows by one of the
/// project's slots: it names the window, carries the slot's placement and
/// group, and moves the window exactly if it is not on the project's workspace.
pub proof fn law_adoptions_carry_their_slots(
    project: ProjectView,
    windows: Seq<TrackedWindowView>,
    prefix: Seq<char>,
    plan: RestorePlanView,
    k: int,
)
    requires
        restore_plan(project, windows, prefix) == Ok::<RestorePlanView, LaunchPlanErrorView>(plan),
        0 <= k < plan.adopt.len(),
    ensures
        plan.project == project.slug,
        plan.workspace == project_name(prefix, project.slug),
        exists|i: int, w: int|
            0 <= i < project.apps.len() && 0 <= w < windows.len() && {
                let slot = #[trigger] project.apps[i];
                let window = #[trigger] windows[w];
                let step = plan.adopt[k];
                &&& step.slot_id == slot.slot_id
                &&& step.address == window.address
                &&& step.placement == slot.placement
                &&& step.group == slot.group
                &&& step.needs_move <==> window.facts.workspace != plan.workspace
                &&& slot.name is Some ==> step.label == slot.name->0
                &&& slot.name is None && slot.identity.class is Some ==> step.label
                    == slot.identity.class->0
            },
{
    let workspace = project_name(prefix, project.slug);
    let matched = reconciliation(project, windows).matched;
    lemma_adopt_step(project.apps, windows, workspace, matched, k);
    let (i, w) = choose|i: int, w: int|
        0 <= i < project.apps.len() && 0 <= w < windows.len() && #[trigger] adoption(
            project.apps[i],
            windows[w],
            workspace,
        ) == plan.adopt[k];
    assert(project.apps[i].slot_id == plan.adopt[k].slot_id);
    assert(windows[w].address == plan.adopt[k].address);
}

/// A plan does everything there is to do, and nothing twice: a slot that says
/// how it is launched is either given a window that is there or launched,
/// never both, and one that does not say how is never launched. A service is
/// never given a window.
pub proof fn law_slots_are_adopted_or_launched(
    project: ProjectView,
    windows: Seq<TrackedWindowView>,
    prefix: Seq<char>,
    plan: RestorePlanView,
    i: int,
)
    requires
        ids_distinct(project.apps),
        addresses_distinct(windows),
        restore_plan(project, windows, prefix) == Ok::<RestorePlanView, LaunchPlanErrorView>(plan),
        0 <= i < project.apps.len(),
    ensures
        ({
            let slot = project.apps[i];
            let adopted = exists|k: int|
                0 <= k < plan.adopt.len() && (#[trigger] plan.adopt[k]).slot_id == slot.slot_id;
            let launched = exists|a: int, x: int|
                0 <= a < plan.waves.len() && 0 <= x < plan.waves[a].len() && (
                #[trigger] plan.waves[a][x]).slot_id == slot.slot_id;
            &&& launched <==> slot.launch is Some && !adopted
            &&& adopted ==> !(slot.launch is Some && slot.launch->0.service)
        }),
{
    let slot = project.apps[i];
    let r = reconciliation(project, windows);
    law_plan_adopts_what_is_matched(project, windows, prefix, plan);
    law_slots_are_matched_or_missing(project, windows, i);
    law_plan_launches_what_is_missing(project, windows, prefix, plan, i);
    lemma_slot_is_found(project.apps, i);
    if slot_matched(r.matched, slot.slot_id) {
        let k = choose|k: int| 0 <= k < r.matched.len() && (#[trigger] r.matched[k]).0
            == slot.slot_id;
        assert(plan.adopt[k].slot_id == slot.slot_id);
    }
    if exists|k: int| 0 <= k < plan.adopt.len() && (#[trigger] plan.adopt[k]).slot_id
        == slot.slot_id {
        let k = choose|k: int| 0 <= k < plan.adopt.len() && (#[trigger] plan.adopt[k]).slot_id
            == slot.slot_id;
        assert(r.matched[k].0 == slot.slot_id);
        assert(slot_matched(r.matched, slot.slot_id));
        if is_service(slot) {
            law_services_are_never_matched(project, windows, i);
        }
    }
}

proof fn lemma_left_over(
    project: ProjectView,
    windows: Seq<TrackedWindowView>,
    matched: Seq<(u128, Seq<char>)>,
    address: Seq<char>,
)
    ensures
        left_over(project, windows, matched).contains(address) <==> !window_matched(
            matched,
            address,
        ) && exists|w: int|
            0 <= w < windows.len() && (#[trigger] windows[w]).address == address && belongs_to(
                windows[w],
                project,
            ),
    decreases windows.len(),
{
    if windows.len() > 0 {
        let front = windows.drop_last();
        lemma_left_over(project, front, matched, address);
        let before = left_over(project, front, matched);
        let now = left_over(project, windows, matched);
        if before.contains(address) {
            let k = choose|k: int| 0 <= k < before.len() && before[k] == address;
            assert(now[k] == address);
            let w = choose|w: int|
                0 <= w < front.len() && (#[trigger] front[w]).address == address && belongs_to(
                    front[w],
                    project,
                );
            assert(windows[w].address == address);
        }
        if now.contains(address) && !before.contains(address) {
            let k = choose|k: int| 0 <= k < now.len() && now[k] == address;
            assert(k == before.len());
            assert(windows[windows.len() - 1].address == address);
        }
        if !window_matched(matched, address) && exists|w: int|
            0 <= w < windows.len() && (#[trigger] windows[w]).address == address && belongs_to(
                windows[w],
                project,
            ) {
            let w = choose|w: int|
                0 <= w < windows.len() && (#[trigger] windows[w]).address == address && belongs_to(
                    windows[w],
                    project,
                );
            if w < front.len() {
                assert(front[w].address == address);
            } else {
                assert(now[before.len() as int] == address);
            }
        }
    }
}

/// A window is left over exactly if it is assigned to the project and no slot
/// adopts it.
pub proof fn law_extras_are_the_rest(
    project: ProjectView,
    windows: Seq<TrackedWindowView>,
    prefix: Seq<char>,
    plan: RestorePlanView,
    w: int,
)
    requires
        ids_distinct(project.apps),
        addresses_distinct(windows),
        restore_plan(project, windows, prefix) == Ok::<RestorePlanView, LaunchPlanErrorView>(plan),
        0 <= w < windows.len(),
    ensures
        plan.extra.contains(windows[w].address) <==> {
            &&& windows[w].assignment matches Some((owner, _)) && owner == project.id
            &&& forall|k: int|
                0 <= k < plan.adopt.len() ==> (#[trigger] plan.adopt[k]).address
                    != windows[w].address
        },
{
    let r = reconciliation(project, windows);
    let address = windows[w].address;
    law_plan_adopts_what_is_matched(project, windows, prefix, plan);
    lemma_left_over(project, windows, r.matched, address);
    if window_matched(r.matched, address) {
        let k = choose|k: int| 0 <= k < r.matched.len() && (#[trigger] r.matched[k]).1 == address;
        assert(plan.adopt[k].address == address);
    } else {
        assert forall|k: int| 0 <= k < plan.adopt.len() implies (
        #[trigger] plan.adopt[k]).address != address by {
            assert(r.matched[k].1 != address);
        }
    }
    assert forall|v: int|
        0 <= v < windows.len() && (#[trigger] windows[v]).address == address implies v == w by {
        if v < w {
            assert(windows[v].address != windows[w].address);
        } else if w < v {
            assert(windows[w].address != windows[v].address);
        }
    }
}

/// In a plan a slot is launched in a later wave than every launched slot that
/// its launch specification names under `after`.
pub proof fn law_plans_wait_for_what_slots_name(
    project: ProjectView,
    windows: Seq<TrackedWindowView>,
    prefix: Seq<char>,
    plan: RestorePlanView,
    i: int,
    j: int,
    a: int,
    x: int,
    b: int,
    y: int,
)
    requires
        restore_plan(project, windows, prefix) == Ok::<RestorePlanView, LaunchPlanErrorView>(plan),
        ids_distinct(project.apps),
        0 <= i < project.apps.len(),
        0 <= j < project.apps.len(),
        project.apps[j].launch is Some,
        project.apps[i].name is Some,
        project.apps[j].launch->0.after.contains(project.apps[i].name->0),
        0 <= a < plan.waves.len(),
        0 <= x < plan.waves[a].len(),
        0 <= b < plan.waves.len(),
        0 <= y < plan.waves[b].len(),
        plan.waves[a][x].slot_id == project.apps[i].slot_id,
        plan.waves[b][y].slot_id == project.apps[j].slot_id,
    ensures
        a < b,
{
    let apps = project.apps;
    let missing = reconciliation(project, windows).missing;
    let waves = schedule(apps)->Ok_0;
    let after = apps[j].launch->0.after;
    let name = apps[i].name->0;
    let d = choose|d: int| 0 <= d < after.len() && after[d] == name;
    lemma_plan_waves_only(apps, missing, waves, a, x);
    lemma_plan_waves_only(apps, missing, waves, b, y);
    law_names_are_slots(apps, waves, i);
    law_plan_honors_dependencies(project, windows, prefix, plan, j, d);
}

/// What a window has in common with a slot adds up: the executable counts most,
/// then the class, then the initial class, then the title. What fits less than
/// a class does claims no slot.
pub proof fn law_what_agrees_adds_up(identity: WindowIdentityView, window: TrackedWindowView)
    ensures
        ({
            let executable = identity.executable is Some && window.facts.executable is Some
                && equal_paths(window.facts.executable->0, identity.executable->0);
            let class = identity.class is Some && lowered(identity.class->0) == lowered(
                window.facts.class,
            );
            let initial = identity.initial_class is Some && lowered(identity.initial_class->0)
                == lowered(window.facts.initial_class);
            let title = identity.title_pattern is Some && regex_search(
                identity.title_pattern->0,
                window.facts.title,
            ) == Some(true);
            let sum = (if executable {
                100int
            } else {
                0
            }) + (if class {
                50int
            } else {
                0
            }) + (if initial {
                40int
            } else {
                0
            }) + (if title {
                10int
            } else {
                0
            });
            &&& fit(identity, window) is Some <==> sum >= 50
            &&& fit(identity, window) is Some ==> fit(identity, window)->0 == sum
        }),
{
}

/// Pairs that score the same go in order: the slot that stands first is served
/// first, with the first of its windows. A pair is scored by the slot's
/// identity and the window, and a service is in none.
pub proof fn law_ties_go_in_order(
    apps: Seq<AppSlotView>,
    windows: Seq<TrackedWindowView>,
    i: int,
    s: int,
    w: int,
)
    requires
        0 <= i < greedy(apps, windows, seq![]).len(),
        0 <= s < apps.len(),
        0 <= w < windows.len(),
        forall|k: int|
            0 <= k < i ==> (#[trigger] greedy(apps, windows, seq![])[k]).0 != s && greedy(
                apps,
                windows,
                seq![],
            )[k].1 != w,
        pair_score(apps, windows, s, w) == pair_score(
            apps,
            windows,
            greedy(apps, windows, seq![])[i].0,
            greedy(apps, windows, seq![])[i].1,
        ),
    ensures
        ({
            let pair = greedy(apps, windows, seq![])[i];
            &&& 0 <= pair.0 < apps.len()
            &&& 0 <= pair.1 < windows.len()
            &&& pair.0 < s || pair.0 == s && pair.1 <= w
            &&& fit(apps[pair.0].identity, windows[pair.1]) is Some
            &&& pair_score(apps, windows, pair.0, pair.1) == fit(
                apps[pair.0].identity,
                windows[pair.1],
            )
            &&& apps[pair.0].launch is Some ==> !apps[pair.0].launch->0.service
        }),
{
    let pairs = greedy(apps, windows, seq![]);
    lemma_greedy_steps(apps, windows, seq![]);
    assert(is_best(apps, windows, pairs.take(i), pairs[i]));
    assert(is_free(pairs.take(i), s, w)) by {
        assert forall|k: int| 0 <= k < pairs.take(i).len() implies (#[trigger] pairs.take(i)[k]).0
            != s && pairs.take(i)[k].1 != w by {
            assert(pairs.take(i)[k] == pairs[k]);
        }
    }
    assert(is_option(apps, windows, pairs.take(i), s, w));
}

} // verus!
