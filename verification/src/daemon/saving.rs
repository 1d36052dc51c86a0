//! `project.save`: the project's windows become its slots. `project.capture`
//! shows them beforehand, and `project.close` closes the windows.
//!
//! A window that satisfies a slot keeps that slot's id, name and launch
//! settings; what is launched, where, and how the window is placed is captured
//! anew. Services have no window and stay as they are.

use vstd::prelude::*;

use crate::daemon::capture::captured_title_pattern;
use crate::daemon::capture::title_pattern_of;
use crate::daemon::commands::find_slot;
use crate::daemon::commands::slot_index;
use crate::daemon::laws::{lemma_id_found, lemma_id_known};
use crate::daemon::requests::Outcome;
use crate::daemon::requests::OutcomeView;
use crate::daemon::state::{find_id, StateActor};
use crate::daemon::state::{id_index, StateView};
use crate::domain::model::{AppSlot, LaunchSpec, Placement, Project, WindowIdentity};
use crate::domain::model::{
    AppSlotView, LaunchSpecView, PlacementView, ProjectView, WindowIdentityView,
};
use crate::domain::restore::reconcile;
use crate::domain::restore::{
    fit, is_service, law_score_ranks, reconciliation, window_views,
};
use crate::domain::search::is_resolvable;
use crate::domain::world::{MonitorInfo, TrackedWindow, WindowFacts};
use crate::domain::world::{
    is_assigned_to, lemma_window_list, window_list, MonitorInfoView, TrackedWindowView,
    WindowFactsView,
};
use crate::hypr::ctl::Dispatch;
use crate::hypr::ctl::DispatchView;
use crate::hypr::model::WindowAddress;
use crate::hypr::model::canonical;
use crate::proto::{ErrorBody, Reply};
use crate::proto::{ErrorBodyView, ReplyView};
use crate::text::{is_empty, same};

verus! {

// ---- what was captured ----------------------------------------------------------------

/// What was found out about a window's program.
#[derive(Debug)]
pub struct Captured {
    /// The window's address.
    pub address: String,
    /// A fresh id for a slot that it may need.
    pub slot_id: u128,
    /// How it is launched, as far as that is known.
    pub launch: Option<LaunchSpec>,
}

/// What a [`Captured`] holds.
#[verifier::ext_equal]
pub struct CapturedView {
    /// See [`Captured::address`].
    pub address: Seq<char>,
    /// See [`Captured::slot_id`].
    pub slot_id: u128,
    /// See [`Captured::launch`].
    pub launch: Option<LaunchSpecView>,
}

impl View for Captured {
    type V = CapturedView;

    open spec fn view(&self) -> CapturedView {
        CapturedView {
            address: self.address@,
            slot_id: self.slot_id,
            launch: self.launch.deep_view(),
        }
    }
}

impl DeepView for Captured {
    type V = CapturedView;

    open spec fn deep_view(&self) -> CapturedView {
        self.view()
    }
}

/// Where something captured of a window stands, from `from` on.
pub open spec fn captured_index(
    captured: Seq<CapturedView>,
    address: Seq<char>,
    from: int,
) -> Option<int>
    decreases captured.len() - from,
{
    if from < 0 || from >= captured.len() {
        None
    } else if captured[from].address == address {
        Some(from)
    } else {
        captured_index(captured, address, from + 1)
    }
}

/// The first slot that a window is matched to, from `from` on.
pub open spec fn matched_slot(
    matched: Seq<(u128, Seq<char>)>,
    address: Seq<char>,
    from: int,
) -> Option<u128>
    decreases matched.len() - from,
{
    if from < 0 || from >= matched.len() {
        None
    } else if matched[from].1 == address {
        Some(matched[from].0)
    } else {
        matched_slot(matched, address, from + 1)
    }
}

// ---- slots ----------------------------------------------------------------------------

/// Whether a window is one of a project: assigned to it, or on its workspace
/// and assigned to none.
pub open spec fn is_saved(
    window: TrackedWindowView,
    project: ProjectView,
    workspace: Seq<char>,
) -> bool {
    is_assigned_to(window, project.id) || (window.assignment is None && window.facts.workspace
        == workspace)
}

/// The windows of a project, in the order of the list.
pub open spec fn saved_windows(
    windows: Seq<TrackedWindowView>,
    project: ProjectView,
    workspace: Seq<char>,
) -> Seq<TrackedWindowView>
    decreases windows.len(),
{
    if windows.len() == 0 {
        seq![]
    } else {
        let before = saved_windows(windows.drop_last(), project, workspace);
        if is_saved(windows.last(), project, workspace) {
            before.push(windows.last())
        } else {
            before
        }
    }
}

/// A text, if there is one.
pub open spec fn unless_empty(text: Seq<char>) -> Option<Seq<char>> {
    if text.len() == 0 {
        None
    } else {
        Some(text)
    }
}

/// How a window is recognised again.
pub open spec fn identity_of(facts: WindowFactsView) -> WindowIdentityView {
    WindowIdentityView {
        class: unless_empty(facts.class),
        initial_class: unless_empty(facts.initial_class),
        executable: facts.executable,
        title_pattern: title_pattern_of(facts),
    }
}

/// The name of the first monitor with the id, from `from` on.
pub open spec fn monitor_name(monitors: Seq<MonitorInfoView>, id: i64, from: int) -> Option<
    Seq<char>,
>
    decreases monitors.len() - from,
{
    if from < 0 || from >= monitors.len() {
        None
    } else if monitors[from].id == id {
        Some(monitors[from].name)
    } else {
        monitor_name(monitors, id, from + 1)
    }
}

/// How a window is placed.
pub open spec fn placement_of(
    facts: WindowFactsView,
    monitors: Seq<MonitorInfoView>,
) -> PlacementView {
    PlacementView {
        floating: facts.floating,
        position: Some(facts.at),
        size: Some(facts.size),
        fullscreen: facts.fullscreen,
        monitor: monitor_name(monitors, facts.monitor, 0),
    }
}

/// The launch settings after a capture: command, arguments and directory are
/// those captured, the rest stays.
pub open spec fn recaptured(
    kept: Option<LaunchSpecView>,
    captured: Option<LaunchSpecView>,
) -> Option<LaunchSpecView> {
    match (kept, captured) {
        (Some(old), Some(new)) => Some(
            LaunchSpecView { command: new.command, args: new.args, workdir: new.workdir, ..old },
        ),
        (None, new) => new,
        (old, None) => old,
    }
}

/// The slot of a window, given the one that it satisfies, if any.
pub open spec fn slot_for(
    window: TrackedWindowView,
    monitors: Seq<MonitorInfoView>,
    captured: CapturedView,
    kept: Option<AppSlotView>,
) -> AppSlotView {
    AppSlotView {
        slot_id: match kept {
            Some(slot) => slot.slot_id,
            None => captured.slot_id,
        },
        name: match kept {
            Some(slot) => slot.name,
            None => None,
        },
        identity: identity_of(window.facts),
        launch: recaptured(
            match kept {
                Some(slot) => slot.launch,
                None => None,
            },
            captured.launch,
        ),
        group: match window.assignment {
            Some((_, group)) => group,
            None => None,
        },
        placement: placement_of(window.facts, monitors),
    }
}

/// The slot of a project that a window satisfies, if any.
pub open spec fn kept_slot(
    project: ProjectView,
    matched: Seq<(u128, Seq<char>)>,
    address: Seq<char>,
) -> Option<AppSlotView> {
    match matched_slot(matched, address, 0) {
        Some(id) => match slot_index(project.apps, id, 0) {
            Some(k) => Some(project.apps[k]),
            None => None,
        },
        None => None,
    }
}

/// The slots of windows, in their order; a window of which nothing was captured
/// has none.
pub open spec fn window_slots(
    windows: Seq<TrackedWindowView>,
    project: ProjectView,
    matched: Seq<(u128, Seq<char>)>,
    monitors: Seq<MonitorInfoView>,
    captured: Seq<CapturedView>,
) -> Seq<AppSlotView>
    decreases windows.len(),
{
    if windows.len() == 0 {
        seq![]
    } else {
        let before = window_slots(windows.drop_last(), project, matched, monitors, captured);
        let window = windows.last();
        match captured_index(captured, window.address, 0) {
            Some(c) => before.push(
                slot_for(
                    window,
                    monitors,
                    captured[c],
                    kept_slot(project, matched, window.address),
                ),
            ),
            None => before,
        }
    }
}

/// The services among slots.
pub open spec fn services(apps: Seq<AppSlotView>) -> Seq<AppSlotView>
    decreases apps.len(),
{
    if apps.len() == 0 {
        seq![]
    } else {
        let before = services(apps.drop_last());
        if is_service(apps.last()) {
            before.push(apps.last())
        } else {
            before
        }
    }
}

/// The dispatches that ask windows to close.
pub open spec fn closing(windows: Seq<TrackedWindowView>) -> Seq<DispatchView> {
    Seq::new(
        windows.len(),
        |i: int| DispatchView::CloseWindow(canonical(windows[i].address)),
    )
}

impl StateView {
    /// Where the project to save stands.
    pub open spec fn save_place(self, query: Option<Seq<char>>) -> Result<int, ErrorBodyView> {
        match self.resolved_or_active(query) {
            Err(error) => Err(error),
            Ok(project) => Ok(id_index(self.projects, project.id, 0)->0),
        }
    }

    /// The windows of a project.
    pub open spec fn windows_of(self, project: ProjectView) -> Seq<TrackedWindowView> {
        saved_windows(
            window_list(self.world.windows),
            project,
            self.workspace_of(project.slug),
        )
    }

    /// The slots that the windows of a project have.
    pub open spec fn slots_now(self, project: ProjectView, captured: Seq<CapturedView>) -> Seq<
        AppSlotView,
    > {
        let windows = self.windows_of(project);
        window_slots(
            windows,
            project,
            reconciliation(project, windows).matched,
            self.world.monitors,
            captured,
        )
    }

    /// `project.capture`: the slots that saving would make, nothing more.
    pub open spec fn previewed(self, query: Option<Seq<char>>, captured: Seq<CapturedView>) -> OutcomeView {
        match self.save_place(query) {
            Err(error) => OutcomeView::Reply(Err(error)),
            Ok(i) => OutcomeView::Reply(
                Ok(
                    ReplyView::Preview {
                        project: self.projects[i].slug,
                        apps: self.slots_now(self.projects[i], captured),
                    },
                ),
            ),
        }
    }

    /// `project.close`: every window of the project is asked to close.
    pub open spec fn closed(self, query: Option<Seq<char>>) -> OutcomeView {
        match self.save_place(query) {
            Err(error) => OutcomeView::Reply(Err(error)),
            Ok(i) => {
                let windows = self.windows_of(self.projects[i]);
                OutcomeView::DispatchThen {
                    dispatches: closing(windows),
                    result: ReplyView::Closed {
                        project: self.projects[i].slug,
                        windows: windows.len() as usize,
                    },
                }
            },
        }
    }

    /// A project with its windows as slots.
    pub open spec fn with_slots(self, project: ProjectView, captured: Seq<CapturedView>) -> ProjectView {
        ProjectView {
            apps: services(project.apps) + self.slots_now(project, captured),
            ..project
        }
    }

    /// `project.save`.
    pub open spec fn saved(self, query: Option<Seq<char>>, captured: Seq<CapturedView>) -> (
        StateView,
        OutcomeView,
    ) {
        match self.save_place(query) {
            Err(error) => (self, OutcomeView::Reply(Err(error))),
            Ok(i) => {
                let project = self.with_slots(self.projects[i], captured);
                (
                    StateView { projects: self.projects.update(i, project), ..self },
                    OutcomeView::Reply(
                        Ok(
                            ReplyView::Saved {
                                project: project.slug,
                                slots: project.apps.len() as usize,
                            },
                        ),
                    ),
                )
            },
        }
    }
}

// ---- carrying it out ------------------------------------------------------------------

fn find_captured(captured: &Vec<Captured>, address: &str) -> (r: Option<usize>)
    ensures
        match (r, captured_index(captured.deep_view(), address@, 0)) {
            (Some(i), Some(j)) => i == j && i < captured.len(),
            (None, None) => true,
            _ => false,
        },
{
    let ghost views = captured.deep_view();
    let mut i: usize = 0;
    while i < captured.len()
        invariant
            i <= captured.len(),
            views == captured.deep_view(),
            captured_index(views, address@, 0) == captured_index(views, address@, i as int),
        decreases captured.len() - i,
    {
        assert(views[i as int] == captured@[i as int]@);
        if same(captured[i].address.as_str(), address) {
            return Some(i);
        }
        i = i + 1;
    }
    None
}

fn find_matched(matched: &Vec<(u128, String)>, address: &str) -> (r: Option<u128>)
    ensures
        r == matched_slot(matched.deep_view(), address@, 0),
{
    let ghost views = matched.deep_view();
    let mut i: usize = 0;
    while i < matched.len()
        invariant
            i <= matched.len(),
            views == matched.deep_view(),
            matched_slot(views, address@, 0) == matched_slot(views, address@, i as int),
        decreases matched.len() - i,
    {
        assert(views[i as int] == (matched@[i as int].0, matched@[i as int].1@));
        if same(matched[i].1.as_str(), address) {
            return Some(matched[i].0);
        }
        i = i + 1;
    }
    None
}

fn windows_among<'a>(windows: &'a Vec<TrackedWindow>, project: &Project, workspace: &str) -> (r: Vec<
    &'a TrackedWindow,
>)
    ensures
        window_views(r@) == saved_windows(windows.deep_view(), project@, workspace@),
{
    let ghost all = windows.deep_view();
    let mut out: Vec<&TrackedWindow> = Vec::new();
    let mut i: usize = 0;
    assert(all.take(0) =~= seq![]);
    assert(window_views(out@) =~= seq![]);
    while i < windows.len()
        invariant
            i <= windows.len(),
            all == windows.deep_view(),
            window_views(out@) == saved_windows(all.take(i as int), project@, workspace@),
        decreases windows.len() - i,
    {
        let window = &windows[i];
        assert(all.take(i + 1).drop_last() =~= all.take(i as int));
        assert(all[i as int] == window@);
        let fits = match &window.assignment {
            None => same(window.facts.workspace.as_str(), workspace),
            Some((id, _)) => *id == project.id,
        };
        assert(fits == is_saved(window@, project@, workspace@));
        if fits {
            let ghost before = window_views(out@);
            out.push(window);
            assert(window_views(out@) =~= before.push(window@));
        }
        i = i + 1;
    }
    assert(all.take(i as int) =~= all);
    out
}

fn shown(text: &String) -> (r: Option<String>)
    ensures
        r.deep_view() == unless_empty(text@),
{
    if is_empty(text.as_str()) {
        None
    } else {
        Some(text.clone())
    }
}

fn find_monitor(monitors: &Vec<MonitorInfo>, id: i64) -> (r: Option<String>)
    ensures
        r.deep_view() == monitor_name(monitors.deep_view(), id, 0),
{
    let ghost views = monitors.deep_view();
    let mut i: usize = 0;
    while i < monitors.len()
        invariant
            i <= monitors.len(),
            views == monitors.deep_view(),
            monitor_name(views, id, 0) == monitor_name(views, id, i as int),
        decreases monitors.len() - i,
    {
        assert(views[i as int] == monitors@[i as int]@);
        if monitors[i].id == id {
            return Some(monitors[i].name.clone());
        }
        i = i + 1;
    }
    None
}

fn identify(facts: &WindowFacts) -> (r: WindowIdentity)
    ensures
        r@ == identity_of(facts@),
{
    WindowIdentity {
        class: shown(&facts.class),
        initial_class: shown(&facts.initial_class),
        executable: facts.executable.clone(),
        title_pattern: captured_title_pattern(facts),
    }
}

fn recapture(kept: Option<LaunchSpec>, captured: Option<LaunchSpec>) -> (r: Option<LaunchSpec>)
    ensures
        r.deep_view() == recaptured(kept.deep_view(), captured.deep_view()),
{
    match (kept, captured) {
        (Some(old), Some(new)) => {
            let spec = LaunchSpec {
                command: new.command,
                args: new.args,
                workdir: new.workdir,
                ..old
            };
            assert(spec@ =~= (LaunchSpecView {
                command: new@.command,
                args: new@.args,
                workdir: new@.workdir,
                ..old@
            }));
            Some(spec)
        },
        (None, new) => new,
        (old, None) => old,
    }
}

fn slot_of(
    window: &TrackedWindow,
    monitors: &Vec<MonitorInfo>,
    captured: &Captured,
    kept: Option<AppSlot>,
) -> (r: AppSlot)
    ensures
        r@ == slot_for(window@, monitors.deep_view(), captured@, kept.deep_view()),
{
    let facts = &window.facts;
    let (slot_id, name, launch) = match kept {
        Some(slot) => (slot.slot_id, slot.name, slot.launch),
        None => (captured.slot_id, None, None),
    };
    let group = match &window.assignment {
        Some((_, group)) => group.clone(),
        None => None,
    };
    let placement = Placement {
        floating: facts.floating,
        position: Some(facts.at),
        size: Some(facts.size),
        fullscreen: facts.fullscreen,
        monitor: find_monitor(monitors, facts.monitor),
    };
    AppSlot {
        slot_id,
        name,
        identity: identify(facts),
        launch: recapture(launch, captured.launch.clone()),
        group,
        placement,
    }
}

fn services_in(apps: &Vec<AppSlot>) -> (r: Vec<AppSlot>)
    ensures
        r.deep_view() == services(apps.deep_view()),
{
    let ghost views = apps.deep_view();
    let mut out: Vec<AppSlot> = Vec::new();
    let mut i: usize = 0;
    assert(views.take(0) =~= seq![]);
    assert(out.deep_view() =~= seq![]);
    while i < apps.len()
        invariant
            i <= apps.len(),
            views == apps.deep_view(),
            out.deep_view() == services(views.take(i as int)),
        decreases apps.len() - i,
    {
        assert(views.take(i + 1).drop_last() =~= views.take(i as int));
        assert(views[i as int] == apps@[i as int]@);
        let serves = match &apps[i].launch {
            Some(spec) => spec.service,
            None => false,
        };
        if serves {
            let ghost before = out.deep_view();
            out.push(apps[i].clone());
            assert(out.deep_view() =~= before.push(views[i as int]));
        }
        i = i + 1;
    }
    assert(views.take(i as int) =~= views);
    out
}

fn slots_of_windows(
    windows: &Vec<&TrackedWindow>,
    project: &Project,
    matched: &Vec<(u128, String)>,
    monitors: &Vec<MonitorInfo>,
    captured: &Vec<Captured>,
) -> (r: Vec<AppSlot>)
    ensures
        r.deep_view() == window_slots(
            window_views(windows@),
            project@,
            matched.deep_view(),
            monitors.deep_view(),
            captured.deep_view(),
        ),
{
    let ghost views = window_views(windows@);
    let ghost pairs = matched.deep_view();
    let ghost all = captured.deep_view();
    let mut out: Vec<AppSlot> = Vec::new();
    let mut i: usize = 0;
    assert(views.take(0) =~= seq![]);
    assert(out.deep_view() =~= seq![]);
    while i < windows.len()
        invariant
            i <= windows.len(),
            views == window_views(windows@),
            pairs == matched.deep_view(),
            all == captured.deep_view(),
            out.deep_view() == window_slots(
                views.take(i as int),
                project@,
                pairs,
                monitors.deep_view(),
                all,
            ),
        decreases windows.len() - i,
    {
        let window = windows[i];
        assert(views.take(i + 1).drop_last() =~= views.take(i as int));
        assert(views[i as int] == window@);
        if let Some(c) = find_captured(captured, window.address.as_str()) {
            assert(all[c as int] == captured@[c as int]@);
            let mut kept: Option<AppSlot> = None;
            if let Some(id) = find_matched(matched, window.address.as_str()) {
                if let Some(k) = find_slot(project, id) {
                    assert(project@.apps[k as int] == project.apps@[k as int]@);
                    kept = Some(project.apps[k].clone());
                }
            }
            assert(kept.deep_view() == kept_slot(project@, pairs, window@.address));
            let ghost before = out.deep_view();
            let slot = slot_of(window, monitors, &captured[c], kept);
            out.push(slot);
            assert(out.deep_view() =~= before.push(slot@));
        }
        i = i + 1;
    }
    assert(views.take(i as int) =~= views);
    out
}

impl StateActor {
    fn find_save_place(&self, query: &Option<String>) -> (r: Result<usize, ErrorBody>)
        requires
            query matches Some(query) ==> is_resolvable(query@, self@.projects),
        ensures
            match (r, self@.save_place(query.deep_view())) {
                (Ok(i), Ok(j)) => i == j && i < self.projects.len(),
                (Err(error), Err(expected)) => error@ == expected,
                _ => false,
            },
    {
        match self.resolve_or_active(query) {
            Ok(project) => {
                proof {
                    let k = choose|k: int|
                        0 <= k < self@.projects.len() && self@.projects[k] == project@;
                    lemma_id_known(self@.projects, k, 0);
                    lemma_id_found(self@.projects, project@.id, 0);
                }
                match find_id(&self.projects, project.id) {
                    Some(i) => Ok(i),
                    None => Ok(0),
                }
            },
            Err(error) => Err(error),
        }
    }

    /// The name of the project that `project.save` means, and its windows: what
    /// has to be captured.
    pub fn save_targets(&self, query: &Option<String>) -> (r: Option<(String, Vec<TrackedWindow>)>)
        requires
            query matches Some(query) ==> is_resolvable(query@, self@.projects),
        ensures
            match (r, self@.save_place(query.deep_view())) {
                (Some((name, windows)), Ok(i)) => name@ == self@.projects[i].name
                    && windows.deep_view() == self@.windows_of(self@.projects[i]),
                (None, Err(_)) => true,
                _ => false,
            },
    {
        match self.find_save_place(query) {
            Err(_) => None,
            Ok(i) => {
                assert(self@.projects[i as int] == self.projects@[i as int]@);
                let project = &self.projects[i];
                let windows = self.world.windows.sorted();
                proof {
                    lemma_window_list(
                        self@.world.windows,
                        windows.deep_view(),
                        windows.deep_view(),
                    );
                }
                let workspace = self.ws_name(&project.slug);
                let found = windows_among(&windows, project, workspace.as_str());
                let ghost views = window_views(found@);
                let mut out: Vec<TrackedWindow> = Vec::new();
                let mut k: usize = 0;
                while k < found.len()
                    invariant
                        k <= found.len(),
                        views == window_views(found@),
                        out.len() == k,
                        forall|n: int| 0 <= n < k ==> (#[trigger] out@[n])@ == views[n],
                    decreases found.len() - k,
                {
                    assert(views[k as int] == found@[k as int]@);
                    out.push(found[k].clone());
                    k = k + 1;
                }
                assert(out.deep_view() =~= views);
                Some((project.name.clone(), out))
            },
        }
    }

    fn current_slots(&self, project: &Project, captured: &Vec<Captured>) -> (r: Vec<AppSlot>)
        ensures
            r.deep_view() == self@.slots_now(project@, captured.deep_view()),
    {
        let windows = self.world.windows.sorted();
        proof {
            lemma_window_list(self@.world.windows, windows.deep_view(), windows.deep_view());
        }
        let workspace = self.ws_name(&project.slug);
        let found = windows_among(&windows, project, workspace.as_str());
        let reconciled = reconcile(project, found.as_slice());
        slots_of_windows(
            &found,
            project,
            &reconciled.matched,
            &self.world.monitors,
            captured,
        )
    }

    pub(crate) fn project_capture(&self, query: &Option<String>, captured: &Vec<Captured>) -> (r:
        Outcome)
        requires
            query matches Some(query) ==> is_resolvable(query@, self@.projects),
        ensures
            r@ == self@.previewed(query.deep_view(), captured.deep_view()),
    {
        match self.find_save_place(query) {
            Err(error) => Outcome::Reply(Err(error)),
            Ok(i) => {
                assert(self@.projects[i as int] == self.projects@[i as int]@);
                let project = &self.projects[i];
                Outcome::Reply(
                    Ok(
                        Reply::Preview {
                            project: project.slug.clone(),
                            apps: self.current_slots(project, captured),
                        },
                    ),
                )
            },
        }
    }

    pub(crate) fn project_close(&self, query: &Option<String>) -> (r: Outcome)
        requires
            query matches Some(query) ==> is_resolvable(query@, self@.projects),
        ensures
            r@ == self@.closed(query.deep_view()),
    {
        let i: usize = match self.find_save_place(query) {
            Ok(i) => i,
            Err(error) => {
                return Outcome::Reply(Err(error));
            },
        };
        assert(self@.projects[i as int] == self.projects@[i as int]@);
        let project = &self.projects[i];
        let windows = self.world.windows.sorted();
        proof {
            lemma_window_list(self@.world.windows, windows.deep_view(), windows.deep_view());
        }
        let workspace = self.ws_name(&project.slug);
        let found = windows_among(&windows, project, workspace.as_str());
        let ghost views = window_views(found@);
        let mut dispatches: Vec<Dispatch> = Vec::new();
        let mut k: usize = 0;
        while k < found.len()
            invariant
                k <= found.len(),
                views == window_views(found@),
                dispatches.len() == k,
                forall|n: int| 0 <= n < k ==> (#[trigger] dispatches@[n])@ == closing(views)[n],
            decreases found.len() - k,
        {
            assert(views[k as int] == found@[k as int]@);
            dispatches.push(Dispatch::CloseWindow(WindowAddress::new(found[k].address.as_str())));
            k = k + 1;
        }
        assert(dispatches.deep_view() =~= closing(views));
        Outcome::DispatchThen {
            dispatches,
            result: Reply::Closed { project: project.slug.clone(), windows: found.len() },
        }
    }

    pub(crate) fn project_save(&mut self, query: &Option<String>, captured: &Vec<Captured>) -> (r:
        Outcome)
        requires
            query matches Some(query) ==> is_resolvable(query@, old(self)@.projects),
        ensures
            (final(self)@, r@) == old(self)@.saved(query.deep_view(), captured.deep_view()),
    {
        let i: usize = match self.find_save_place(query) {
            Ok(i) => i,
            Err(error) => {
                return Outcome::Reply(Err(error));
            },
        };
        let ghost before = self.projects.deep_view();
        let mut project = self.projects[i].clone();
        assert(project@ == before[i as int]);
        let mut slots = self.current_slots(&project, captured);
        let mut apps = services_in(&project.apps);
        let ghost first = apps.deep_view();
        let ghost second = slots.deep_view();
        apps.append(&mut slots);
        assert(apps.deep_view() =~= first + second);
        let count: usize = apps.len();
        project.apps = apps;
        assert(project@ =~= self@.with_slots(before[i as int], captured.deep_view()));
        let slug = project.slug.clone();
        self.projects.set(i, project);
        assert(self.projects.deep_view() =~= before.update(i as int, project@));
        Outcome::Reply(Ok(Reply::Saved { project: slug, slots: count }))
    }
}

// ---- laws -----------------------------------------------------------------------------

/// A saved window is recognised by its slot: its class is enough.
pub proof fn law_saved_windows_are_recognised(window: TrackedWindowView)
    requires
        window.facts.class.len() > 0,
    ensures
        fit(identity_of(window.facts), window) is Some,
{
    law_score_ranks(identity_of(window.facts), window);
}

/// Saving takes no service away: they come first, in their order.
pub proof fn law_services_are_kept(
    state: StateView,
    project: ProjectView,
    captured: Seq<CapturedView>,
)
    ensures
        ({
            let kept = services(project.apps);
            state.with_slots(project, captured).apps.take(kept.len() as int) == kept
        }),
{
    let kept = services(project.apps);
    assert(state.with_slots(project, captured).apps.take(kept.len() as int) =~= kept);
}

} // verus!
