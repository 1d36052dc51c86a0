//! What compositor events, fresh facts and the tasks around the daemon do to
//! its state, told field by field.

use vstd::prelude::*;

use crate::daemon::commands::{Command, Effect};
use crate::daemon::state::{id_index, slug_index, StateView};
use crate::domain::config::RuleAction;
use crate::domain::events::DomainEventView;
use crate::domain::model::is_slug;
use crate::domain::rules::{law_first_match_wins, matching, CompiledRuleView};
use crate::domain::world::{
    other_monitors, AssignmentSourceView, MonitorInfoView, TrackedWindowView, WindowFactsView,
    WorkspaceInfoView, WorldView,
};
use crate::domain::ws_names::{
    group_name, is_special, law_group_name_reads_back, law_meaning_is_exact,
    law_project_name_reads_back, meaning, project_name, ParsedNameView,
};
use crate::hypr::ctl::{DispatchView, WsTargetView};
use crate::hypr::events::{HyprEvent, HyprEventView};
use crate::hypr::model::canonical;
use crate::numbers::all_digits;

verus! {

// ---- what stays --------------------------------------------------------------------------

/// Whether what the daemon was started with is as before: projects, rules and
/// settings.
pub open spec fn settings_stay(before: StateView, after: StateView) -> bool {
    &&& after.projects == before.projects
    &&& after.config == before.config
    &&& after.registry == before.registry
    &&& after.rules == before.rules
    &&& after.config_dir == before.config_dir
    &&& after.version == before.version
    &&& after.update == before.update
}

/// Whether every window but that at the address is as before.
pub open spec fn other_windows_stay(
    before: StateView,
    after: StateView,
    address: Seq<char>,
) -> bool {
    forall|a: Seq<char>|
        a != address ==> (#[trigger] after.world.windows.dom().contains(a)
            <==> before.world.windows.dom().contains(a)) && (after.world.windows.dom().contains(a)
            ==> after.world.windows[a] == before.world.windows[a])
}

/// Whether workspaces, monitors, the active project and the connection are as
/// before.
pub open spec fn surroundings_stay(before: StateView, after: StateView) -> bool {
    &&& after.world.workspaces == before.world.workspaces
    &&& after.world.monitors == before.world.monitors
    &&& after.world.focused_workspace == before.world.focused_workspace
    &&& after.world.active_project == before.world.active_project
    &&& after.world.hypr_connected == before.world.hypr_connected
}

/// Whether one event was announced, under the next number.
pub open spec fn announces(before: StateView, after: StateView, event: DomainEventView) -> bool {
    &&& after.outbox.len() == before.outbox.len() + 1
    &&& after.outbox.drop_last() == before.outbox
    &&& after.outbox.last().data == event
    &&& after.outbox.last().seq == after.seq
    &&& before.seq < u64::MAX ==> after.seq == before.seq + 1
}

/// Whether nothing was announced.
pub open spec fn is_silent(before: StateView, after: StateView) -> bool {
    after.outbox == before.outbox && after.seq == before.seq
}

// ---- windows -----------------------------------------------------------------------------

/// A window that opens is there under its address, with the class and the
/// title it opened with, on the workspace it opened on. A window that was
/// there already keeps its assignment; a new one has none.
pub proof fn law_opened_windows_are_there(
    state: StateView,
    event: HyprEvent,
    after: StateView,
    effect: Effect,
    address: Seq<char>,
    workspace: Seq<char>,
    class: Seq<char>,
    title: Seq<char>,
)
    requires
        event@ == (HyprEventView::OpenWindow { address, workspace, class, title }),
        state.leads_to(Command::Hypr(event), after, effect),
    ensures
        after.world.windows.dom().contains(address),
        ({
            let window = after.world.windows[address];
            &&& window.facts.class == class
            &&& window.facts.initial_class == class
            &&& window.facts.title == title
            &&& window.facts.initial_title == title
            &&& window.facts.workspace == workspace
            &&& (forall|id: i64| #[trigger]
                state.world.workspaces.dom().contains(id) ==> state.world.workspaces[id].name
                    != workspace) ==> window.facts.workspace_id == 0
            &&& (exists|id: i64| #[trigger]
                state.world.workspaces.dom().contains(id) && state.world.workspaces[id].name
                    == workspace) ==> state.world.workspaces.dom().contains(
                window.facts.workspace_id,
            ) && state.world.workspaces[window.facts.workspace_id].name == workspace
            &&& !window.facts.floating && !window.facts.pinned && window.facts.fullscreen == 0
            &&& window.facts.executable is None && window.facts.pid == 0
            &&& if state.world.windows.dom().contains(address) {
                &&& window.assignment == state.world.windows[address].assignment
                &&& window.assigned_by == state.world.windows[address].assigned_by
                &&& window.stable_id == state.world.windows[address].stable_id
                &&& window.address == state.world.windows[address].address
            } else {
                &&& window.assignment is None
                &&& window.assigned_by is None
                &&& window.stable_id is None
                &&& window.address == address
            }
        }),
        other_windows_stay(state, after, address),
        surroundings_stay(state, after),
        settings_stay(state, after),
        after.world.focused_window == state.world.focused_window,
        announces(
            state,
            after,
            DomainEventView::WindowOpened { address, class, title, workspace },
        ),
        effect is Nothing,
{
    assert(after.outbox.drop_last() =~= state.outbox);
}

/// A window that closes is gone, and with it its focus; nothing else is.
pub proof fn law_closed_windows_are_dropped(
    state: StateView,
    event: HyprEvent,
    after: StateView,
    effect: Effect,
    address: Seq<char>,
)
    requires
        event@ == (HyprEventView::CloseWindow { address }),
        state.leads_to(Command::Hypr(event), after, effect),
    ensures
        !after.world.windows.dom().contains(address),
        state.world.windows.dom().contains(address) ==> after.world.focused_window != Some(
            address,
        ) && announces(state, after, DomainEventView::WindowClosed { address }),
        state.world.focused_window != Some(address) ==> after.world.focused_window
            == state.world.focused_window,
        !state.world.windows.dom().contains(address) ==> after == state,
        other_windows_stay(state, after, address),
        surroundings_stay(state, after),
        settings_stay(state, after),
        effect is Nothing,
{
    if state.world.windows.dom().contains(address) {
        assert(after.outbox.drop_last() =~= state.outbox);
    }
}

/// A tracked window that is moved is on the workspace that the event names,
/// under its id; all else that is known of it stays.
pub proof fn law_moved_windows_are_elsewhere(
    state: StateView,
    event: HyprEvent,
    after: StateView,
    effect: Effect,
    address: Seq<char>,
    workspace_id: i64,
    workspace: Seq<char>,
)
    requires
        event@ == (HyprEventView::MoveWindow { address, workspace_id, workspace }),
        state.leads_to(Command::Hypr(event), after, effect),
    ensures
        after.world.windows.dom() == state.world.windows.dom(),
        state.world.windows.dom().contains(address) ==> {
            let had = state.world.windows[address];
            let has = after.world.windows[address];
            &&& has.facts.workspace == workspace
            &&& has.facts.workspace_id == workspace_id
            &&& has.facts == (WindowFactsView { workspace, workspace_id, ..had.facts })
            &&& has == (TrackedWindowView { facts: has.facts, ..had })
        },
        other_windows_stay(state, after, address),
        surroundings_stay(state, after),
        settings_stay(state, after),
        after.world.focused_window == state.world.focused_window,
        announces(state, after, DomainEventView::WindowMoved { address, workspace }),
        effect is Nothing,
{
    assert(after.outbox.drop_last() =~= state.outbox);
    assert(after.world.windows.dom() =~= state.world.windows.dom());
}

/// A tracked window whose title changes has the new title; all else that is
/// known of it stays.
pub proof fn law_titles_follow_events(
    state: StateView,
    event: HyprEvent,
    after: StateView,
    effect: Effect,
    address: Seq<char>,
    title: Seq<char>,
)
    requires
        event@ == (HyprEventView::WindowTitle { address, title }),
        state.leads_to(Command::Hypr(event), after, effect),
    ensures
        after.world.windows.dom() == state.world.windows.dom(),
        state.world.windows.dom().contains(address) ==> {
            let had = state.world.windows[address];
            let has = after.world.windows[address];
            &&& has.facts.title == title
            &&& has.facts == (WindowFactsView { title, ..had.facts })
            &&& has == (TrackedWindowView { facts: has.facts, ..had })
        },
        other_windows_stay(state, after, address),
        surroundings_stay(state, after),
        settings_stay(state, after),
        after.world.focused_window == state.world.focused_window,
        announces(state, after, DomainEventView::WindowTitleChanged { address, title }),
        effect is Nothing,
{
    assert(after.outbox.drop_last() =~= state.outbox);
    assert(after.world.windows.dom() =~= state.world.windows.dom());
}

/// A tracked window floats or is tiled as the last event about it says, and is
/// pinned or not as the last event about that says; all else stays.
pub proof fn law_window_modes_follow_events(
    state: StateView,
    event: HyprEvent,
    after: StateView,
    effect: Effect,
    address: Seq<char>,
    on: bool,
)
    requires
        event@ == (HyprEventView::ChangeFloatingMode { address, floating: on }) || event@ == (
        HyprEventView::Pin { address, pinned: on }),
        state.leads_to(Command::Hypr(event), after, effect),
    ensures
        after.world.windows.dom() == state.world.windows.dom(),
        state.world.windows.dom().contains(address) ==> {
            let had = state.world.windows[address];
            let has = after.world.windows[address];
            &&& event@ is ChangeFloatingMode ==> has.facts.floating == on && has.facts == (
            WindowFactsView { floating: on, ..had.facts })
            &&& event@ is Pin ==> has.facts.pinned == on && has.facts == (WindowFactsView {
                pinned: on,
                ..had.facts
            })
            &&& has == (TrackedWindowView { facts: has.facts, ..had })
        },
        other_windows_stay(state, after, address),
        surroundings_stay(state, after),
        settings_stay(state, after),
        after.world.focused_window == state.world.focused_window,
        is_silent(state, after),
        effect is Nothing,
{
    assert(after.world.windows.dom() =~= state.world.windows.dom());
}

/// The focused window is the one that the last focus event names, and it is
/// the focused window whose fullscreen state an event sets.
pub proof fn law_focus_follows_events(
    state: StateView,
    event: HyprEvent,
    after: StateView,
    effect: Effect,
)
    requires
        event@ is ActiveWindow || event@ is Fullscreen,
        state.leads_to(Command::Hypr(event), after, effect),
    ensures
        event@ matches HyprEventView::ActiveWindow { address } ==> {
            &&& after.world.focused_window == address
            &&& after.world.windows == state.world.windows
            &&& announces(state, after, DomainEventView::WindowFocused { address })
        },
        event@ matches HyprEventView::Fullscreen { active } ==> {
            &&& after.world.focused_window == state.world.focused_window
            &&& after.world.windows.dom() == state.world.windows.dom()
            &&& state.world.focused_window is Some && state.world.windows.dom().contains(
                state.world.focused_window->0,
            ) ==> {
                let address = state.world.focused_window->0;
                let had = state.world.windows[address];
                let has = after.world.windows[address];
                &&& active ==> has.facts == (WindowFactsView { fullscreen: 2, ..had.facts })
                &&& !active ==> has.facts == (WindowFactsView { fullscreen: 0, ..had.facts })
                &&& has == (TrackedWindowView { facts: has.facts, ..had })
                &&& other_windows_stay(state, after, address)
            }
            &&& state.world.focused_window is None ==> after.world.windows == state.world.windows
            &&& is_silent(state, after)
        },
        surroundings_stay(state, after),
        settings_stay(state, after),
        effect is Nothing,
{
    if event@ is ActiveWindow {
        assert(after.outbox.drop_last() =~= state.outbox);
    } else {
        assert(after.world.windows.dom() =~= state.world.windows.dom());
    }
}

// ---- workspaces and monitors --------------------------------------------------------------

/// The workspace that the user goes to is the focused one and is known from
/// then on; the windows stay as they are.
pub proof fn law_workspace_focus_follows_events(
    state: StateView,
    event: HyprEvent,
    after: StateView,
    effect: Effect,
    id: i64,
    name: Seq<char>,
)
    requires
        event@ == (HyprEventView::Workspace { id, name }),
        state.leads_to(Command::Hypr(event), after, effect),
    ensures
        after.world.focused_workspace == Some(name),
        after.world.workspaces.dom().contains(id),
        !state.world.workspaces.dom().contains(id) ==> after.world.workspaces[id].name == name
            && after.world.workspaces[id].id == id,
        forall|other: i64| #[trigger]
            state.world.workspaces.dom().contains(other)
                ==> after.world.workspaces.dom().contains(other) && after.world.workspaces[other]
                == state.world.workspaces[other],
        after.world.windows == state.world.windows,
        after.world.monitors == state.world.monitors,
        after.world.focused_window == state.world.focused_window,
        settings_stay(state, after),
        after.outbox.len() > state.outbox.len(),
        after.outbox.last().data == (DomainEventView::WorkspaceChanged { id, name }),
        after.world.active_project == state.world.active_project ==> after.outbox.len()
            == state.outbox.len() + 1,
        effect is Nothing,
{
}

/// Going to the workspace of a project, or to one of its parking workspaces,
/// makes it the active project, which is announced if it was not.
pub proof fn law_active_project_follows_the_user(
    state: StateView,
    event: HyprEvent,
    after: StateView,
    effect: Effect,
    id: i64,
    name: Seq<char>,
    i: int,
    group: Seq<char>,
)
    requires
        event@ == (HyprEventView::Workspace { id, name }),
        state.leads_to(Command::Hypr(event), after, effect),
        0 <= i < state.projects.len(),
        is_slug(state.projects[i].slug),
        forall|j: int|
            0 <= j < i ==> (#[trigger] state.projects[j]).slug != state.projects[i].slug,
        ({
            let own = state.config.general.workspace_prefix + state.projects[i].slug;
            ||| name == own && !all_digits(name)
            ||| name == own + seq![':'] + group && is_slug(group)
        }),
        !is_special(name),
    ensures
        after.world.active_project == Some(state.projects[i].id),
        state.world.active_project != Some(state.projects[i].id) && (forall|j: int|
            0 <= j < i ==> (#[trigger] state.projects[j]).id != state.projects[i].id) ==> {
            &&& after.outbox.len() == state.outbox.len() + 2
            &&& after.outbox[state.outbox.len() as int].data == (DomainEventView::ProjectSwitched {
                slug: Some(state.projects[i].slug),
            })
        },
{
    let prefix = state.config.general.workspace_prefix;
    let slug = state.projects[i].slug;
    lemma_project_with(state, slug, i, 0);
    if name == project_name(prefix, slug) && !all_digits(name) {
        law_project_name_reads_back(prefix, slug);
    } else {
        assert(name =~= group_name(prefix, slug, group));
        law_group_name_reads_back(prefix, slug, group);
    }
    assert(state.owner_of(name) == Some(i));
    if forall|j: int| 0 <= j < i ==> (#[trigger] state.projects[j]).id != state.projects[i].id {
        lemma_project_by_id(state, i, 0);
    }
}

/// Going to a workspace that is no project's leaves no project active.
pub proof fn law_foreign_workspaces_leave_no_project_active(
    state: StateView,
    event: HyprEvent,
    after: StateView,
    effect: Effect,
    id: i64,
    name: Seq<char>,
)
    requires
        event@ == (HyprEventView::Workspace { id, name }),
        state.leads_to(Command::Hypr(event), after, effect),
        ({
            let prefix = state.config.general.workspace_prefix;
            ||| all_digits(name)
            ||| is_special(name)
            ||| forall|j: int, rest: Seq<char>|
                0 <= j < state.projects.len() ==> name != #[trigger] (prefix
                    + state.projects[j].slug + rest)
        }),
    ensures
        after.world.active_project is None,
        state.world.active_project is Some ==> {
            &&& after.outbox.len() == state.outbox.len() + 2
            &&& after.outbox[state.outbox.len() as int].data == (DomainEventView::ProjectSwitched {
                slug: None,
            })
        },
{
    let prefix = state.config.general.workspace_prefix;
    law_meaning_is_exact(prefix, name);
    if !all_digits(name) && !is_special(name) {
        if let Some(j) = state.owner_of(name) {
            let slug = match meaning(prefix, name) {
                ParsedNameView::Project(slug) => slug,
                ParsedNameView::Group { project, .. } => project,
                ParsedNameView::Foreign => seq![],
            };
            lemma_found_project(state, slug, 0);
            let rest = match meaning(prefix, name) {
                ParsedNameView::Group { group, .. } => seq![':'] + group,
                _ => seq![],
            };
            assert(name =~= prefix + state.projects[j].slug + rest);
        }
    }
}

/// Workspaces come, go, get names and change monitors as the events say.
pub proof fn law_workspaces_follow_events(
    state: StateView,
    event: HyprEvent,
    after: StateView,
    effect: Effect,
    id: i64,
)
    requires
        state.leads_to(Command::Hypr(event), after, effect),
        ({
            ||| event@ matches HyprEventView::CreateWorkspace { id: i, .. } && i == id
            ||| event@ matches HyprEventView::DestroyWorkspace { id: i, .. } && i == id
            ||| event@ matches HyprEventView::RenameWorkspace { id: i, .. } && i == id
            ||| event@ matches HyprEventView::MoveWorkspace { id: i, .. } && i == id
        }),
    ensures
        event@ matches HyprEventView::CreateWorkspace { name, .. }
            ==> after.world.workspaces.dom().contains(id) && after.world.workspaces[id].id == id
            && after.world.workspaces[id].name == name,
        event@ is DestroyWorkspace ==> !after.world.workspaces.dom().contains(id),
        event@ matches HyprEventView::RenameWorkspace { name, .. } ==> {
            &&& after.world.workspaces.dom() == state.world.workspaces.dom()
            &&& state.world.workspaces.dom().contains(id) ==> after.world.workspaces[id] == (
            WorkspaceInfoView { name, ..state.world.workspaces[id] })
        },
        event@ matches HyprEventView::MoveWorkspace { name, monitor, .. }
            ==> after.world.workspaces.dom().contains(id) && after.world.workspaces[id] == (
        WorkspaceInfoView { id, name, monitor }),
        forall|other: i64|
            other != id ==> (#[trigger] after.world.workspaces.dom().contains(other)
                <==> state.world.workspaces.dom().contains(other)) && (
            after.world.workspaces.dom().contains(other) ==> after.world.workspaces[other]
                == state.world.workspaces[other]),
        after.world == (WorldView { workspaces: after.world.workspaces, ..state.world }),
        settings_stay(state, after),
        is_silent(state, after),
        effect is Nothing,
{
    assert(event@ is RenameWorkspace ==> after.world.workspaces.dom()
        =~= state.world.workspaces.dom());
}

proof fn lemma_other_monitors(monitors: Seq<MonitorInfoView>, id: i64)
    ensures
        forall|m: MonitorInfoView| #[trigger]
            other_monitors(monitors, id).contains(m) <==> monitors.contains(m) && m.id != id,
    decreases monitors.len(),
{
    if monitors.len() > 0 {
        let front = monitors.drop_last();
        lemma_other_monitors(front, id);
        let before = other_monitors(front, id);
        let now = other_monitors(monitors, id);
        assert forall|m: MonitorInfoView| #[trigger] now.contains(m) <==> monitors.contains(m)
            && m.id != id by {
            if now.contains(m) {
                let k = choose|k: int| 0 <= k < now.len() && now[k] == m;
                if k < before.len() {
                    assert(before[k] == m);
                    assert(before.contains(m));
                    let j = choose|j: int| 0 <= j < front.len() && front[j] == m;
                    assert(monitors[j] == m);
                } else {
                    assert(monitors[monitors.len() - 1] == m);
                }
            }
            if monitors.contains(m) && m.id != id {
                let j = choose|j: int| 0 <= j < monitors.len() && monitors[j] == m;
                if j < front.len() {
                    assert(front[j] == m);
                    assert(before.contains(m));
                    let k = choose|k: int| 0 <= k < before.len() && before[k] == m;
                    assert(now[k] == m);
                } else {
                    assert(now[before.len() as int] == m);
                }
            }
        }
    }
}

/// Monitors come and go as the events say, and exactly those with the name
/// that the last event gives are focused.
pub proof fn law_monitors_follow_events(
    state: StateView,
    event: HyprEvent,
    after: StateView,
    effect: Effect,
)
    requires
        state.leads_to(Command::Hypr(event), after, effect),
        event@ is FocusedMonitor || event@ is MonitorAdded || event@ is MonitorRemoved,
    ensures
        event@ matches HyprEventView::FocusedMonitor { monitor, .. } ==> {
            &&& after.world.monitors.len() == state.world.monitors.len()
            &&& forall|i: int|
                0 <= i < after.world.monitors.len() ==> {
                    let m = #[trigger] after.world.monitors[i];
                    &&& m.id == state.world.monitors[i].id
                    &&& m.name == state.world.monitors[i].name
                    &&& m.focused <==> m.name == monitor
                }
        },
        event@ matches HyprEventView::MonitorAdded { id, name } ==> {
            let known = exists|i: int|
                0 <= i < state.world.monitors.len() && (#[trigger] state.world.monitors[i]).id
                    == id;
            &&& known ==> after.world.monitors == state.world.monitors
            &&& !known ==> after.world.monitors.len() == state.world.monitors.len() + 1
                && after.world.monitors.drop_last() == state.world.monitors
                && after.world.monitors.last().id == id && after.world.monitors.last().name == name
                && !after.world.monitors.last().focused
        },
        event@ matches HyprEventView::MonitorRemoved { id, .. } ==> forall|m: MonitorInfoView|
            #[trigger]
            after.world.monitors.contains(m) <==> state.world.monitors.contains(m) && m.id != id,
        after.world == (WorldView { monitors: after.world.monitors, ..state.world }),
        settings_stay(state, after),
        is_silent(state, after),
        effect is Nothing,
{
    match event@ {
        HyprEventView::MonitorRemoved { id, .. } => {
            lemma_other_monitors(state.world.monitors, id);
        },
        HyprEventView::MonitorAdded { .. } => {
            if after.world.monitors.len() > state.world.monitors.len() {
                assert(after.world.monitors.drop_last() =~= state.world.monitors);
            }
        },
        _ => {},
    }
}

/// Other events leave everything as it is.
pub proof fn law_other_events_change_nothing(
    state: StateView,
    event: HyprEvent,
    after: StateView,
    effect: Effect,
)
    requires
        state.leads_to(Command::Hypr(event), after, effect),
        event@ is ConfigReloaded || event@ is Urgent || event@ is Unknown,
    ensures
        after == state,
        effect is Nothing,
{
}

// ---- rules -------------------------------------------------------------------------------

proof fn lemma_project_with(state: StateView, slug: Seq<char>, i: int, from: int)
    requires
        0 <= from <= i < state.projects.len(),
        state.projects[i].slug == slug,
        forall|j: int| from <= j < i ==> (#[trigger] state.projects[j]).slug != slug,
    ensures
        slug_index(state.projects, slug, from) == Some(i),
    decreases i - from,
{
    if from < i {
        assert(state.projects[from].slug != slug);
        lemma_project_with(state, slug, i, from + 1);
    }
}

proof fn lemma_project_by_id(state: StateView, i: int, from: int)
    requires
        0 <= from <= i < state.projects.len(),
        forall|j: int| from <= j < i ==> (#[trigger] state.projects[j]).id != state.projects[i].id,
    ensures
        id_index(state.projects, state.projects[i].id, from) == Some(i),
    decreases i - from,
{
    if from < i {
        assert(state.projects[from].id != state.projects[i].id);
        lemma_project_by_id(state, i, from + 1);
    }
}

proof fn lemma_found_project(state: StateView, slug: Seq<char>, from: int)
    requires
        0 <= from,
    ensures
        slug_index(state.projects, slug, from) matches Some(i) ==> from <= i
            < state.projects.len() && state.projects[i].slug == slug,
    decreases state.projects.len() - from,
{
    if from < state.projects.len() {
        lemma_found_project(state, slug, from + 1);
    }
}

proof fn lemma_no_project_with(state: StateView, slug: Seq<char>, from: int)
    requires
        0 <= from,
        forall|j: int| 0 <= j < state.projects.len() ==> (#[trigger] state.projects[j]).slug
            != slug,
    ensures
        slug_index(state.projects, slug, from) is None,
    decreases state.projects.len() - from,
{
    if from < state.projects.len() {
        assert(state.projects[from].slug != slug);
        lemma_no_project_with(state, slug, from + 1);
    }
}

proof fn lemma_winner(rules: Seq<CompiledRuleView>, facts: WindowFactsView, r: int)
    requires
        0 <= r < rules.len(),
        (rules[r].accepts)(facts),
        forall|q: int| 0 <= q < r ==> !((#[trigger] rules[q]).accepts)(facts),
    ensures
        matching(rules, facts).len() > 0,
        matching(rules, facts)[0] == rules[r],
{
    law_first_match_wins(rules, facts);
    let i = choose|i: int|
        0 <= i < rules.len() && (#[trigger] rules[i]) == matching(rules, facts)[0] && (
        rules[i].accepts)(facts) && forall|j: int|
            0 <= j < i ==> !((#[trigger] rules[j]).accepts)(facts);
    if i < r {
        assert(!(rules[i].accepts)(facts));
    } else if r < i {
        assert(!(rules[r].accepts)(facts));
    }
}

/// When the facts of an unassigned window arrive and the first rule that
/// accepts them names a project that exists, the window is assigned to that
/// project and to that rule's group, by that rule; the compositor is told
/// nothing, to move the window to the project's workspace, or to move it and
/// follow, as the settings say.
pub proof fn law_first_rule_claims_the_window(
    state: StateView,
    command: Command,
    after: StateView,
    effect: Effect,
    r: int,
    i: int,
)
    requires
        command is WindowFacts,
        state.leads_to(command, after, effect),
        ({
            let address = command->WindowFacts_address@;
            let facts = command->WindowFacts_facts@;
            &&& state.world.windows.dom().contains(address)
                ==> state.world.windows[address].assignment is None
            &&& 0 <= r < state.rules.len()
            &&& (state.rules[r].accepts)(facts)
            &&& forall|q: int| 0 <= q < r ==> !((#[trigger] state.rules[q]).accepts)(facts)
            &&& 0 <= i < state.projects.len()
            &&& state.projects[i].slug == state.rules[r].project
            &&& forall|j: int|
                0 <= j < i ==> (#[trigger] state.projects[j]).slug != state.rules[r].project
        }),
    ensures
        ({
            let address = command->WindowFacts_address@;
            let rule = state.rules[r];
            let project = state.projects[i];
            let workspace = state.config.general.workspace_prefix + project.slug;
            let target = WsTargetView::Name(workspace);
            &&& after.world.windows.dom().contains(address)
            &&& after.world.windows[address].facts == command->WindowFacts_facts@
            &&& after.world.windows[address].assignment == Some((project.id, rule.group))
            &&& after.world.windows[address].assigned_by == Some(
                AssignmentSourceView::Rule(rule.name),
            )
            &&& other_windows_stay(state, after, address)
            &&& settings_stay(state, after)
            &&& announces(
                state,
                after,
                DomainEventView::RuleMatched { rule: rule.name, address, project: project.slug },
            )
            &&& match state.config.general.rule_action {
                RuleAction::Assign => effect is Nothing,
                RuleAction::Move => effect matches Effect::Tell(told) && told.deep_view() == seq![
                    DispatchView::MoveToWorkspaceSilent { target, address: canonical(address) },
                ],
                RuleAction::MoveFocus => effect matches Effect::Tell(told) && told.deep_view()
                    == seq![
                    DispatchView::MoveToWorkspace { target, address: canonical(address) },
                ],
            }
        }),
{
    let facts = command->WindowFacts_facts@;
    lemma_winner(state.rules, facts, r);
    lemma_project_with(state, state.rules[r].project, i, 0);
    assert(after.outbox.drop_last() =~= state.outbox);
}

/// Facts that no rule accepts, or for which the first rule that does names no
/// project there is, are kept and claim nothing; so are facts of a window that
/// is assigned.
pub proof fn law_unclaimed_facts_are_kept(
    state: StateView,
    command: Command,
    after: StateView,
    effect: Effect,
)
    requires
        command is WindowFacts,
        state.leads_to(command, after, effect),
        ({
            let address = command->WindowFacts_address@;
            let facts = command->WindowFacts_facts@;
            ||| state.world.windows.dom().contains(address)
                && state.world.windows[address].assignment is Some
            ||| forall|q: int|
                0 <= q < state.rules.len() ==> !((#[trigger] state.rules[q]).accepts)(facts)
            ||| exists|r: int|
                0 <= r < state.rules.len() && ((#[trigger] state.rules[r]).accepts)(facts) && (
                forall|q: int| 0 <= q < r ==> !((#[trigger] state.rules[q]).accepts)(facts)) && (
                forall|j: int|
                    0 <= j < state.projects.len() ==> (#[trigger] state.projects[j]).slug
                        != state.rules[r].project)
        }),
    ensures
        ({
            let address = command->WindowFacts_address@;
            let stable_id = command->WindowFacts_stable_id.deep_view();
            &&& after.world.windows.dom().contains(address)
            &&& ({
                let has = after.world.windows[address];
                &&& has.facts == command->WindowFacts_facts@
                &&& stable_id is Some ==> has.stable_id == stable_id
                &&& if state.world.windows.dom().contains(address) {
                    let had = state.world.windows[address];
                    &&& has.assignment == had.assignment
                    &&& has.assigned_by == had.assigned_by
                    &&& stable_id is None ==> has.stable_id == had.stable_id
                } else {
                    has.assignment is None && has.assigned_by is None && has.address == address
                }
            })
            &&& other_windows_stay(state, after, address)
            &&& surroundings_stay(state, after)
            &&& settings_stay(state, after)
            &&& is_silent(state, after)
            &&& effect is Nothing
        }),
{
    let address = command->WindowFacts_address@;
    let facts = command->WindowFacts_facts@;
    let assigned = state.world.windows.dom().contains(address)
        && state.world.windows[address].assignment is Some;
    law_first_match_wins(state.rules, facts);
    if !assigned && exists|r: int|
        0 <= r < state.rules.len() && ((#[trigger] state.rules[r]).accepts)(facts) && (forall|q: int|
            0 <= q < r ==> !((#[trigger] state.rules[q]).accepts)(facts)) && (forall|j: int|
            0 <= j < state.projects.len() ==> (#[trigger] state.projects[j]).slug
                != state.rules[r].project) {
        let r = choose|r: int|
            0 <= r < state.rules.len() && ((#[trigger] state.rules[r]).accepts)(facts) && (forall|
                q: int,
            |
                0 <= q < r ==> !((#[trigger] state.rules[q]).accepts)(facts)) && (forall|j: int|
                0 <= j < state.projects.len() ==> (#[trigger] state.projects[j]).slug
                    != state.rules[r].project);
        lemma_winner(state.rules, facts, r);
        lemma_no_project_with(state, state.rules[r].project, 0);
    }
}

} // verus!
