//! What holds of the daemon's state whatever commands reach it.

use vstd::prelude::*;

use crate::daemon::commands::{Command, Effect};
use crate::daemon::importing::file_view;
use crate::daemon::requests::{slugs, Gathered, OutcomeView};
use crate::daemon::state::{id_index, slug_index, StateView};
use crate::domain::events::DomainEventView;
use crate::domain::model::{ProjectId, ProjectView};
use crate::domain::search::{
    law_exact_slug_wins, law_resolutions_are_projects, project_scores, resolution, ResolutionView,
};
use crate::domain::world::{
    by_id, is_assigned_to, is_id_of, lemma_window_list, workspace_named, TrackedWindowView,
    WindowFactsView, WorkspaceInfoView,
};
use crate::domain::ws_names::{meaning, ParsedNameView};
use crate::hypr::ctl::{DispatchView, WsTargetView};
use crate::hypr::events::HyprEventView;
use crate::proto::{
    ErrorBodyView, ErrorCode, ReplyView, RequestView, SnapshotView, PROTOCOL_VERSION,
};
use crate::text::{lemma_precedes_total, lemma_precedes_transitive, precedes};

verus! {

// ---- numbering ----------------------------------------------------------------------------

/// Whether a state follows another: its outbox goes on where the other's
/// ends, and the new events bear the next numbers without a gap.
pub open spec fn follows(before: StateView, after: StateView) -> bool {
    let old_len = before.outbox.len() as int;
    &&& after.outbox.len() >= old_len
    &&& after.outbox.take(old_len) == before.outbox
    &&& after.seq == before.seq + (after.outbox.len() - old_len)
    &&& forall|i: int|
        old_len <= i < after.outbox.len() ==> (#[trigger] after.outbox[i]).seq == before.seq + 1 + (
        i - old_len) && after.outbox[i].v == PROTOCOL_VERSION
}

proof fn lemma_quiet(before: StateView, after: StateView)
    requires
        after.outbox == before.outbox,
        after.seq == before.seq,
    ensures
        follows(before, after),
{
    assert(after.outbox.take(before.outbox.len() as int) =~= before.outbox);
}

proof fn lemma_emitting(before: StateView, middle: StateView, event: DomainEventView)
    requires
        follows(before, middle),
        middle.seq < u64::MAX,
    ensures
        follows(before, middle.emitting(event)),
{
    let after = middle.emitting(event);
    let old_len = before.outbox.len() as int;
    assert(after.outbox.take(old_len) =~= middle.outbox.take(old_len));
    assert forall|i: int| old_len <= i < after.outbox.len() implies (
    #[trigger] after.outbox[i]).seq == before.seq + 1 + (i - old_len) && after.outbox[i].v
        == PROTOCOL_VERSION by {
        if i < middle.outbox.len() {
            assert(after.outbox[i] == middle.outbox[i]);
        }
    }
}

proof fn lemma_synced(before: StateView, middle: StateView, workspace: Seq<char>)
    requires
        follows(before, middle),
        middle.seq < u64::MAX,
    ensures
        follows(before, middle.synced_with(workspace)),
        middle.synced_with(workspace).seq <= middle.seq + 1,
{
    let active = match middle.owner_of(workspace) {
        Some(i) => Some(middle.projects[i].id),
        None => None,
    };
    if middle.world.active_project != active {
        let changed = StateView {
            world: crate::domain::world::WorldView { active_project: active, ..middle.world },
            ..middle
        };
        assert(follows(before, changed));
        lemma_emitting(
            before,
            changed,
            DomainEventView::ProjectSwitched { slug: middle.slug_of_id(active) },
        );
    }
}

proof fn lemma_event_follows(state: StateView, event: HyprEventView, id: i64)
    requires
        state.has_room(),
    ensures
        follows(state, state.after_hypr_event(event, id)),
{
    let after = state.after_hypr_event(event, id);
    match event {
        HyprEventView::OpenWindow { address, workspace, class, title } => {
            let middle = StateView { world: after.world, ..state };
            lemma_quiet(state, middle);
            lemma_emitting(
                state,
                middle,
                DomainEventView::WindowOpened { address, class, title, workspace },
            );
        },
        HyprEventView::CloseWindow { address } => {
            lemma_quiet(state, state);
            if state.world.windows.dom().contains(address) {
                let middle = StateView { world: after.world, ..state };
                lemma_quiet(state, middle);
                lemma_emitting(state, middle, DomainEventView::WindowClosed { address });
            }
        },
        HyprEventView::MoveWindow { address, workspace, .. } => {
            let middle = StateView { world: after.world, ..state };
            lemma_quiet(state, middle);
            lemma_emitting(state, middle, DomainEventView::WindowMoved { address, workspace });
        },
        HyprEventView::WindowTitle { address, title } => {
            let middle = StateView { world: after.world, ..state };
            lemma_quiet(state, middle);
            lemma_emitting(state, middle, DomainEventView::WindowTitleChanged { address, title });
        },
        HyprEventView::ActiveWindow { address } => {
            let middle = StateView { world: after.world, ..state };
            lemma_quiet(state, middle);
            lemma_emitting(state, middle, DomainEventView::WindowFocused { address });
        },
        HyprEventView::Workspace { id, name } => {
            let focused = crate::domain::world::WorldView {
                focused_workspace: Some(name),
                ..state.world
            };
            let middle = StateView {
                world: if state.world.workspaces.dom().contains(id) {
                    focused
                } else {
                    focused.with_workspace(id, name, ""@)
                },
                ..state
            };
            lemma_quiet(state, middle);
            lemma_synced(state, middle, name);
            lemma_emitting(
                state,
                middle.synced_with(name),
                DomainEventView::WorkspaceChanged { id, name },
            );
        },
        _ => {
            lemma_quiet(state, after);
        },
    }
}

proof fn lemma_rules_follow(before: StateView, middle: StateView, address: Seq<char>)
    requires
        follows(before, middle),
        middle.has_room(),
    ensures
        follows(before, middle.after_rules(address)),
{
    if let Some((rule, project)) = middle.claim(address) {
        let assigned = StateView { world: middle.after_rules(address).world, ..middle };
        assert(follows(before, assigned));
        lemma_emitting(
            before,
            assigned,
            DomainEventView::RuleMatched { rule: rule.name, address, project: rule.project },
        );
    }
}

proof fn lemma_answer_follows(
    state: StateView,
    request: RequestView,
    id: ProjectId,
    uptime: u64,
    gathered: Gathered,
)
    requires
        state.has_room(),
    ensures
        follows(state, state.answered(request, id, uptime, gathered).0),
{
    let after = state.answered(request, id, uptime, gathered).0;
    lemma_quiet(state, state);
    match request {
        RequestView::ProjectCreate { name, slug } => {
            if after != state {
                let middle = StateView { projects: after.projects, ..state };
                lemma_quiet(state, middle);
                lemma_emitting(
                    state,
                    middle,
                    DomainEventView::ProjectCreated { slug: after.projects.last().slug, name },
                );
            }
        },
        RequestView::ProjectDuplicate { name, .. } => {
            if after != state {
                let middle = StateView { projects: after.projects, ..state };
                lemma_quiet(state, middle);
                lemma_emitting(
                    state,
                    middle,
                    DomainEventView::ProjectCreated { slug: after.projects.last().slug, name },
                );
            }
        },
        RequestView::ProjectDelete { slug } => {
            if let Some(i) = slug_index(state.projects, slug, 0) {
                let gone = state.projects[i].id;
                let released = StateView {
                    projects: state.projects.remove(i),
                    world: crate::domain::world::WorldView {
                        windows: crate::domain::world::all_released(state.world.windows, gone),
                        ..state.world
                    },
                    ..state
                };
                lemma_quiet(state, released);
                if state.world.active_project == Some(gone) {
                    let idle = StateView {
                        world: crate::domain::world::WorldView {
                            active_project: None,
                            ..released.world
                        },
                        ..released
                    };
                    lemma_quiet(state, idle);
                    lemma_emitting(state, idle, DomainEventView::ProjectSwitched { slug: None });
                    lemma_emitting(
                        state,
                        idle.emitting(DomainEventView::ProjectSwitched { slug: None }),
                        DomainEventView::ProjectDeleted { slug },
                    );
                } else {
                    lemma_emitting(state, released, DomainEventView::ProjectDeleted { slug });
                }
            }
        },
        RequestView::ProjectRename { slug, name } => {
            if let Some(i) = slug_index(state.projects, slug, 0) {
                let middle = StateView { projects: after.projects, ..state };
                lemma_quiet(state, middle);
                lemma_emitting(state, middle, DomainEventView::ProjectRenamed { slug, name });
            }
        },
        RequestView::ProjectSwitch { project } => {
            if let Ok(project) = state.resolved(project) {
                let middle = StateView { world: after.world, ..state };
                lemma_quiet(state, middle);
                lemma_emitting(
                    state,
                    middle,
                    DomainEventView::ProjectSwitched { slug: Some(project.slug) },
                );
            }
        },
        RequestView::ProjectImport { .. }
        | RequestView::GroupCreate { .. }
        | RequestView::GroupAdd { .. }
        | RequestView::GroupRemove { .. }
        | RequestView::GroupHide { .. }
        | RequestView::GroupShow { .. } => {
            if after != state {
                let middle = StateView { projects: after.projects, world: after.world, ..state };
                let event = after.outbox.last().data;
                lemma_quiet(state, middle);
                lemma_emitting(state, middle, event);
                assert(after =~= middle.emitting(event));
            }
        },
        RequestView::GroupMove { project, group, to } => {
            if after != state {
                let (i, g) = state.located(project, group)->Ok_0;
                let j = state.place_of(to)->Ok_0;
                let left = DomainEventView::GroupChanged {
                    project: state.projects[i].slug,
                    group,
                };
                let middle = StateView { projects: after.projects, world: after.world, ..state };
                lemma_quiet(state, middle);
                lemma_emitting(state, middle, left);
                lemma_emitting(
                    state,
                    middle.emitting(left),
                    DomainEventView::GroupChanged { project: state.projects[j].slug, group },
                );
            }
        },
        _ => {
            lemma_quiet(state, after);
        },
    }
}

/// Whatever a command does, events leave in order, are never taken back, and
/// are numbered without a gap: a subscriber that sees one has missed events.
pub proof fn law_events_are_numbered(
    state: StateView,
    command: Command,
    after: StateView,
    effect: Effect,
)
    requires
        state.has_room(),
        state.leads_to(command, after, effect),
    ensures
        follows(state, after),
{
    lemma_quiet(state, state);
    match command {
        Command::HyprConnection(up) => {
            let middle = StateView { world: after.world, ..state };
            lemma_quiet(state, middle);
            lemma_emitting(state, middle, DomainEventView::HyprConnection { up });
        },
        Command::Hypr(event) => {
            if let HyprEventView::OpenWindow { workspace, .. } = event@ {
                let id = choose|id: i64| #[trigger]
                    is_id_of(state.world.workspaces, workspace, id) && after
                        == state.after_hypr_event(event@, id);
                lemma_event_follows(state, event@, id);
            } else {
                lemma_event_follows(state, event@, 0);
            }
        },
        Command::WindowFacts { address, stable_id, facts } => {
            let known = StateView {
                world: state.world.with_window(address@, stable_id.deep_view(), facts@),
                ..state
            };
            lemma_quiet(state, known);
            lemma_rules_follow(state, known, address@);
        },
        Command::Request { request, id, uptime, gathered } => {
            lemma_answer_follows(state, request@, id, uptime, gathered);
        },
        Command::RestoreEvent(event) => {
            lemma_emitting(state, state, event@);
        },
        Command::UpdateAvailable(version) => {
            let middle = StateView { update: Some(version@), ..state };
            lemma_quiet(state, middle);
            lemma_emitting(
                state,
                middle,
                DomainEventView::UpdateAvailable { version: version@ },
            );
        },
        Command::Shutdown => {
            lemma_emitting(state, state, DomainEventView::ShuttingDown);
        },
        _ => {
            lemma_quiet(state, after);
        },
    }
}

// ---- requests -----------------------------------------------------------------------------

/// A request that is refused changes nothing.
pub proof fn law_refusals_change_nothing(
    state: StateView,
    request: RequestView,
    id: ProjectId,
    uptime: u64,
    gathered: Gathered,
)
    ensures
        state.answered(request, id, uptime, gathered).1 matches OutcomeView::Reply(Err(_))
            ==> state.answered(request, id, uptime, gathered).0 == state,
{
}

/// The dispatches of an effect.
pub open spec fn told(effect: Effect) -> Seq<DispatchView> {
    match effect {
        Effect::Tell(dispatches) => dispatches.deep_view(),
        Effect::Answer(outcome) => match outcome@ {
            OutcomeView::DispatchThen { dispatches, .. } => dispatches,
            OutcomeView::Reply(_) => seq![],
            OutcomeView::Restore { .. } => seq![],
        },
        _ => seq![],
    }
}

/// Numbered workspaces are never touched: whatever command comes, every
/// workspace that Hyprland is told about is given by its name.
pub proof fn law_numbered_workspaces_stay_untouched(
    state: StateView,
    command: Command,
    after: StateView,
    effect: Effect,
)
    requires
        state.leads_to(command, after, effect),
    ensures
        forall|i: int| 0 <= i < told(effect).len() ==> (#[trigger] told(effect)[i]).goes_by_name(),
{
    if let Command::WindowFacts { address, stable_id, facts } = command {
        let known = StateView {
            world: state.world.with_window(address@, stable_id.deep_view(), facts@),
            ..state
        };
        if let Some(dispatch) = known.rule_dispatch(address@) {
            assert(told(effect) =~= seq![dispatch]);
        }
    }
}

/// Deleting takes the exact slug: only a project with that very slug is ever
/// deleted.
pub proof fn law_deletion_is_exact(state: StateView, slug: Seq<char>)
    ensures
        match slug_index(state.projects, slug, 0) {
            Some(i) => {
                &&& 0 <= i < state.projects.len() && state.projects[i].slug == slug
                &&& state.deleted(slug).0.projects == state.projects.remove(i)
                &&& state.deleted(slug).1 == OutcomeView::Reply(Ok(ReplyView::Deleted(slug)))
            },
            None => {
                &&& forall|k: int|
                    0 <= k < state.projects.len() ==> (#[trigger] state.projects[k]).slug != slug
                &&& state.deleted(slug).0 == state
                &&& state.deleted(slug).1 matches OutcomeView::Reply(Err(error)) && error.code
                    == ErrorCode::NotFound
            },
        },
{
    lemma_slug_found(state.projects, slug, 0);
}

/// An ambiguous query is not guessed at: nothing changes, and the answer names
/// every candidate, each the slug of a project.
pub proof fn law_ambiguity_is_not_guessed(
    state: StateView,
    query: Seq<char>,
    candidates: Seq<ProjectView>,
)
    requires
        resolution(query, state.projects, project_scores(query, state.projects))
            == ResolutionView::Ambiguous(candidates),
    ensures
        candidates.len() >= 2,
        forall|i: int|
            0 <= i < candidates.len() ==> state.projects.contains(#[trigger] candidates[i]),
        state.switched(query).0 == state,
        state.switched(query).1 matches OutcomeView::Reply(Err(error)) && error.code
            == ErrorCode::Ambiguous && error.candidates == Some(slugs(candidates)),
{
    law_resolutions_are_projects(query, state.projects, project_scores(query, state.projects));
}

/// Restoring as a dry run changes nothing and reports the plan that restoring
/// would carry out; neither changes the state by itself.
pub proof fn law_dry_runs_show_the_plan(state: StateView, query: Option<Seq<char>>)
    ensures
        match state.restored(query, false) {
            OutcomeView::Restore { project, plan, result } => {
                &&& state.restored(query, true) == OutcomeView::Reply(Ok(ReplyView::Plan(plan)))
                &&& result == ReplyView::Started(plan)
                &&& state.resolved_or_active(query) matches Ok(found) && found.id == project
            },
            refusal => state.restored(query, true) == refusal && refusal matches OutcomeView::Reply(
                Err(_),
            ),
        },
{
}

/// A copy has everything of the original but its id, its slug and its name, and
/// leaves the original as it is.
pub proof fn law_duplicates_are_copies(
    state: StateView,
    query: Seq<char>,
    name: Seq<char>,
    id: ProjectId,
)
    requires
        !(state.duplicated(query, name, id).1 matches OutcomeView::Reply(Err(_))),
    ensures
        ({
            let after = state.duplicated(query, name, id).0;
            let copy = after.projects.last();
            &&& after.projects == state.projects.push(copy)
            &&& state.resolved(query) matches Ok(original) && copy == (ProjectView {
                id,
                slug: copy.slug,
                name,
                ..original
            })
        }),
{
}

/// A project that was created is found under its slug at once, and switching
/// to it focuses its workspace by name.
pub proof fn law_created_projects_are_found(
    state: StateView,
    name: Seq<char>,
    slug: Option<Seq<char>>,
    id: ProjectId,
)
    requires
        !(state.created(name, slug, id).1 matches OutcomeView::Reply(Err(_))),
    ensures
        ({
            let after = state.created(name, slug, id).0;
            let project = after.projects.last();
            &&& project.id == id && project.name == name
            &&& after.resolved(project.slug) == Ok::<ProjectView, ErrorBodyView>(project)
            &&& after.switched(project.slug).1 matches OutcomeView::DispatchThen {
                dispatches,
                ..
            } && dispatches == seq![
                DispatchView::Workspace(WsTargetView::Name(after.workspace_of(project.slug))),
            ]
        }),
{
    let after = state.created(name, slug, id).0;
    let project = after.projects.last();
    let at = after.projects.len() - 1;
    lemma_slug_found(state.projects, project.slug, 0);
    assert forall|k: int| 0 <= k < at implies (#[trigger] after.projects[k]).slug
        != project.slug by {
        assert(after.projects[k] == state.projects[k]);
    }
    law_exact_slug_wins(
        project.slug,
        after.projects,
        project_scores(project.slug, after.projects),
        at,
    );
    law_resolutions_are_projects(
        project.slug,
        after.projects,
        project_scores(project.slug, after.projects),
    );
}

/// A workspace that the user made is never claimed: while one has the name
/// that a new project's would get, the project is refused.
pub proof fn law_foreign_workspaces_are_not_claimed(
    state: StateView,
    name: Seq<char>,
    slug: Option<Seq<char>>,
    id: ProjectId,
)
    ensures
        state.created(name, slug, id).0 != state ==> !workspace_named(
            state.world.workspaces,
            state.workspace_of(state.created(name, slug, id).0.projects.last().slug),
        ),
{
}

// ---- assignments --------------------------------------------------------------------------

/// Rules never override an assignment, whoever made it: fresh facts for an
/// assigned window leave its assignment and its origin as they are, and
/// nothing is dispatched.
pub proof fn law_rules_never_override(
    state: StateView,
    address: Seq<char>,
    stable_id: Option<Seq<char>>,
    facts: WindowFactsView,
)
    requires
        state.world.windows.dom().contains(address),
        state.world.windows[address].assignment is Some,
    ensures
        ({
            let known = StateView {
                world: state.world.with_window(address, stable_id, facts),
                ..state
            };
            let after = known.after_rules(address);
            &&& after.world.windows[address].assignment == state.world.windows[address].assignment
            &&& after.world.windows[address].assigned_by
                == state.world.windows[address].assigned_by
            &&& known.rule_dispatch(address) is None
        }),
{
}

/// A window that has just opened waits for its facts before the rules look at
/// it: compositor events assign nothing and take no assignment away.
pub proof fn law_events_assign_nothing(
    state: StateView,
    event: HyprEventView,
    workspace_id: i64,
    address: Seq<char>,
)
    requires
        state.after_hypr_event(event, workspace_id).world.windows.dom().contains(address),
    ensures
        ({
            let window = state.after_hypr_event(event, workspace_id).world.windows[address];
            if state.world.windows.dom().contains(address) {
                &&& window.assignment == state.world.windows[address].assignment
                &&& window.assigned_by == state.world.windows[address].assigned_by
            } else {
                window.assignment is None && window.assigned_by is None
            }
        }),
{
    let after = state.after_hypr_event(event, workspace_id);
    match event {
        HyprEventView::OpenWindow { address: opened, .. } => {
            assert(address != opened ==> after.world.windows[address]
                == state.world.windows[address]);
        },
        HyprEventView::CloseWindow { .. } => {
            assert(after.world.windows[address] == state.world.windows[address]);
        },
        HyprEventView::MoveWindow { address: moved, .. } => {
            assert(address != moved ==> after.world.windows[address]
                == state.world.windows[address]);
        },
        HyprEventView::WindowTitle { address: named, .. } => {
            assert(address != named ==> after.world.windows[address]
                == state.world.windows[address]);
        },
        HyprEventView::ChangeFloatingMode { address: changed, .. } => {
            assert(address != changed ==> after.world.windows[address]
                == state.world.windows[address]);
        },
        HyprEventView::Pin { address: pinned, .. } => {
            assert(address != pinned ==> after.world.windows[address]
                == state.world.windows[address]);
        },
        HyprEventView::Fullscreen { .. } => {
            if let Some(focused) = state.world.focused_window {
                assert(address != focused ==> after.world.windows[address]
                    == state.world.windows[address]);
            }
        },
        _ => {
            assert(after.world.windows == state.world.windows);
        },
    }
}

/// A deleted project leaves nothing behind: no window is assigned to it, it
/// is not active, and every window and other assignment stays.
pub proof fn law_deletion_releases(state: StateView, slug: Seq<char>, i: int)
    requires
        slug_index(state.projects, slug, 0) == Some(i),
    ensures
        ({
            let id = state.projects[i].id;
            let after = state.deleted(slug).0;
            &&& after.world.active_project != Some(id)
            &&& after.world.windows.dom() == state.world.windows.dom()
            &&& forall|a: Seq<char>|
                state.world.windows.dom().contains(a) ==> {
                    &&& !is_assigned_to(#[trigger] after.world.windows[a], id)
                    &&& !is_assigned_to(state.world.windows[a], id) ==> after.world.windows[a]
                        == state.world.windows[a]
                    &&& after.world.windows[a].facts == state.world.windows[a].facts
                }
        }),
{
    let after = state.deleted(slug).0;
    assert(after.world.windows.dom() =~= state.world.windows.dom());
}

// ---- projects -----------------------------------------------------------------------------

/// No two projects have one slug.
pub open spec fn slugs_distinct(projects: Seq<ProjectView>) -> bool {
    forall|i: int, j: int|
        0 <= i < j < projects.len() ==> (#[trigger] projects[i]).slug != (
        #[trigger] projects[j]).slug
}

proof fn lemma_slug_found(projects: Seq<ProjectView>, slug: Seq<char>, from: int)
    requires
        0 <= from,
    ensures
        match slug_index(projects, slug, from) {
            Some(i) => from <= i < projects.len() && projects[i].slug == slug,
            None => forall|k: int|
                from <= k < projects.len() ==> (#[trigger] projects[k]).slug != slug,
        },
    decreases projects.len() - from,
{
    if from < projects.len() && projects[from].slug != slug {
        lemma_slug_found(projects, slug, from + 1);
    }
}

/// Whether projects are at the same places, each with its slug and its id.
spec fn keeps_names(before: Seq<ProjectView>, after: Seq<ProjectView>) -> bool {
    &&& after.len() == before.len()
    &&& forall|k: int|
        0 <= k < before.len() ==> (#[trigger] after[k]).slug == before[k].slug && after[k].id
            == before[k].id
}

/// Whether projects are at the same places, each with its slug.
spec fn keeps_slugs(before: Seq<ProjectView>, after: Seq<ProjectView>) -> bool {
    &&& after.len() == before.len()
    &&& forall|k: int|
        0 <= k < before.len() ==> (#[trigger] after[k]).slug == before[k].slug
}

proof fn lemma_place(state: StateView, query: Seq<char>)
    ensures
        state.place_of(query) matches Ok(i) ==> 0 <= i < state.projects.len(),
{
    law_resolutions_are_projects(query, state.projects, project_scores(query, state.projects));
    if let Ok(found) = state.resolved(query) {
        let k = choose|k: int| 0 <= k < state.projects.len() && state.projects[k] == found;
        lemma_id_known(state.projects, k, 0);
        lemma_id_found(state.projects, found.id, 0);
    }
}

/// Requests about groups and slots, saving and reordering leave every project
/// where it is, under its slug and its id.
proof fn lemma_names_kept(
    state: StateView,
    request: RequestView,
    id: ProjectId,
    uptime: u64,
    gathered: Gathered,
)
    requires
        request is GroupCreate || request is GroupAdd || request is GroupRemove
            || request is GroupHide || request is GroupShow || request is GroupFocus
            || request is GroupMove || request is ProjectSave || request is ProjectReorder
            || request is SlotUpdate,
    ensures
        keeps_names(
            state.projects,
            state.answered(request, id, uptime, gathered).0.projects,
        ),
{
    match request {
        RequestView::GroupCreate { project, .. }
        | RequestView::GroupHide { project, .. }
        | RequestView::GroupShow { project, .. } => {
            lemma_place(state, project);
        },
        RequestView::SlotUpdate { project, .. } => {
            lemma_place(state, project);
        },
        RequestView::GroupMove { project, to, .. } => {
            lemma_place(state, project);
            lemma_place(state, to);
        },
        RequestView::ProjectSave { project: Some(project) } => {
            lemma_place(state, project);
        },
        RequestView::ProjectSave { project: None } => {
            if let Some(active) = state.world.active_project {
                lemma_id_found(state.projects, active, 0);
                if let Some(k) = id_index(state.projects, active, 0) {
                    lemma_id_known(state.projects, k, 0);
                    lemma_id_found(state.projects, state.projects[k].id, 0);
                }
            }
        },
        _ => {},
    }
}

/// Slugs stay distinct whatever command comes.
pub proof fn law_slugs_stay_distinct(
    state: StateView,
    command: Command,
    after: StateView,
    effect: Effect,
)
    requires
        slugs_distinct(state.projects),
        state.leads_to(command, after, effect),
    ensures
        slugs_distinct(after.projects),
{
    if let Command::Request { request, id, uptime, gathered } = command {
        match request@ {
            RequestView::GroupCreate { .. }
            | RequestView::GroupAdd { .. }
            | RequestView::GroupRemove { .. }
            | RequestView::GroupHide { .. }
            | RequestView::GroupShow { .. }
            | RequestView::GroupFocus { .. }
            | RequestView::GroupMove { .. }
            | RequestView::ProjectSave { .. }
            | RequestView::ProjectReorder { .. }
            | RequestView::SlotUpdate { .. } => {
                lemma_names_kept(state, request@, id, uptime, gathered);
                assert forall|i: int, j: int| 0 <= i < j < after.projects.len() implies (
                #[trigger] after.projects[i]).slug != (#[trigger] after.projects[j]).slug by {
                    assert(state.projects[i].slug != state.projects[j].slug);
                }
            },
            RequestView::ProjectImport { .. } => {
                if let Ok(project) = file_view(gathered.imported) {
                    lemma_slug_found(state.projects, project.slug, 0);
                    if after.projects.len() > state.projects.len() {
                        let added = after.projects.last();
                        assert(after.projects =~= state.projects.push(added));
                        lemma_slug_found(state.projects, added.slug, 0);
                    } else {
                        assert(keeps_slugs(state.projects, after.projects));
                        assert forall|i: int, j: int| 0 <= i < j < after.projects.len() implies (
                        #[trigger] after.projects[i]).slug != (
                        #[trigger] after.projects[j]).slug by {
                            assert(state.projects[i].slug != state.projects[j].slug);
                        }
                    }
                }
            },
            RequestView::ProjectCreate { .. } | RequestView::ProjectDuplicate { .. } => {
                if after.projects != state.projects {
                    let added = after.projects.last();
                    assert(after.projects =~= state.projects.push(added));
                    lemma_slug_found(state.projects, added.slug, 0);
                }
            },
            RequestView::ProjectDelete { slug } => {
                lemma_slug_found(state.projects, slug, 0);
                if let Some(k) = slug_index(state.projects, slug, 0) {
                    assert(after.projects == state.projects.remove(k));
                    assert forall|i: int, j: int| 0 <= i < j < after.projects.len() implies (
                    #[trigger] after.projects[i]).slug != (#[trigger] after.projects[j]).slug by {
                        let a = if i < k {
                            i
                        } else {
                            i + 1
                        };
                        let b = if j < k {
                            j
                        } else {
                            j + 1
                        };
                        assert(after.projects[i] == state.projects[a]);
                        assert(after.projects[j] == state.projects[b]);
                    }
                }
            },
            RequestView::ProjectRename { slug, name } => {
                lemma_slug_found(state.projects, slug, 0);
            },
            _ => {},
        }
    } else if let Command::Hypr(event) = command {
        if let HyprEventView::OpenWindow { workspace, .. } = event@ {
            let id = choose|id: i64| #[trigger]
                is_id_of(state.world.workspaces, workspace, id) && after
                    == state.after_hypr_event(event@, id);
            assert(after.projects == state.projects);
        } else {
            assert(after.projects == state.projects);
        }
    }
}

/// Whether the active project exists, if there is one.
pub open spec fn active_exists(state: StateView) -> bool {
    state.world.active_project matches Some(id) ==> id_index(state.projects, id, 0) is Some
}

/// A project of the list is found by its id.
pub proof fn lemma_id_known(projects: Seq<ProjectView>, k: int, from: int)
    requires
        0 <= from <= k < projects.len(),
    ensures
        id_index(projects, projects[k].id, from) is Some,
    decreases projects.len() - from,
{
    if projects[from].id != projects[k].id {
        lemma_id_known(projects, k, from + 1);
    }
}

/// Whatever is found by id has it.
pub proof fn lemma_id_found(projects: Seq<ProjectView>, id: ProjectId, from: int)
    requires
        0 <= from,
    ensures
        id_index(projects, id, from) matches Some(i) ==> from <= i < projects.len()
            && projects[i].id == id,
    decreases projects.len() - from,
{
    if from < projects.len() && projects[from].id != id {
        lemma_id_found(projects, id, from + 1);
    }
}

proof fn lemma_owner_exists(state: StateView, workspace: Seq<char>)
    requires
        active_exists(state),
    ensures
        active_exists(state.synced_with(workspace)),
{
    match meaning(state.config.general.workspace_prefix, workspace) {
        ParsedNameView::Project(slug) => {
            lemma_slug_found(state.projects, slug, 0);
        },
        ParsedNameView::Group { project, .. } => {
            lemma_slug_found(state.projects, project, 0);
        },
        ParsedNameView::Foreign => {},
    }
    if let Some(i) = state.owner_of(workspace) {
        lemma_id_known(state.projects, i, 0);
    }
}

proof fn lemma_event_keeps_active(state: StateView, event: HyprEventView, id: i64)
    requires
        active_exists(state),
    ensures
        active_exists(state.after_hypr_event(event, id)),
{
    if let HyprEventView::Workspace { id, name } = event {
        let focused = crate::domain::world::WorldView {
            focused_workspace: Some(name),
            ..state.world
        };
        let middle = StateView {
            world: if state.world.workspaces.dom().contains(id) {
                focused
            } else {
                focused.with_workspace(id, name, ""@)
            },
            ..state
        };
        assert(active_exists(middle));
        lemma_owner_exists(middle, name);
    }
}

proof fn lemma_answer_keeps_active(
    state: StateView,
    request: RequestView,
    id: ProjectId,
    uptime: u64,
    gathered: Gathered,
)
    requires
        active_exists(state),
    ensures
        active_exists(state.answered(request, id, uptime, gathered).0),
{
    let after = state.answered(request, id, uptime, gathered).0;
    if let Some(active) = state.world.active_project {
        lemma_id_found(state.projects, active, 0);
        let k = id_index(state.projects, active, 0)->0;
        match request {
            RequestView::ProjectCreate { .. } | RequestView::ProjectDuplicate { .. } => {
                if after.projects != state.projects {
                    assert(after.projects[k] == state.projects[k]);
                    lemma_id_known(after.projects, k, 0);
                }
            },
            RequestView::ProjectImport { .. } => {
                if let Ok(project) = file_view(gathered.imported) {
                    lemma_slug_found(state.projects, project.slug, 0);
                    assert(after.projects[k].id == state.projects[k].id);
                    lemma_id_known(after.projects, k, 0);
                }
            },
            RequestView::GroupCreate { .. }
            | RequestView::GroupAdd { .. }
            | RequestView::GroupRemove { .. }
            | RequestView::GroupHide { .. }
            | RequestView::GroupShow { .. }
            | RequestView::GroupFocus { .. }
            | RequestView::GroupMove { .. }
            | RequestView::ProjectSave { .. }
            | RequestView::ProjectReorder { .. }
            | RequestView::SlotUpdate { .. } => {
                lemma_names_kept(state, request, id, uptime, gathered);
                assert(after.projects[k].id == state.projects[k].id);
                lemma_id_known(after.projects, k, 0);
            },
            RequestView::ProjectDelete { slug } => {
                lemma_slug_found(state.projects, slug, 0);
                if let Some(i) = slug_index(state.projects, slug, 0) {
                    if state.projects[i].id != active {
                        let at = if k < i {
                            k
                        } else {
                            k - 1
                        };
                        assert(after.projects[at] == state.projects[k]);
                        lemma_id_known(after.projects, at, 0);
                    }
                }
            },
            RequestView::ProjectRename { slug, .. } => {
                lemma_slug_found(state.projects, slug, 0);
                if let Some(i) = slug_index(state.projects, slug, 0) {
                    assert(after.projects[k].id == state.projects[k].id);
                    lemma_id_known(after.projects, k, 0);
                }
            },
            _ => {},
        }
    }
    if let RequestView::ProjectSwitch { project } = request {
        law_resolutions_are_projects(
            project,
            state.projects,
            project_scores(project, state.projects),
        );
        if let Ok(found) = state.resolved(project) {
            let k = choose|k: int| 0 <= k < state.projects.len() && state.projects[k] == found;
            lemma_id_known(state.projects, k, 0);
        }
    }
}

/// The active project always exists, whatever command comes.
pub proof fn law_active_project_exists(
    state: StateView,
    command: Command,
    after: StateView,
    effect: Effect,
)
    requires
        active_exists(state),
        state.leads_to(command, after, effect),
    ensures
        active_exists(after),
{
    match command {
        Command::Hypr(event) => {
            if let HyprEventView::OpenWindow { workspace, .. } = event@ {
                let id = choose|id: i64| #[trigger]
                    is_id_of(state.world.workspaces, workspace, id) && after
                        == state.after_hypr_event(event@, id);
                lemma_event_keeps_active(state, event@, id);
            } else {
                lemma_event_keeps_active(state, event@, 0);
            }
        },
        Command::Request { request, id, uptime, gathered } => {
            lemma_answer_keeps_active(state, request@, id, uptime, gathered);
        },
        Command::Recover(runtime) => {
            if let Some(slug) = runtime@.active_project {
                lemma_slug_found(state.projects, slug, 0);
                if let Some(k) = slug_index(state.projects, slug, 0) {
                    lemma_id_known(state.projects, k, 0);
                }
            }
        },
        _ => {},
    }
}

// ---- snapshots ----------------------------------------------------------------------------

proof fn lemma_workspace_filed(list: Seq<WorkspaceInfoView>, w: WorkspaceInfoView)
    requires
        forall|i: int, j: int|
            0 <= i < j < list.len() ==> (#[trigger] list[i]).id < (#[trigger] list[j]).id,
    ensures
        list.contains(w) <==> by_id(list).dom().contains(w.id) && by_id(list)[w.id] == w,
    decreases list.len(),
{
    if list.len() > 0 {
        let front = list.drop_last();
        lemma_workspace_filed(front, w);
        if list.contains(w) {
            let k = choose|k: int| 0 <= k < list.len() && list[k] == w;
            if k < front.len() {
                assert(front[k] == w);
                assert(list[k].id < list[list.len() - 1].id);
            }
        } else {
            if front.contains(w) {
                let k = choose|k: int| 0 <= k < front.len() && front[k] == w;
                assert(list[k] == w);
            }
            assert(list[list.len() - 1] != w);
        }
    }
}

proof fn lemma_same_workspaces(a: Seq<WorkspaceInfoView>, b: Seq<WorkspaceInfoView>)
    requires
        forall|i: int, j: int|
            0 <= i < j < a.len() ==> (#[trigger] a[i]).id < (#[trigger] a[j]).id,
        forall|i: int, j: int|
            0 <= i < j < b.len() ==> (#[trigger] b[i]).id < (#[trigger] b[j]).id,
        forall|w: WorkspaceInfoView| #[trigger] a.contains(w) <==> b.contains(w),
    ensures
        a == b,
    decreases a.len(),
{
    if a.len() == 0 {
        if b.len() > 0 {
            assert(b.contains(b[0]));
            assert(a.contains(b[0]));
        }
        assert(a =~= b);
    } else {
        let last = a[a.len() - 1];
        assert(a.contains(last));
        assert(b.contains(last));
        let k = choose|k: int| 0 <= k < b.len() && b[k] == last;
        let other = b[b.len() - 1];
        assert(b.contains(other));
        assert(a.contains(other));
        let m = choose|m: int| 0 <= m < a.len() && a[m] == other;
        if k < b.len() - 1 {
            assert(b[k].id < b[b.len() - 1].id);
            if m < a.len() - 1 {
                assert(a[m].id < a[a.len() - 1].id);
            }
        }
        assert(last == other);
        let fa = a.drop_last();
        let fb = b.drop_last();
        assert forall|w: WorkspaceInfoView| #[trigger] fa.contains(w) <==> fb.contains(w) by {
            if fa.contains(w) {
                let i = choose|i: int| 0 <= i < fa.len() && fa[i] == w;
                assert(a[i] == w);
                assert(a.contains(w));
                let j = choose|j: int| 0 <= j < b.len() && b[j] == w;
                assert(a[i].id < a[a.len() - 1].id);
                assert(fb[j] == w);
            }
            if fb.contains(w) {
                let i = choose|i: int| 0 <= i < fb.len() && fb[i] == w;
                assert(b[i] == w);
                assert(b.contains(w));
                assert(a.contains(w));
                let j = choose|j: int| 0 <= j < a.len() && a[j] == w;
                assert(b[i].id < b[b.len() - 1].id);
                assert(fa[j] == w);
            }
        }
        lemma_same_workspaces(fa, fb);
        assert(a =~= fa.push(last));
        assert(b =~= fb.push(last));
    }
}

/// A state has one snapshot: its order leaves nothing open.
pub proof fn law_snapshot_is_unique(state: StateView, a: SnapshotView, b: SnapshotView)
    requires
        state.is_shown_by(a),
        state.is_shown_by(b),
    ensures
        a == b,
{
    lemma_window_list(state.world.windows, a.windows, b.windows);
    assert forall|w: WorkspaceInfoView| #[trigger]
        a.workspaces.contains(w) <==> b.workspaces.contains(w) by {
        lemma_workspace_filed(a.workspaces, w);
        lemma_workspace_filed(b.workspaces, w);
    }
    lemma_same_workspaces(a.workspaces, b.workspaces);
    assert(a =~= b);
}

} // verus!
