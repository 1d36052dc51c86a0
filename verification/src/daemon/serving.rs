//! What requests do to the state and what the client and the compositor are
//! told, field by field.

use vstd::prelude::*;

use crate::daemon::editing::order_index;
use crate::daemon::groups::{group_index, members, slots_of};
use crate::daemon::requests::{Gathered, Loaded, OutcomeView};
use crate::daemon::state::{id_index, slug_index, StateView};
use crate::daemon::tracking::{
    announces, is_silent, other_windows_stay, settings_stay, surroundings_stay,
};
use crate::domain::config::{config_problem, ConfigView};
use crate::domain::events::DomainEventView;
use crate::domain::listing::{law_listings_are_sorted, listing};
use crate::domain::model::{
    is_slug, law_slug_of_is_slug, slug_of, AppSlotView, GroupView, ProjectId, ProjectView,
};
use crate::domain::rules::{compilation, matching, CompiledRuleView};
use crate::domain::search::{project_scores, resolution, ResolutionView};
use crate::domain::world::{
    by_id, is_assigned_to, is_window_list, lemma_filed, lemma_filed_by_address, lemma_window_list,
    AssignmentSourceView, TrackedWindowView, WindowFactsView, WorkspaceInfoView, WorldView,
};
use crate::hypr::ctl::{DispatchView, WsTargetView};
use crate::hypr::model::canonical;
use crate::proto::{
    GroupOperation, ProjectSummaryView, ReplyView, RequestView, RuleMatchView, SnapshotView,
};
use crate::tables::keys_where;
use crate::text::precedes;

verus! {

// ---- what is meant -----------------------------------------------------------------------

/// Whether a query means the project at a place.
pub open spec fn is_meant(state: StateView, query: Seq<char>, i: int) -> bool {
    &&& 0 <= i < state.projects.len()
    &&& resolution(query, state.projects, project_scores(query, state.projects))
        == ResolutionView::Match(state.projects[i])
    &&& forall|j: int| 0 <= j < i ==> (#[trigger] state.projects[j]).id != state.projects[i].id
}

/// Whether a query means the project at a place, or it is the active one and
/// there is no query.
pub open spec fn is_meant_or_active(state: StateView, query: Option<Seq<char>>, i: int) -> bool {
    match query {
        Some(text) => is_meant(state, text, i),
        None => {
            &&& 0 <= i < state.projects.len()
            &&& state.world.active_project == Some(state.projects[i].id)
            &&& forall|j: int|
                0 <= j < i ==> (#[trigger] state.projects[j]).id != state.projects[i].id
        },
    }
}

/// Whether a group stands at a place among those of the project, and no other
/// with its slug before it.
pub open spec fn is_group_at(project: ProjectView, group: Seq<char>, g: int) -> bool {
    &&& 0 <= g < project.groups.len()
    &&& project.groups[g].slug == group
    &&& forall|h: int| 0 <= h < g ==> (#[trigger] project.groups[h]).slug != group
}

/// Whether every project but that at a place is as before.
pub open spec fn other_projects_stay(before: StateView, after: StateView, i: int) -> bool {
    &&& after.projects.len() == before.projects.len()
    &&& forall|j: int|
        0 <= j < before.projects.len() && j != i ==> #[trigger] after.projects[j]
            == before.projects[j]
}

/// Whether everything but the projects and the events is as before.
pub open spec fn all_but_projects_stay(before: StateView, after: StateView) -> bool {
    &&& after.world == before.world
    &&& after.config == before.config
    &&& after.registry == before.registry
    &&& after.rules == before.rules
    &&& after.config_dir == before.config_dir
    &&& after.version == before.version
    &&& after.update == before.update
}

proof fn lemma_id_at(projects: Seq<ProjectView>, i: int, from: int)
    requires
        0 <= from <= i < projects.len(),
        forall|j: int| from <= j < i ==> (#[trigger] projects[j]).id != projects[i].id,
    ensures
        id_index(projects, projects[i].id, from) == Some(i),
    decreases i - from,
{
    if from < i {
        assert(projects[from].id != projects[i].id);
        lemma_id_at(projects, i, from + 1);
    }
}

proof fn lemma_slug_at(projects: Seq<ProjectView>, i: int, from: int)
    requires
        0 <= from <= i < projects.len(),
        forall|j: int| from <= j < i ==> (#[trigger] projects[j]).slug != projects[i].slug,
    ensures
        slug_index(projects, projects[i].slug, from) == Some(i),
    decreases i - from,
{
    if from < i {
        assert(projects[from].slug != projects[i].slug);
        lemma_slug_at(projects, i, from + 1);
    }
}

proof fn lemma_slug_somewhere(projects: Seq<ProjectView>, slug: Seq<char>, from: int)
    requires
        0 <= from,
    ensures
        slug_index(projects, slug, from) matches Some(i) ==> from <= i < projects.len()
            && projects[i].slug == slug && forall|j: int|
            from <= j < i ==> (#[trigger] projects[j]).slug != slug,
    decreases projects.len() - from,
{
    if from < projects.len() {
        lemma_slug_somewhere(projects, slug, from + 1);
    }
}

proof fn lemma_slug_known(projects: Seq<ProjectView>, i: int, from: int)
    requires
        0 <= from <= i < projects.len(),
    ensures
        slug_index(projects, projects[i].slug, from) is Some,
    decreases i - from,
{
    if from < i && projects[from].slug != projects[i].slug {
        lemma_slug_known(projects, i, from + 1);
    }
}

proof fn lemma_group_at(groups: Seq<GroupView>, g: int, from: int)
    requires
        0 <= from <= g < groups.len(),
        forall|h: int| from <= h < g ==> (#[trigger] groups[h]).slug != groups[g].slug,
    ensures
        group_index(groups, groups[g].slug, from) == Some(g),
    decreases g - from,
{
    if from < g {
        assert(groups[from].slug != groups[g].slug);
        lemma_group_at(groups, g, from + 1);
    }
}

proof fn lemma_group_nowhere(groups: Seq<GroupView>, slug: Seq<char>, from: int)
    requires
        0 <= from,
        forall|h: int| from <= h < groups.len() ==> (#[trigger] groups[h]).slug != slug,
    ensures
        group_index(groups, slug, from) is None,
    decreases groups.len() - from,
{
    if from < groups.len() {
        assert(groups[from].slug != slug);
        lemma_group_nowhere(groups, slug, from + 1);
    }
}

// ---- switching and assigning --------------------------------------------------------------

/// Whatever project a switch means, the compositor is told last to go to that
/// project's workspace. Before that the workspace is moved to the monitor the
/// project prefers, exactly if that is wanted, the monitor is connected and the
/// workspace exists. The project is the active one from then on.
pub proof fn law_switching_goes_to_the_workspace(
    state: StateView,
    query: Seq<char>,
    i: int,
    id: ProjectId,
    uptime: u64,
    gathered: Gathered,
    after: StateView,
    outcome: OutcomeView,
)
    requires
        is_meant(state, query, i),
        (after, outcome) == state.answered(
            RequestView::ProjectSwitch { project: query },
            id,
            uptime,
            gathered,
        ),
    ensures
        outcome is DispatchThen,
        ({
            let project = state.projects[i];
            let told = outcome->dispatches;
            let target = WsTargetView::Name(state.config.general.workspace_prefix + project.slug);
            let exists_there = exists|w: i64| #[trigger]
                state.world.workspaces.dom().contains(w) && state.world.workspaces[w].name
                    == state.config.general.workspace_prefix + project.slug;
            let connected = project.monitor is Some && exists|m: int|
                0 <= m < state.world.monitors.len() && (#[trigger] state.world.monitors[m]).name
                    == project.monitor->0;
            let moves = state.config.switch.move_workspace_to_preferred_monitor && connected
                && exists_there;
            &&& told.len() > 0
            &&& told.last() == DispatchView::Workspace(target)
            &&& told.len() == if moves {
                2int
            } else {
                1int
            }
            &&& moves ==> told[0] == (DispatchView::MoveWorkspaceToMonitor {
                workspace: target,
                monitor: project.monitor->0,
            })
            &&& after.world == (WorldView { active_project: Some(project.id), ..state.world })
            &&& settings_stay(state, after)
            &&& announces(
                state,
                after,
                DomainEventView::ProjectSwitched { slug: Some(project.slug) },
            )
            &&& outcome->DispatchThen_result matches ReplyView::Project(shown) && shown.slug
                == project.slug && shown.name == project.name && shown.active && shown.workspace
                == state.config.general.workspace_prefix + project.slug
        }),
{
    lemma_id_at(state.projects, i, 0);
    assert(after.outbox.drop_last() =~= state.outbox);
}

/// A window that the user assigns belongs to the project that was meant, in
/// the group that was named or in none, by hand; it is moved to the project's
/// workspace without being followed, and nothing else changes.
pub proof fn law_assigning_is_by_hand(
    state: StateView,
    address: Seq<char>,
    query: Seq<char>,
    group: Option<Seq<char>>,
    i: int,
    id: ProjectId,
    uptime: u64,
    gathered: Gathered,
    after: StateView,
    outcome: OutcomeView,
)
    requires
        is_meant(state, query, i),
        state.world.windows.dom().contains(address),
        group is Some ==> is_slug(group->0) && exists|g: int|
            0 <= g < state.projects[i].groups.len() && (
            #[trigger] state.projects[i].groups[g]).slug == group->0,
        (after, outcome) == state.answered(
            RequestView::WindowAssign { address, project: query, group },
            id,
            uptime,
            gathered,
        ),
    ensures
        ({
            let project = state.projects[i];
            &&& after.world.windows.dom() == state.world.windows.dom()
            &&& after.world.windows[address] == (TrackedWindowView {
                assignment: Some((project.id, group)),
                assigned_by: Some(AssignmentSourceView::Manual),
                ..state.world.windows[address]
            })
            &&& other_windows_stay(state, after, address)
            &&& surroundings_stay(state, after)
            &&& settings_stay(state, after)
            &&& is_silent(state, after)
            &&& outcome is DispatchThen
            &&& outcome->dispatches == seq![
                DispatchView::MoveToWorkspaceSilent {
                    target: WsTargetView::Name(
                        state.config.general.workspace_prefix + project.slug,
                    ),
                    address: canonical(address),
                },
            ]
            &&& outcome->DispatchThen_result == (ReplyView::Assigned {
                address,
                project: project.slug,
            })
        }),
{
    assert(after.world.windows.dom() =~= state.world.windows.dom());
}

/// An assignment to a window that is not there, to no single project, or to a
/// group that the project does not have is refused and changes nothing.
pub proof fn law_impossible_assignments_are_refused(
    state: StateView,
    address: Seq<char>,
    query: Seq<char>,
    group: Option<Seq<char>>,
    id: ProjectId,
    uptime: u64,
    gathered: Gathered,
    after: StateView,
    outcome: OutcomeView,
)
    requires
        ({
            let meant = resolution(query, state.projects, project_scores(query, state.projects));
            ||| !state.world.windows.dom().contains(address)
            ||| meant !is Match
            ||| group is Some && forall|g: int|
                0 <= g < meant->Match_0.groups.len() ==> (#[trigger] meant->Match_0.groups[g]).slug
                    != group->0
        }),
        (after, outcome) == state.answered(
            RequestView::WindowAssign { address, project: query, group },
            id,
            uptime,
            gathered,
        ),
    ensures
        after == state,
        outcome matches OutcomeView::Reply(Err(_)),
{
}

// ---- projects ----------------------------------------------------------------------------

/// A project is created exactly if the slug that was given, or else that of
/// its name, is a slug, no project has it and no workspace has the name that
/// the project's would get. It comes last, under the fresh id, with nothing in
/// it.
pub proof fn law_created_projects_start_empty(
    state: StateView,
    name: Seq<char>,
    slug: Option<Seq<char>>,
    id: ProjectId,
    uptime: u64,
    gathered: Gathered,
    after: StateView,
    outcome: OutcomeView,
)
    requires
        (after, outcome) == state.answered(
            RequestView::ProjectCreate { name, slug },
            id,
            uptime,
            gathered,
        ),
    ensures
        ({
            let wanted = if slug is Some {
                slug
            } else {
                slug_of(name)
            };
            let possible = wanted is Some && is_slug(wanted->0) && (forall|j: int|
                0 <= j < state.projects.len() ==> (#[trigger] state.projects[j]).slug != wanted->0)
                && (forall|w: i64| #[trigger]
                state.world.workspaces.dom().contains(w) ==> state.world.workspaces[w].name
                    != state.config.general.workspace_prefix + wanted->0);
            &&& possible ==> {
                let made = after.projects.last();
                &&& after.projects.len() == state.projects.len() + 1
                &&& after.projects.drop_last() == state.projects
                &&& made.id == id
                &&& made.slug == wanted->0
                &&& made.name == name
                &&& made.groups.len() == 0
                &&& made.apps.len() == 0
                &&& made.monitor is None
                &&& made.position == 0
                &&& all_but_projects_stay(state, after)
                &&& announces(state, after, DomainEventView::ProjectCreated { slug: made.slug, name })
                &&& outcome matches OutcomeView::Reply(Ok(ReplyView::Project(shown))) && shown.slug
                    == made.slug && shown.name == name && shown.groups.len() == 0
                    && shown.workspace == state.config.general.workspace_prefix + made.slug
            }
            &&& !possible ==> after == state && outcome matches OutcomeView::Reply(Err(_))
        }),
{
    law_slug_of_is_slug(name);
    let wanted = if slug is Some {
        slug
    } else {
        slug_of(name)
    };
    if wanted is Some {
        lemma_slug_somewhere(state.projects, wanted->0, 0);
        if slug_index(state.projects, wanted->0, 0) is Some {
            let j = slug_index(state.projects, wanted->0, 0)->0;
            assert(state.projects[j].slug == wanted->0);
        } else if forall|j: int|
            0 <= j < state.projects.len() ==> (#[trigger] state.projects[j]).slug != wanted->0 {
        } else {
            let j = choose|j: int|
                0 <= j < state.projects.len() && (#[trigger] state.projects[j]).slug == wanted->0;
            lemma_slug_known(state.projects, j, 0);
        }
    }
    if after.projects.len() > state.projects.len() {
        assert(after.projects.drop_last() =~= state.projects);
        assert(after.outbox.drop_last() =~= state.outbox);
    }
}

/// Renaming changes the display name of the one project with that slug and
/// nothing else of it; its slug, and with it its workspace, stays.
pub proof fn law_renaming_changes_the_name_alone(
    state: StateView,
    slug: Seq<char>,
    name: Seq<char>,
    i: int,
    id: ProjectId,
    uptime: u64,
    gathered: Gathered,
    after: StateView,
    outcome: OutcomeView,
)
    requires
        0 <= i < state.projects.len(),
        state.projects[i].slug == slug,
        forall|j: int| 0 <= j < i ==> (#[trigger] state.projects[j]).slug != slug,
        (after, outcome) == state.answered(
            RequestView::ProjectRename { slug, name },
            id,
            uptime,
            gathered,
        ),
    ensures
        after.projects[i].name == name,
        after.projects[i] == (ProjectView { name, ..state.projects[i] }),
        other_projects_stay(state, after, i),
        all_but_projects_stay(state, after),
        announces(state, after, DomainEventView::ProjectRenamed { slug, name }),
        outcome matches OutcomeView::Reply(Ok(ReplyView::Project(shown))) && shown.slug == slug
            && shown.name == name,
{
    lemma_slug_at(state.projects, i, 0);
    assert(after.outbox.drop_last() =~= state.outbox);
}

/// Deleting takes out the one project with that slug; the others stay as they
/// are and in their order. Its windows are released, and stay where they are.
pub proof fn law_deleting_takes_one_project_out(
    state: StateView,
    slug: Seq<char>,
    i: int,
    id: ProjectId,
    uptime: u64,
    gathered: Gathered,
    after: StateView,
    outcome: OutcomeView,
)
    requires
        0 <= i < state.projects.len(),
        state.projects[i].slug == slug,
        forall|j: int| 0 <= j < i ==> (#[trigger] state.projects[j]).slug != slug,
        (after, outcome) == state.answered(
            RequestView::ProjectDelete { slug },
            id,
            uptime,
            gathered,
        ),
    ensures
        after.projects.len() == state.projects.len() - 1,
        forall|j: int| 0 <= j < i ==> #[trigger] after.projects[j] == state.projects[j],
        forall|j: int|
            i <= j < after.projects.len() ==> #[trigger] after.projects[j] == state.projects[j + 1],
        after.world.windows.dom() == state.world.windows.dom(),
        forall|a: Seq<char>| #[trigger]
            state.world.windows.dom().contains(a) ==> {
                let had = state.world.windows[a];
                let has = after.world.windows[a];
                match had.assignment {
                    Some((owner, _)) if owner == state.projects[i].id => has == (
                    TrackedWindowView { assignment: None, assigned_by: None, ..had }),
                    _ => has == had,
                }
            },
        state.world.active_project == Some(state.projects[i].id) ==> after.world.active_project
            is None,
        state.world.active_project != Some(state.projects[i].id) ==> after.world.active_project
            == state.world.active_project,
        after.outbox.len() > state.outbox.len(),
        after.outbox.last().data == (DomainEventView::ProjectDeleted { slug }),
        outcome == OutcomeView::Reply(Ok(ReplyView::Deleted(slug))),
{
    lemma_slug_at(state.projects, i, 0);
    assert(after.world.windows.dom() =~= state.world.windows.dom());
}

/// Exporting hands out the very project that was meant, under the version of
/// the file format, and so does asking for its details; neither changes
/// anything.
pub proof fn law_projects_are_shown_as_they_are(
    state: StateView,
    query: Seq<char>,
    i: int,
    id: ProjectId,
    uptime: u64,
    gathered: Gathered,
)
    requires
        is_meant(state, query, i),
    ensures
        state.answered(RequestView::ProjectExport { project: query }, id, uptime, gathered) == (
            state,
            OutcomeView::Reply(
                Ok(ReplyView::Exported { version: 1, project: state.projects[i] }),
            ),
        ),
        state.answered(RequestView::ProjectGet { project: query }, id, uptime, gathered) == (
            state,
            OutcomeView::Reply(Ok(ReplyView::Details(state.projects[i]))),
        ),
{
}

// ---- groups ------------------------------------------------------------------------------

proof fn lemma_members(windows: Seq<TrackedWindowView>, project: ProjectId, group: Seq<char>)
    ensures
        forall|a: Seq<char>| #[trigger]
            members(windows, project, group).contains(a) <==> exists|w: int|
                0 <= w < windows.len() && (#[trigger] windows[w]).address == a
                    && windows[w].assignment == Some((project, Some(group))),
    decreases windows.len(),
{
    if windows.len() > 0 {
        let front = windows.drop_last();
        lemma_members(front, project, group);
        let before = members(front, project, group);
        let now = members(windows, project, group);
        assert forall|a: Seq<char>| #[trigger] now.contains(a) <==> exists|w: int|
            0 <= w < windows.len() && (#[trigger] windows[w]).address == a && windows[w].assignment
                == Some((project, Some(group))) by {
            if now.contains(a) {
                let k = choose|k: int| 0 <= k < now.len() && now[k] == a;
                if k < before.len() {
                    assert(before[k] == a);
                    assert(before.contains(a));
                    let w = choose|w: int|
                        0 <= w < front.len() && (#[trigger] front[w]).address == a
                            && front[w].assignment == Some((project, Some(group)));
                    assert(windows[w].address == a);
                } else {
                    assert(windows[windows.len() - 1].address == a);
                }
            }
            if exists|w: int|
                0 <= w < windows.len() && (#[trigger] windows[w]).address == a
                    && windows[w].assignment == Some((project, Some(group))) {
                let w = choose|w: int|
                    0 <= w < windows.len() && (#[trigger] windows[w]).address == a
                        && windows[w].assignment == Some((project, Some(group)));
                if w < front.len() {
                    assert(front[w].address == a);
                    assert(before.contains(a));
                    let k = choose|k: int| 0 <= k < before.len() && before[k] == a;
                    assert(now[k] == a);
                } else {
                    assert(now[before.len() as int] == a);
                }
            }
        }
    }
}

/// The members of a group are the windows assigned to it, wherever they are.
proof fn lemma_members_of(
    state: StateView,
    list: Seq<TrackedWindowView>,
    project: ProjectId,
    group: Seq<char>,
)
    requires
        is_window_list(state.world.windows, list),
    ensures
        forall|a: Seq<char>| #[trigger]
            state.members_of(project, group).contains(a) <==> state.world.windows.dom().contains(a)
                && state.world.windows[a].assignment == Some((project, Some(group))),
{
    lemma_window_list(state.world.windows, list, list);
    lemma_members(list, project, group);
    lemma_filed_by_address(list);
    assert forall|a: Seq<char>| #[trigger]
        state.members_of(project, group).contains(a) <==> state.world.windows.dom().contains(a)
            && state.world.windows[a].assignment == Some((project, Some(group))) by {
        if state.members_of(project, group).contains(a) {
            let w = choose|w: int|
                0 <= w < list.len() && (#[trigger] list[w]).address == a && list[w].assignment
                    == Some((project, Some(group)));
            assert(list.contains(list[w]));
            lemma_filed(list, list[w]);
        }
        if state.world.windows.dom().contains(a) && state.world.windows[a].assignment == Some(
            (project, Some(group)),
        ) {
            lemma_filed(list, state.world.windows[a]);
            let w = choose|w: int| 0 <= w < list.len() && list[w] == state.world.windows[a];
            assert(list[w].address == a);
        }
    }
}

/// A group is created, with the name that was given and shown, exactly if its
/// slug is one and the project has none with it.
pub proof fn law_created_groups_are_shown(
    state: StateView,
    query: Seq<char>,
    name: Seq<char>,
    slug: Option<Seq<char>>,
    i: int,
    id: ProjectId,
    uptime: u64,
    gathered: Gathered,
    after: StateView,
    outcome: OutcomeView,
)
    requires
        is_meant(state, query, i),
        (after, outcome) == state.answered(
            RequestView::GroupCreate { project: query, name, slug },
            id,
            uptime,
            gathered,
        ),
    ensures
        ({
            let wanted = if slug is Some {
                slug
            } else {
                slug_of(name)
            };
            let project = state.projects[i];
            let possible = wanted is Some && is_slug(wanted->0) && (forall|g: int|
                0 <= g < project.groups.len() ==> (#[trigger] project.groups[g]).slug
                    != wanted->0);
            &&& possible ==> {
                let groups = after.projects[i].groups;
                &&& groups.len() == project.groups.len() + 1
                &&& groups.drop_last() == project.groups
                &&& groups.last().slug == wanted->0
                &&& groups.last().name == name
                &&& !groups.last().hidden
                &&& after.projects[i] == (ProjectView { groups, ..project })
                &&& other_projects_stay(state, after, i)
                &&& all_but_projects_stay(state, after)
                &&& announces(
                    state,
                    after,
                    DomainEventView::GroupChanged { project: project.slug, group: wanted->0 },
                )
                &&& outcome == OutcomeView::Reply(
                    Ok(
                        ReplyView::Group {
                            operation: GroupOperation::Created,
                            project: project.slug,
                            group: wanted->0,
                            windows: 0,
                        },
                    ),
                )
            }
            &&& !possible ==> after == state && outcome matches OutcomeView::Reply(Err(_))
        }),
{
    lemma_id_at(state.projects, i, 0);
    law_slug_of_is_slug(name);
    let project = state.projects[i];
    let wanted = if slug is Some {
        slug
    } else {
        slug_of(name)
    };
    if wanted is Some {
        if forall|g: int|
            0 <= g < project.groups.len() ==> (#[trigger] project.groups[g]).slug != wanted->0 {
            lemma_group_nowhere(project.groups, wanted->0, 0);
        } else {
            let g = choose|g: int|
                0 <= g < project.groups.len() && (#[trigger] project.groups[g]).slug == wanted->0;
            lemma_group_known(project.groups, g, 0);
        }
    }
    if after != state {
        assert(after.projects[i].groups.drop_last() =~= project.groups);
        assert(after.outbox.drop_last() =~= state.outbox);
    }
}

proof fn lemma_group_known(groups: Seq<GroupView>, g: int, from: int)
    requires
        0 <= from <= g < groups.len(),
    ensures
        group_index(groups, groups[g].slug, from) is Some,
    decreases g - from,
{
    if from < g && groups[from].slug != groups[g].slug {
        lemma_group_known(groups, g, from + 1);
    }
}

/// A window that is added to a group belongs to it by hand and is brought to
/// where the group is: to its parking workspace while it is hidden, else to the
/// project's workspace.
pub proof fn law_added_windows_join_the_group(
    state: StateView,
    query: Seq<char>,
    group: Seq<char>,
    address: Seq<char>,
    i: int,
    g: int,
    id: ProjectId,
    uptime: u64,
    gathered: Gathered,
    after: StateView,
    outcome: OutcomeView,
)
    requires
        is_meant(state, query, i),
        is_group_at(state.projects[i], group, g),
        state.world.windows.dom().contains(address),
        (after, outcome) == state.answered(
            RequestView::GroupAdd { project: query, group, address },
            id,
            uptime,
            gathered,
        ),
    ensures
        ({
            let project = state.projects[i];
            let prefix = state.config.general.workspace_prefix;
            &&& after.world.windows[address] == (TrackedWindowView {
                assignment: Some((project.id, Some(group))),
                assigned_by: Some(AssignmentSourceView::Manual),
                ..state.world.windows[address]
            })
            &&& other_windows_stay(state, after, address)
            &&& surroundings_stay(state, after)
            &&& settings_stay(state, after)
            &&& announces(
                state,
                after,
                DomainEventView::GroupChanged { project: project.slug, group },
            )
            &&& outcome is DispatchThen
            &&& outcome->dispatches == seq![
                DispatchView::MoveToWorkspaceSilent {
                    target: WsTargetView::Name(
                        if project.groups[g].hidden {
                            prefix + project.slug + seq![':'] + group
                        } else {
                            prefix + project.slug
                        },
                    ),
                    address: canonical(address),
                },
            ]
            &&& outcome->DispatchThen_result == (ReplyView::Group {
                operation: GroupOperation::Added,
                project: project.slug,
                group,
                windows: 1,
            })
        }),
{
    lemma_id_at(state.projects, i, 0);
    lemma_group_at(state.projects[i].groups, g, 0);
    assert(after.outbox.drop_last() =~= state.outbox);
}

/// A window that is taken out of its group stays with the project, in no
/// group, and comes back to the project's workspace if the group was hidden. A
/// window that is not in the group cannot be taken out of it.
pub proof fn law_removed_windows_leave_the_group(
    state: StateView,
    query: Seq<char>,
    group: Seq<char>,
    address: Seq<char>,
    i: int,
    g: int,
    id: ProjectId,
    uptime: u64,
    gathered: Gathered,
    after: StateView,
    outcome: OutcomeView,
)
    requires
        is_meant(state, query, i),
        is_group_at(state.projects[i], group, g),
        state.world.windows.dom().contains(address),
        (after, outcome) == state.answered(
            RequestView::GroupRemove { project: query, group, address },
            id,
            uptime,
            gathered,
        ),
    ensures
        ({
            let project = state.projects[i];
            let prefix = state.config.general.workspace_prefix;
            let member = state.world.windows[address].assignment == Some((project.id, Some(group)));
            &&& member ==> {
                &&& after.world.windows[address] == (TrackedWindowView {
                    assignment: Some((project.id, None)),
                    assigned_by: Some(AssignmentSourceView::Manual),
                    ..state.world.windows[address]
                })
                &&& other_windows_stay(state, after, address)
                &&& surroundings_stay(state, after)
                &&& settings_stay(state, after)
                &&& announces(
                    state,
                    after,
                    DomainEventView::GroupChanged { project: project.slug, group },
                )
                &&& outcome is DispatchThen
                &&& project.groups[g].hidden ==> outcome->dispatches == seq![
                    DispatchView::MoveToWorkspaceSilent {
                        target: WsTargetView::Name(prefix + project.slug),
                        address: canonical(address),
                    },
                ]
                &&& !project.groups[g].hidden ==> outcome->dispatches.len() == 0
                &&& outcome->DispatchThen_result == (ReplyView::Group {
                    operation: GroupOperation::Removed,
                    project: project.slug,
                    group,
                    windows: 1,
                })
            }
            &&& !member ==> after == state && outcome matches OutcomeView::Reply(Err(_))
        }),
{
    lemma_id_at(state.projects, i, 0);
    lemma_group_at(state.projects[i].groups, g, 0);
    if after != state {
        assert(after.outbox.drop_last() =~= state.outbox);
    }
}

/// Whether a dispatch moves a window of a group, without following it.
pub open spec fn moves_member(
    state: StateView,
    project: ProjectId,
    group: Seq<char>,
    target: WsTargetView,
    told: DispatchView,
) -> bool {
    exists|a: Seq<char>| #[trigger]
        state.world.windows.dom().contains(a) && state.world.windows[a].assignment == Some(
            (project, Some(group)),
        ) && told == (DispatchView::MoveToWorkspaceSilent { target, address: canonical(a) })
}

/// Hiding a group marks it hidden and sends every one of its windows, and no
/// other, to its parking workspace; showing it marks it shown and sends them to
/// the project's workspace.
pub proof fn law_groups_are_parked_and_brought_back(
    state: StateView,
    query: Seq<char>,
    group: Seq<char>,
    hidden: bool,
    i: int,
    g: int,
    list: Seq<TrackedWindowView>,
    id: ProjectId,
    uptime: u64,
    gathered: Gathered,
    after: StateView,
    outcome: OutcomeView,
)
    requires
        is_meant(state, query, i),
        is_group_at(state.projects[i], group, g),
        is_window_list(state.world.windows, list),
        (after, outcome) == state.answered(
            if hidden {
                RequestView::GroupHide { project: query, group }
            } else {
                RequestView::GroupShow { project: query, group }
            },
            id,
            uptime,
            gathered,
        ),
    ensures
        ({
            let project = state.projects[i];
            let prefix = state.config.general.workspace_prefix;
            let target = WsTargetView::Name(
                if hidden {
                    prefix + project.slug + seq![':'] + group
                } else {
                    prefix + project.slug
                },
            );
            let told = outcome->dispatches;
            &&& after.projects[i].groups.len() == project.groups.len()
            &&& after.projects[i].groups[g] == (GroupView { hidden, ..project.groups[g] })
            &&& forall|h: int|
                0 <= h < project.groups.len() && h != g
                    ==> #[trigger] after.projects[i].groups[h] == project.groups[h]
            &&& after.projects[i] == (ProjectView {
                groups: after.projects[i].groups,
                ..project
            })
            &&& other_projects_stay(state, after, i)
            &&& all_but_projects_stay(state, after)
            &&& announces(
                state,
                after,
                DomainEventView::GroupChanged { project: project.slug, group },
            )
            &&& outcome is DispatchThen
            &&& forall|k: int|
                0 <= k < told.len() ==> moves_member(
                    state,
                    project.id,
                    group,
                    target,
                    #[trigger] told[k],
                )
            &&& forall|a: Seq<char>| #[trigger]
                state.world.windows.dom().contains(a) && state.world.windows[a].assignment == Some(
                    (project.id, Some(group)),
                ) ==> told.contains(
                    DispatchView::MoveToWorkspaceSilent { target, address: canonical(a) },
                )
        }),
{
    let project = state.projects[i];
    lemma_id_at(state.projects, i, 0);
    lemma_group_at(project.groups, g, 0);
    assert(after.outbox.drop_last() =~= state.outbox);
    lemma_members_of(state, list, project.id, group);
    let windows = state.members_of(project.id, group);
    let told = outcome->dispatches;
    let prefix = state.config.general.workspace_prefix;
    let target = WsTargetView::Name(
        if hidden {
            prefix + project.slug + seq![':'] + group
        } else {
            prefix + project.slug
        },
    );
    assert(target == WsTargetView::Name(
        state.workspace_of_group(project.slug, group, hidden),
    ));
    assert forall|k: int| 0 <= k < told.len() implies moves_member(
        state,
        project.id,
        group,
        target,
        #[trigger] told[k],
    ) by {
        assert(windows.contains(windows[k]));
        assert(state.world.windows.dom().contains(windows[k]));
    }
    assert forall|a: Seq<char>| #[trigger]
        state.world.windows.dom().contains(a) && state.world.windows[a].assignment == Some(
            (project.id, Some(group)),
        ) implies told.contains(
        DispatchView::MoveToWorkspaceSilent { target, address: canonical(a) },
    ) by {
        assert(windows.contains(a));
        let k = choose|k: int| 0 <= k < windows.len() && windows[k] == a;
        assert(told[k] == (DispatchView::MoveToWorkspaceSilent { target, address: canonical(a) }));
    }
}

/// Going to a group goes to the workspace that it is on, and then to one of its
/// windows if it has any; nothing changes.
pub proof fn law_focusing_a_group_goes_to_it(
    state: StateView,
    query: Seq<char>,
    group: Seq<char>,
    i: int,
    g: int,
    list: Seq<TrackedWindowView>,
    id: ProjectId,
    uptime: u64,
    gathered: Gathered,
    after: StateView,
    outcome: OutcomeView,
)
    requires
        is_meant(state, query, i),
        is_group_at(state.projects[i], group, g),
        is_window_list(state.world.windows, list),
        (after, outcome) == state.answered(
            RequestView::GroupFocus { project: query, group },
            id,
            uptime,
            gathered,
        ),
    ensures
        after == state,
        outcome is DispatchThen,
        ({
            let project = state.projects[i];
            let prefix = state.config.general.workspace_prefix;
            let told = outcome->dispatches;
            &&& told.len() > 0
            &&& told[0] == DispatchView::Workspace(
                WsTargetView::Name(
                    if project.groups[g].hidden {
                        prefix + project.slug + seq![':'] + group
                    } else {
                        prefix + project.slug
                    },
                ),
            )
            &&& forall|a: Seq<char>| #[trigger]
                state.world.windows.dom().contains(a) && state.world.windows[a].assignment == Some(
                    (project.id, Some(group)),
                ) ==> told.len() == 2
            &&& told.len() > 1 ==> told.len() == 2 && exists|a: Seq<char>| #[trigger]
                state.world.windows.dom().contains(a) && state.world.windows[a].assignment == Some(
                    (project.id, Some(group)),
                ) && told[1] == DispatchView::FocusWindow(canonical(a))
        }),
{
    let project = state.projects[i];
    lemma_id_at(state.projects, i, 0);
    lemma_group_at(project.groups, g, 0);
    lemma_members_of(state, list, project.id, group);
    let windows = state.members_of(project.id, group);
    if windows.len() > 0 {
        assert(windows.contains(windows[0]));
        assert(state.world.windows.dom().contains(windows[0]));
    }
    assert forall|a: Seq<char>| #[trigger]
        state.world.windows.dom().contains(a) && state.world.windows[a].assignment == Some(
            (project.id, Some(group)),
        ) implies outcome->dispatches.len() == 2 by {
        assert(windows.contains(a));
    }
}

proof fn lemma_slots_of(apps: Seq<AppSlotView>, group: Seq<char>, inside: bool)
    ensures
        forall|slot: AppSlotView| #[trigger]
            slots_of(apps, group, inside).contains(slot) <==> apps.contains(slot) && (slot.group
                == Some(group)) == inside,
    decreases apps.len(),
{
    if apps.len() > 0 {
        let front = apps.drop_last();
        lemma_slots_of(front, group, inside);
        let before = slots_of(front, group, inside);
        let now = slots_of(apps, group, inside);
        assert forall|slot: AppSlotView| #[trigger] now.contains(slot) <==> apps.contains(slot) && (
        slot.group == Some(group)) == inside by {
            if now.contains(slot) {
                let k = choose|k: int| 0 <= k < now.len() && now[k] == slot;
                if k < before.len() {
                    assert(before[k] == slot);
                    assert(before.contains(slot));
                    let j = choose|j: int| 0 <= j < front.len() && front[j] == slot;
                    assert(apps[j] == slot);
                } else {
                    assert(apps[apps.len() - 1] == slot);
                }
            }
            if apps.contains(slot) && (slot.group == Some(group)) == inside {
                let j = choose|j: int| 0 <= j < apps.len() && apps[j] == slot;
                if j < front.len() {
                    assert(front[j] == slot);
                    assert(before.contains(slot));
                    let k = choose|k: int| 0 <= k < before.len() && before[k] == slot;
                    assert(now[k] == slot);
                } else {
                    assert(now[before.len() as int] == slot);
                }
            }
        }
    }
}

/// A group that moves to another project takes its slots and its windows
/// along: they belong to the other project afterwards, and every window is
/// brought to where the group is there. All else stays where it is.
pub proof fn law_moved_groups_take_everything_along(
    state: StateView,
    query: Seq<char>,
    group: Seq<char>,
    to: Seq<char>,
    i: int,
    g: int,
    j: int,
    list: Seq<TrackedWindowView>,
    id: ProjectId,
    uptime: u64,
    gathered: Gathered,
    after: StateView,
    outcome: OutcomeView,
)
    requires
        is_meant(state, query, i),
        is_group_at(state.projects[i], group, g),
        is_meant(state, to, j),
        i != j,
        forall|h: int|
            0 <= h < state.projects[j].groups.len() ==> (
            #[trigger] state.projects[j].groups[h]).slug != group,
        is_window_list(state.world.windows, list),
        (after, outcome) == state.answered(
            RequestView::GroupMove { project: query, group, to },
            id,
            uptime,
            gathered,
        ),
    ensures
        ({
            let source = state.projects[i];
            let target = state.projects[j];
            let left = after.projects[i];
            let joined = after.projects[j];
            let prefix = state.config.general.workspace_prefix;
            let place = WsTargetView::Name(
                if source.groups[g].hidden {
                    prefix + target.slug + seq![':'] + group
                } else {
                    prefix + target.slug
                },
            );
            let told = outcome->dispatches;
            &&& after.projects.len() == state.projects.len()
            &&& forall|k: int|
                0 <= k < state.projects.len() && k != i && k != j ==> #[trigger] after.projects[k]
                    == state.projects[k]
            &&& left.groups == source.groups.remove(g)
            &&& joined.groups == target.groups.push(source.groups[g])
            &&& forall|slot: AppSlotView| #[trigger]
                left.apps.contains(slot) <==> source.apps.contains(slot) && slot.group != Some(
                    group,
                )
            &&& forall|slot: AppSlotView| #[trigger]
                joined.apps.contains(slot) <==> target.apps.contains(slot) || (
                source.apps.contains(slot) && slot.group == Some(group))
            &&& left == (ProjectView { groups: left.groups, apps: left.apps, ..source })
            &&& joined == (ProjectView { groups: joined.groups, apps: joined.apps, ..target })
            &&& after.world.windows.dom() == state.world.windows.dom()
            &&& forall|a: Seq<char>| #[trigger]
                state.world.windows.dom().contains(a) ==> {
                    let had = state.world.windows[a];
                    let has = after.world.windows[a];
                    if had.assignment == Some((source.id, Some(group))) {
                        has == (TrackedWindowView {
                            assignment: Some((target.id, Some(group))),
                            assigned_by: Some(AssignmentSourceView::Manual),
                            ..had
                        })
                    } else {
                        has == had
                    }
                }
            &&& surroundings_stay(state, after)
            &&& outcome is DispatchThen
            &&& forall|k: int|
                0 <= k < told.len() ==> moves_member(
                    state,
                    source.id,
                    group,
                    place,
                    #[trigger] told[k],
                )
            &&& forall|a: Seq<char>| #[trigger]
                state.world.windows.dom().contains(a) && state.world.windows[a].assignment == Some(
                    (source.id, Some(group)),
                ) ==> told.contains(
                    DispatchView::MoveToWorkspaceSilent { target: place, address: canonical(a) },
                )
        }),
{
    let source = state.projects[i];
    let target = state.projects[j];
    let prefix = state.config.general.workspace_prefix;
    lemma_id_at(state.projects, i, 0);
    lemma_id_at(state.projects, j, 0);
    lemma_group_at(source.groups, g, 0);
    lemma_group_nowhere(target.groups, group, 0);
    lemma_members_of(state, list, source.id, group);
    lemma_slots_of(source.apps, group, false);
    lemma_slots_of(source.apps, group, true);
    let moved = slots_of(source.apps, group, true);
    let joined = after.projects[j];
    assert(joined.apps == target.apps + moved);
    assert forall|slot: AppSlotView| #[trigger] joined.apps.contains(slot) <==> target.apps.contains(
        slot,
    ) || (source.apps.contains(slot) && slot.group == Some(group)) by {
        if joined.apps.contains(slot) {
            let k = choose|k: int| 0 <= k < joined.apps.len() && joined.apps[k] == slot;
            if k < target.apps.len() {
                assert(target.apps[k] == slot);
            } else {
                assert(moved[k - target.apps.len()] == slot);
                assert(moved.contains(slot));
            }
        }
        if target.apps.contains(slot) {
            let k = choose|k: int| 0 <= k < target.apps.len() && target.apps[k] == slot;
            assert(joined.apps[k] == slot);
        }
        if source.apps.contains(slot) && slot.group == Some(group) {
            assert(moved.contains(slot));
            let k = choose|k: int| 0 <= k < moved.len() && moved[k] == slot;
            assert(joined.apps[target.apps.len() + k] == slot);
        }
    }
    assert(after.world.windows.dom() =~= state.world.windows.dom());
    let windows = state.members_of(source.id, group);
    let told = outcome->dispatches;
    let place = WsTargetView::Name(
        if source.groups[g].hidden {
            prefix + target.slug + seq![':'] + group
        } else {
            prefix + target.slug
        },
    );
    assert(place == WsTargetView::Name(
        state.workspace_of_group(target.slug, group, source.groups[g].hidden),
    ));
    assert forall|k: int| 0 <= k < told.len() implies moves_member(
        state,
        source.id,
        group,
        place,
        #[trigger] told[k],
    ) by {
        assert(windows.contains(windows[k]));
        assert(state.world.windows.dom().contains(windows[k]));
    }
    assert forall|a: Seq<char>| #[trigger]
        state.world.windows.dom().contains(a) && state.world.windows[a].assignment == Some(
            (source.id, Some(group)),
        ) implies told.contains(
        DispatchView::MoveToWorkspaceSilent { target: place, address: canonical(a) },
    ) by {
        assert(windows.contains(a));
        let k = choose|k: int| 0 <= k < windows.len() && windows[k] == a;
        assert(told[k] == (DispatchView::MoveToWorkspaceSilent {
            target: place,
            address: canonical(a),
        }));
    }
}

// ---- what is told ------------------------------------------------------------------------

/// Whether a summary tells of a project: its slug and name, whether it is the
/// active one, its groups in order, its workspace, and how many windows are
/// assigned to it.
pub open spec fn tells_of(
    state: StateView,
    shown: ProjectSummaryView,
    project: ProjectView,
) -> bool {
    let own = state.world.windows.dom().filter(
        |a: Seq<char>|
            state.world.windows[a].assignment is Some && owner_in(state.world.windows[a])
                == project.id,
    );
    &&& shown.slug == project.slug
    &&& shown.name == project.name
    &&& shown.active <==> state.world.active_project == Some(project.id)
    &&& shown.workspace == state.config.general.workspace_prefix + project.slug
    &&& shown.groups.len() == project.groups.len()
    &&& forall|g: int|
        0 <= g < project.groups.len() ==> #[trigger] shown.groups[g] == project.groups[g].slug
    &&& own.len() <= usize::MAX ==> shown.windows == own.len()
}

/// The project that a window is assigned to.
pub open spec fn owner_in(window: TrackedWindowView) -> ProjectId {
    match window.assignment {
        Some((owner, _)) => owner,
        None => arbitrary(),
    }
}

proof fn lemma_summary(state: StateView, project: ProjectView)
    ensures
        tells_of(state, state.summary(project), project),
{
    let own = state.world.windows.dom().filter(
        |a: Seq<char>|
            state.world.windows[a].assignment is Some && owner_in(state.world.windows[a])
                == project.id,
    );
    assert(own =~= keys_where(
        state.world.windows,
        |w: TrackedWindowView| is_assigned_to(w, project.id),
    ));
}

/// A listing tells of every project once, by position and then by slug.
pub proof fn law_listings_tell_of_every_project(
    state: StateView,
    id: ProjectId,
    uptime: u64,
    gathered: Gathered,
    after: StateView,
    outcome: OutcomeView,
)
    requires
        (after, outcome) == state.answered(RequestView::ProjectList, id, uptime, gathered),
    ensures
        after == state,
        outcome matches OutcomeView::Reply(Ok(ReplyView::Projects(shown))) && exists|
            order: Seq<ProjectView>,
        |
            {
                &&& #[trigger] order.to_multiset() == state.projects.to_multiset()
                &&& order.len() == shown.len()
                &&& forall|k: int|
                    0 <= k < order.len() ==> tells_of(state, #[trigger] shown[k], order[k])
                &&& forall|a: int, b: int|
                    0 <= a < b < order.len() ==> {
                        let x = #[trigger] order[a];
                        let y = #[trigger] order[b];
                        x.position < y.position || x.position == y.position && !precedes(
                            y.slug,
                            x.slug,
                        )
                    }
            },
{
    let order = listing(state.projects);
    law_listings_are_sorted(state.projects);
    let shown = state.summaries();
    assert forall|k: int| 0 <= k < order.len() implies tells_of(
        state,
        #[trigger] shown[k],
        order[k],
    ) by {
        lemma_summary(state, order[k]);
    }
    assert(order.to_multiset() == state.projects.to_multiset());
}

/// The status tells the version, the time since the start, whether the
/// compositor is there, the active project's slug, how many windows and
/// projects there are, and a newer version if one is known.
pub proof fn law_status_tells_the_state(
    state: StateView,
    id: ProjectId,
    uptime: u64,
    gathered: Gathered,
    after: StateView,
    outcome: OutcomeView,
)
    requires
        (after, outcome) == state.answered(RequestView::DaemonStatus, id, uptime, gathered),
    ensures
        after == state,
        outcome matches OutcomeView::Reply(Ok(ReplyView::Status(told))) && {
            &&& told.version == state.version
            &&& told.uptime_s == uptime
            &&& told.hypr_connected == state.world.hypr_connected
            &&& told.update_available == state.update
            &&& state.projects.len() <= usize::MAX ==> told.projects == state.projects.len()
            &&& state.world.windows.dom().len() <= usize::MAX ==> told.windows
                == state.world.windows.dom().len()
            &&& state.world.active_project is None ==> told.active_project is None
            &&& forall|i: int|
                0 <= i < state.projects.len() && state.world.active_project == Some(
                    (#[trigger] state.projects[i]).id,
                ) && (forall|j: int|
                    0 <= j < i ==> (#[trigger] state.projects[j]).id != state.projects[i].id)
                    ==> told.active_project == Some(state.projects[i].slug)
        },
{
    assert forall|i: int|
        0 <= i < state.projects.len() && state.world.active_project == Some(
            (#[trigger] state.projects[i]).id,
        ) && (forall|j: int|
            0 <= j < i ==> (#[trigger] state.projects[j]).id != state.projects[i].id) implies
        state.status(uptime).active_project == Some(state.projects[i].slug) by {
        lemma_id_at(state.projects, i, 0);
    }
}

/// A snapshot shows everything: a summary of every project, every window as it
/// is tracked, every workspace and monitor, the focus and the connection.
pub proof fn law_snapshots_show_everything(state: StateView, snapshot: SnapshotView)
    requires
        state.is_shown_by(snapshot),
    ensures
        snapshot.projects.len() == state.projects.len(),
        forall|k: int|
            0 <= k < snapshot.projects.len() ==> tells_of(
                state,
                #[trigger] snapshot.projects[k],
                listing(state.projects)[k],
            ),
        forall|w: TrackedWindowView| #[trigger]
            snapshot.windows.contains(w) <==> state.world.windows.dom().contains(w.address)
                && state.world.windows[w.address] == w,
        forall|a: int, b: int|
            0 <= a < b < snapshot.windows.len() ==> precedes(
                (#[trigger] snapshot.windows[a]).address,
                (#[trigger] snapshot.windows[b]).address,
            ),
        forall|a: int, b: int|
            0 <= a < b < snapshot.workspaces.len() ==> (#[trigger] snapshot.workspaces[a]).id < (
            #[trigger] snapshot.workspaces[b]).id,
        forall|k: int|
            0 <= k < snapshot.workspaces.len() ==> {
                let w = #[trigger] snapshot.workspaces[k];
                state.world.workspaces.dom().contains(w.id) && state.world.workspaces[w.id] == w
            },
        forall|id: i64| #[trigger]
            state.world.workspaces.dom().contains(id) ==> snapshot.workspaces.contains(
                state.world.workspaces[id],
            ),
        snapshot.monitors == state.world.monitors,
        snapshot.focused_window == state.world.focused_window,
        snapshot.hypr_connected == state.world.hypr_connected,
        snapshot.update_available == state.update,
{
    law_listings_are_sorted(state.projects);
    assert forall|k: int| 0 <= k < snapshot.projects.len() implies tells_of(
        state,
        #[trigger] snapshot.projects[k],
        listing(state.projects)[k],
    ) by {
        lemma_summary(state, listing(state.projects)[k]);
    }
    assert forall|w: TrackedWindowView| #[trigger] snapshot.windows.contains(w)
        <==> state.world.windows.dom().contains(w.address) && state.world.windows[w.address]
        == w by {
        lemma_filed(snapshot.windows, w);
    }
    assert forall|k: int| 0 <= k < snapshot.workspaces.len() implies {
        let w = #[trigger] snapshot.workspaces[k];
        state.world.workspaces.dom().contains(w.id) && state.world.workspaces[w.id] == w
    } by {
        lemma_by_id_holds(snapshot.workspaces, k);
    }
    assert forall|id: i64| #[trigger]
        state.world.workspaces.dom().contains(id) implies snapshot.workspaces.contains(
        state.world.workspaces[id],
    ) by {
        lemma_by_id_lists(snapshot.workspaces, id);
    }
}

proof fn lemma_by_id_lists(list: Seq<WorkspaceInfoView>, id: i64)
    requires
        by_id(list).dom().contains(id),
    ensures
        list.contains(by_id(list)[id]),
    decreases list.len(),
{
    if list.len() > 0 {
        let front = list.drop_last();
        assert(list[list.len() - 1] == list.last());
        if id != list.last().id {
            lemma_by_id_lists(front, id);
            let k = choose|k: int| 0 <= k < front.len() && front[k] == by_id(front)[id];
            assert(list[k] == by_id(list)[id]);
        }
    }
}

proof fn lemma_by_id_holds(list: Seq<WorkspaceInfoView>, k: int)
    requires
        forall|a: int, b: int|
            0 <= a < b < list.len() ==> (#[trigger] list[a]).id < (#[trigger] list[b]).id,
        0 <= k < list.len(),
    ensures
        by_id(list).dom().contains(list[k].id),
        by_id(list)[list[k].id] == list[k],
    decreases list.len(),
{
    let front = list.drop_last();
    if k < front.len() {
        assert(list[k].id < list[list.len() - 1].id);
        assert forall|a: int, b: int| 0 <= a < b < front.len() implies (#[trigger] front[a]).id < (
        #[trigger] front[b]).id by {
            assert(list[a].id < list[b].id);
        }
        lemma_by_id_holds(front, k);
        assert(front[k] == list[k]);
    }
}

proof fn lemma_matching_lists(rules: Seq<CompiledRuleView>, facts: WindowFactsView, r: int)
    requires
        0 <= r < rules.len(),
        (rules[r].accepts)(facts),
        forall|q: int|
            0 <= q < r ==> !((#[trigger] rules[q]).stop && (rules[q].accepts)(facts)),
    ensures
        matching(rules, facts).contains(rules[r]),
    decreases rules.len(),
{
    let all = matching(rules, facts);
    let rest = rules.skip(1);
    if r == 0 {
        assert(all[0] == rules[0]);
    } else {
        assert forall|q: int| 0 <= q < r - 1 implies !((#[trigger] rest[q]).stop && (
        rest[q].accepts)(facts)) by {
            assert(!(rules[q + 1].stop && (rules[q + 1].accepts)(facts)));
        }
        assert(rest[r - 1] == rules[r]);
        lemma_matching_lists(rest, facts, r - 1);
        let later = matching(rest, facts);
        let k = choose|k: int| 0 <= k < later.len() && later[k] == rules[r];
        assert(!(rules[0].stop && (rules[0].accepts)(facts)));
        if (rules[0].accepts)(facts) {
            assert(all[k + 1] == later[k]);
        } else {
            assert(all[k] == later[k]);
        }
    }
}

proof fn lemma_matching_held(rules: Seq<CompiledRuleView>, facts: WindowFactsView, k: int)
    requires
        0 <= k < matching(rules, facts).len(),
    ensures
        rules.contains(matching(rules, facts)[k]),
        (matching(rules, facts)[k].accepts)(facts),
    decreases rules.len(),
{
    let all = matching(rules, facts);
    let rest = rules.skip(1);
    if (rules[0].accepts)(facts) {
        if k == 0 {
            assert(rules[0] == all[0]);
        } else {
            lemma_matching_held(rest, facts, k - 1);
            let q = choose|q: int| 0 <= q < rest.len() && rest[q] == matching(rest, facts)[k - 1];
            assert(rules[q + 1] == all[k]);
        }
    } else {
        lemma_matching_held(rest, facts, k);
        let q = choose|q: int| 0 <= q < rest.len() && rest[q] == matching(rest, facts)[k];
        assert(rules[q + 1] == all[k]);
    }
}

/// Testing the rules tells what is known of the window that was named, or of
/// the focused one, and lists the rules that accept it, each with its project,
/// its group and whether it stops: all of them up to the first that stops.
pub proof fn law_rule_tests_tell_what_matches(
    state: StateView,
    asked: Option<Seq<char>>,
    address: Seq<char>,
    id: ProjectId,
    uptime: u64,
    gathered: Gathered,
    after: StateView,
    outcome: OutcomeView,
)
    requires
        asked == Some(address) || asked is None && state.world.focused_window == Some(address),
        (after, outcome) == state.answered(
            RequestView::RulesTest { address: asked },
            id,
            uptime,
            gathered,
        ),
    ensures
        after == state,
        !state.world.windows.dom().contains(address) ==> (outcome matches OutcomeView::Reply(
            Err(_),
        )),
        state.world.windows.dom().contains(address) ==> (outcome matches OutcomeView::Reply(
            Ok(ReplyView::Rules(report)),
        ) && {
            let facts = state.world.windows[address].facts;
            &&& report.address == address
            &&& report.class == facts.class
            &&& report.title == facts.title
            &&& report.executable == facts.executable
            &&& forall|k: int|
                0 <= k < report.matches.len() ==> tells_of_match(
                    state.rules,
                    facts,
                    #[trigger] report.matches[k],
                )
            &&& forall|r: int|
                0 <= r < state.rules.len() && ((#[trigger] state.rules[r]).accepts)(facts)
                    && !is_stopped_before(state.rules, facts, r) ==> is_reported(
                    report.matches,
                    state.rules[r],
                )
        }),
{
    if state.world.windows.dom().contains(address) {
        let facts = state.world.windows[address].facts;
        let all = matching(state.rules, facts);
        let report = outcome->Reply_0->Ok_0->Rules_0;
        assert forall|k: int| 0 <= k < report.matches.len() implies tells_of_match(
            state.rules,
            facts,
            #[trigger] report.matches[k],
        ) by {
            lemma_matching_held(state.rules, facts, k);
            let r = choose|r: int| 0 <= r < state.rules.len() && state.rules[r] == all[k];
            assert((state.rules[r].accepts)(facts) && reports(report.matches[k], state.rules[r]));
        }
        assert forall|r: int|
            0 <= r < state.rules.len() && ((#[trigger] state.rules[r]).accepts)(facts)
                && !is_stopped_before(state.rules, facts, r) implies is_reported(
            report.matches,
            state.rules[r],
        ) by {
            assert forall|q: int| 0 <= q < r implies !((#[trigger] state.rules[q]).stop && (
            state.rules[q].accepts)(facts)) by {}
            lemma_matching_lists(state.rules, facts, r);
            let k = choose|k: int| 0 <= k < all.len() && all[k] == state.rules[r];
            assert(reports(report.matches[k], state.rules[r]));
        }
    }
}

/// Whether a line of a report tells of a rule that accepts the facts.
pub open spec fn tells_of_match(
    rules: Seq<CompiledRuleView>,
    facts: WindowFactsView,
    line: RuleMatchView,
) -> bool {
    exists|r: int|
        0 <= r < rules.len() && ((#[trigger] rules[r]).accepts)(facts) && reports(line, rules[r])
}

/// Whether a rule before a place accepts the facts and stops.
pub open spec fn is_stopped_before(
    rules: Seq<CompiledRuleView>,
    facts: WindowFactsView,
    r: int,
) -> bool {
    exists|q: int| 0 <= q < r && (#[trigger] rules[q]).stop && (rules[q].accepts)(facts)
}

/// Whether some line tells of a rule.
pub open spec fn is_reported(lines: Seq<RuleMatchView>, rule: CompiledRuleView) -> bool {
    exists|k: int| 0 <= k < lines.len() && reports(#[trigger] lines[k], rule)
}

/// Whether a line of a report tells of a rule.
pub open spec fn reports(line: RuleMatchView, rule: CompiledRuleView) -> bool {
    &&& line.rule == rule.name
    &&& line.project == rule.project
    &&& line.group == rule.group
    &&& line.stop == rule.stop
}

// ---- settings ----------------------------------------------------------------------------

/// Reloading takes over both files or neither. What cannot be read, is no
/// TOML, or is invalid leaves everything as it is; a file that is missing
/// stands for the defaults and for no rules.
pub proof fn law_reloading_is_all_or_nothing(
    state: StateView,
    id: ProjectId,
    uptime: u64,
    gathered: Gathered,
    after: StateView,
    outcome: OutcomeView,
)
    requires
        (after, outcome) == state.answered(RequestView::ConfigReload, id, uptime, gathered),
    ensures
        ({
            let config_reads = match gathered.config {
                Loaded::Missing => true,
                Loaded::Ready(config) => config_problem(config@) is None,
                _ => false,
            };
            let rules_read = match gathered.rules {
                Loaded::Missing => true,
                Loaded::Ready(file) => compilation(state.registry, file@) is Ok,
                _ => false,
            };
            if state.config_dir is Some && config_reads && rules_read {
                &&& gathered.config matches Loaded::Ready(config) ==> after.config == config@
                &&& gathered.config is Missing ==> after.config == ConfigView::standard()
                &&& gathered.rules matches Loaded::Ready(file) ==> after.rules == compilation(
                    state.registry,
                    file@,
                )->Ok_0
                &&& gathered.rules is Missing ==> after.rules.len() == 0
                &&& after == (StateView { config: after.config, rules: after.rules, ..state })
                &&& outcome matches OutcomeView::Reply(Ok(ReplyView::Reloaded { rules })) && (
                after.rules.len() <= usize::MAX ==> rules == after.rules.len())
            } else {
                &&& after == state
                &&& outcome matches OutcomeView::Reply(Err(_))
            }
        }),
{
}

/// An order that names every project once gives each the place at which it
/// names it; nothing else of a project changes. Any other order is refused.
pub proof fn law_reordering_sets_the_positions(
    state: StateView,
    order: Seq<Seq<char>>,
    id: ProjectId,
    uptime: u64,
    gathered: Gathered,
    after: StateView,
    outcome: OutcomeView,
)
    requires
        order.len() <= u32::MAX,
        order.no_duplicates(),
        (after, outcome) == state.answered(
            RequestView::ProjectReorder { order },
            id,
            uptime,
            gathered,
        ),
    ensures
        ({
            let complete = order.len() == state.projects.len() && forall|i: int|
                0 <= i < state.projects.len() ==> order.contains(
                    (#[trigger] state.projects[i]).slug,
                );
            &&& complete ==> {
                &&& after.projects.len() == state.projects.len()
                &&& forall|i: int|
                    0 <= i < state.projects.len() ==> {
                        let project = #[trigger] after.projects[i];
                        &&& project == (ProjectView {
                            position: project.position,
                            ..state.projects[i]
                        })
                        &&& project.position < order.len()
                        &&& order[project.position as int] == project.slug
                    }
                &&& all_but_projects_stay(state, after)
                &&& is_silent(state, after)
                &&& outcome matches OutcomeView::Reply(Ok(ReplyView::Reordered { .. }))
            }
            &&& !complete ==> after == state && outcome matches OutcomeView::Reply(Err(_))
        }),
{
    assert forall|i: int| 0 <= i < state.projects.len() implies (order_index(
        order,
        (#[trigger] state.projects[i]).slug,
        0,
    ) is Some <==> order.contains(state.projects[i].slug)) && (order_index(
        order,
        state.projects[i].slug,
        0,
    ) matches Some(k) ==> 0 <= k < order.len() && order[k] == state.projects[i].slug) by {
        lemma_in_order(order, state.projects[i].slug, 0);
        if order.contains(state.projects[i].slug) {
            let k = choose|k: int| 0 <= k < order.len() && order[k] == state.projects[i].slug;
            assert(order[k] == state.projects[i].slug);
        }
    }
}

proof fn lemma_in_order(order: Seq<Seq<char>>, slug: Seq<char>, from: int)
    requires
        0 <= from,
    ensures
        match order_index(order, slug, from) {
            Some(k) => from <= k < order.len() && order[k] == slug,
            None => forall|k: int| from <= k < order.len() ==> #[trigger] order[k] != slug,
        },
    decreases order.len() - from,
{
    if from < order.len() {
        lemma_in_order(order, slug, from + 1);
    }
}

} // verus!
