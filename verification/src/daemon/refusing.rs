//! Which requests are refused, and what the client is told then.

use vstd::prelude::*;

use crate::daemon::editing::slot_named;
use crate::daemon::groups::group_index;
use crate::daemon::requests::{Gathered, OutcomeView};
use crate::daemon::serving::is_meant;
use crate::daemon::state::{id_index, slug_index, StateView};
use crate::domain::model::{is_slug, slug_of, AppSlotView, GroupView, ProjectId, ProjectView};
use crate::domain::search::{project_scores, resolution, ResolutionView};
use crate::domain::world::workspace_named;
use crate::outside::hyphenated;
use crate::proto::{ErrorCode, RequestView};
use crate::text::holds;

verus! {

// ---- what is asked for -------------------------------------------------------------------

/// The query by which a request names a project, if it does.
pub open spec fn query_of(request: RequestView) -> Option<Seq<char>> {
    match request {
        RequestView::ProjectSwitch { project } => Some(project),
        RequestView::ProjectGet { project } => Some(project),
        RequestView::ProjectExport { project } => Some(project),
        RequestView::ProjectDuplicate { project, .. } => Some(project),
        RequestView::SlotUpdate { project, .. } => Some(project),
        RequestView::GroupCreate { project, .. } => Some(project),
        RequestView::GroupAdd { project, .. } => Some(project),
        RequestView::GroupRemove { project, .. } => Some(project),
        RequestView::GroupHide { project, .. } => Some(project),
        RequestView::GroupShow { project, .. } => Some(project),
        RequestView::GroupFocus { project, .. } => Some(project),
        RequestView::GroupMove { project, .. } => Some(project),
        RequestView::ProjectRestore { project, .. } => project,
        RequestView::ProjectSave { project } => project,
        RequestView::ProjectCapture { project } => project,
        RequestView::ProjectClose { project } => project,
        _ => None,
    }
}

/// The group that a request is about, which the project has to have.
pub open spec fn group_of(request: RequestView) -> Option<Seq<char>> {
    match request {
        RequestView::GroupAdd { group, .. } => Some(group),
        RequestView::GroupRemove { group, .. } => Some(group),
        RequestView::GroupHide { group, .. } => Some(group),
        RequestView::GroupShow { group, .. } => Some(group),
        RequestView::GroupFocus { group, .. } => Some(group),
        RequestView::GroupMove { group, .. } => Some(group),
        _ => None,
    }
}

/// The slug that something new is to have: the given one, else that of its
/// name.
pub open spec fn is_wanted(slug: Option<Seq<char>>, name: Seq<char>, wanted: Seq<char>) -> bool {
    match slug {
        Some(given) => given == wanted && is_slug(given),
        None => slug_of(name) == Some(wanted),
    }
}

/// Whether an outcome refuses with a code and a message that holds a text.
pub open spec fn refuses(outcome: OutcomeView, code: ErrorCode, about: Seq<char>) -> bool {
    outcome matches OutcomeView::Reply(Err(error)) && error.code == code && holds(
        error.message,
        about,
    )
}

proof fn lemma_about(before: Seq<char>, about: Seq<char>, after: Seq<char>)
    ensures
        holds(before + about + after, about),
{
    let all = before + about + after;
    let at = before.len() as int;
    assert(all.subrange(at, at + about.len() as int) =~= about);
}

proof fn lemma_about_end(before: Seq<char>, about: Seq<char>)
    ensures
        holds(before + about, about),
{
    lemma_about(before, about, seq![]);
    assert(before + about + seq![] =~= before + about);
}

proof fn lemma_no_group(groups: Seq<GroupView>, group: Seq<char>, from: int)
    requires
        0 <= from,
        forall|g: int| 0 <= g < groups.len() ==> (#[trigger] groups[g]).slug != group,
    ensures
        group_index(groups, group, from) is None,
    decreases groups.len() - from,
{
    if from < groups.len() {
        assert(groups[from].slug != group);
        lemma_no_group(groups, group, from + 1);
    }
}

proof fn lemma_some_group(groups: Seq<GroupView>, g: int, from: int)
    requires
        0 <= from <= g < groups.len(),
    ensures
        group_index(groups, groups[g].slug, from) is Some,
    decreases g - from,
{
    if from < g && groups[from].slug != groups[g].slug {
        lemma_some_group(groups, g, from + 1);
    }
}

proof fn lemma_no_slug(projects: Seq<ProjectView>, slug: Seq<char>, from: int)
    requires
        0 <= from,
        forall|j: int| 0 <= j < projects.len() ==> (#[trigger] projects[j]).slug != slug,
    ensures
        slug_index(projects, slug, from) is None,
    decreases projects.len() - from,
{
    if from < projects.len() {
        assert(projects[from].slug != slug);
        lemma_no_slug(projects, slug, from + 1);
    }
}

proof fn lemma_some_slug(projects: Seq<ProjectView>, i: int, from: int)
    requires
        0 <= from <= i < projects.len(),
    ensures
        slug_index(projects, projects[i].slug, from) is Some,
    decreases i - from,
{
    if from < i && projects[from].slug != projects[i].slug {
        lemma_some_slug(projects, i, from + 1);
    }
}

proof fn lemma_no_slot(apps: Seq<AppSlotView>, id: Seq<char>, from: int)
    requires
        0 <= from,
        forall|k: int| 0 <= k < apps.len() ==> hyphenated((#[trigger] apps[k]).slot_id) != id,
    ensures
        slot_named(apps, id, from) is None,
    decreases apps.len() - from,
{
    if from < apps.len() {
        assert(hyphenated(apps[from].slot_id) != id);
        lemma_no_slot(apps, id, from + 1);
    }
}

proof fn lemma_place(projects: Seq<ProjectView>, i: int, from: int)
    requires
        0 <= from <= i < projects.len(),
        forall|j: int| from <= j < i ==> (#[trigger] projects[j]).id != projects[i].id,
    ensures
        id_index(projects, projects[i].id, from) == Some(i),
    decreases i - from,
{
    if from < i {
        assert(projects[from].id != projects[i].id);
        lemma_place(projects, i, from + 1);
    }
}

// ---- projects ----------------------------------------------------------------------------

/// A request for a project that no project answers to is refused: the client is
/// told the query and the slugs that there are, and nothing changes.
pub proof fn law_unknown_projects_are_refused(
    state: StateView,
    request: RequestView,
    query: Seq<char>,
    id: ProjectId,
    uptime: u64,
    gathered: Gathered,
)
    requires
        query_of(request) == Some(query),
        resolution(query, state.projects, project_scores(query, state.projects))
            == ResolutionView::NotFound,
    ensures
        ({
            let (after, outcome) = state.answered(request, id, uptime, gathered);
            &&& after == state
            &&& refuses(outcome, ErrorCode::NotFound, query)
            &&& outcome->Reply_0->Err_0.candidates is Some
            &&& outcome->Reply_0->Err_0.candidates->0.len() == state.projects.len()
            &&& forall|k: int|
                0 <= k < state.projects.len() ==> (
                #[trigger] outcome->Reply_0->Err_0.candidates->0[k]) == state.projects[k].slug
        }),
{
    lemma_about("no project matching '"@, query, "'"@);
    assert(state.resolved(query) is Err);
}

/// A request for a project that several answer to is refused: the client is
/// told the query and the slugs of just those, and nothing changes.
pub proof fn law_ambiguous_projects_are_refused(
    state: StateView,
    request: RequestView,
    query: Seq<char>,
    candidates: Seq<ProjectView>,
    id: ProjectId,
    uptime: u64,
    gathered: Gathered,
)
    requires
        query_of(request) == Some(query),
        resolution(query, state.projects, project_scores(query, state.projects))
            == ResolutionView::Ambiguous(candidates),
    ensures
        ({
            let (after, outcome) = state.answered(request, id, uptime, gathered);
            &&& after == state
            &&& refuses(outcome, ErrorCode::Ambiguous, query)
            &&& outcome->Reply_0->Err_0.candidates is Some
            &&& outcome->Reply_0->Err_0.candidates->0.len() == candidates.len()
            &&& forall|k: int|
                0 <= k < candidates.len() ==> (
                #[trigger] outcome->Reply_0->Err_0.candidates->0[k]) == candidates[k].slug
        }),
{
    lemma_about("'"@, query, "' matches several projects"@);
    assert(state.resolved(query) is Err);
}

/// A request that leaves the project open is refused while none is active.
pub proof fn law_requests_need_a_project(
    state: StateView,
    request: RequestView,
    id: ProjectId,
    uptime: u64,
    gathered: Gathered,
)
    requires
        state.world.active_project is None,
        request == (RequestView::ProjectSave { project: None }) || request == (
        RequestView::ProjectCapture { project: None }) || request == (RequestView::ProjectClose {
            project: None,
        }) || request == (RequestView::ProjectRestore { project: None, dry_run: true }) || request
            == (RequestView::ProjectRestore { project: None, dry_run: false }),
    ensures
        ({
            let (after, outcome) = state.answered(request, id, uptime, gathered);
            after == state && (outcome matches OutcomeView::Reply(Err(error)) && error.code
                == ErrorCode::BadRequest)
        }),
{
}

/// Deleting and renaming take the exact slug: with one that no project has
/// they are refused and nothing changes.
pub proof fn law_slugs_must_be_exact(
    state: StateView,
    request: RequestView,
    slug: Seq<char>,
    name: Seq<char>,
    id: ProjectId,
    uptime: u64,
    gathered: Gathered,
)
    requires
        forall|j: int| 0 <= j < state.projects.len() ==> (#[trigger] state.projects[j]).slug != slug,
        request == (RequestView::ProjectDelete { slug }) || request == (RequestView::ProjectRename {
            slug,
            name,
        }),
    ensures
        state.answered(request, id, uptime, gathered).0 == state,
        refuses(state.answered(request, id, uptime, gathered).1, ErrorCode::NotFound, slug),
{
    lemma_no_slug(state.projects, slug, 0);
    lemma_about("no project with slug '"@, slug, "' (delete requires the exact slug)"@);
    lemma_about("no project with slug '"@, slug, "'"@);
}

/// A new project is refused under a slug that a project has, and under one
/// whose workspace is there already; without a slug it is refused for its
/// name. Nothing changes.
pub proof fn law_taken_slugs_are_refused(
    state: StateView,
    name: Seq<char>,
    slug: Option<Seq<char>>,
    wanted: Seq<char>,
    id: ProjectId,
    uptime: u64,
    gathered: Gathered,
)
    ensures
        ({
            let request = RequestView::ProjectCreate { name, slug };
            let (after, outcome) = state.answered(request, id, uptime, gathered);
            let workspace = state.config.general.workspace_prefix + wanted;
            &&& is_wanted(slug, name, wanted) && (exists|i: int|
                0 <= i < state.projects.len() && (#[trigger] state.projects[i]).slug == wanted)
                ==> after == state && refuses(outcome, ErrorCode::Conflict, wanted)
            &&& is_wanted(slug, name, wanted) && (exists|w: i64| #[trigger]
                state.world.workspaces.dom().contains(w) && state.world.workspaces[w].name
                    == workspace) ==> after == state && (outcome matches OutcomeView::Reply(
                Err(error),
            ) && error.code == ErrorCode::Conflict)
            &&& (slug is Some && !is_slug(slug->0) || slug is None && slug_of(name) is None)
                ==> after == state && (outcome matches OutcomeView::Reply(Err(error))
                && error.code == ErrorCode::BadRequest)
        }),
{
    if is_wanted(slug, name, wanted) {
        if exists|i: int|
            0 <= i < state.projects.len() && (#[trigger] state.projects[i]).slug == wanted {
            let i = choose|i: int|
                0 <= i < state.projects.len() && (#[trigger] state.projects[i]).slug == wanted;
            lemma_some_slug(state.projects, i, 0);
            lemma_about("project '"@, wanted, "' already exists"@);
        }
        let workspace = state.config.general.workspace_prefix + wanted;
        if exists|w: i64| #[trigger]
            state.world.workspaces.dom().contains(w) && state.world.workspaces[w].name
                == workspace {
            let w = choose|w: i64| #[trigger]
                state.world.workspaces.dom().contains(w) && state.world.workspaces[w].name
                    == workspace;
            assert(state.world.workspaces.dom().contains(w));
            assert(workspace_named(state.world.workspaces, workspace));
        }
    }
}

// ---- groups and slots --------------------------------------------------------------------

/// A request about a group that the project does not have is refused with the
/// group, and nothing changes.
pub proof fn law_unknown_groups_are_refused(
    state: StateView,
    request: RequestView,
    query: Seq<char>,
    i: int,
    group: Seq<char>,
    id: ProjectId,
    uptime: u64,
    gathered: Gathered,
)
    requires
        query_of(request) == Some(query),
        group_of(request) == Some(group),
        is_meant(state, query, i),
        forall|g: int|
            0 <= g < state.projects[i].groups.len() ==> (#[trigger] state.projects[i].groups[g]).slug
                != group,
    ensures
        state.answered(request, id, uptime, gathered).0 == state,
        refuses(state.answered(request, id, uptime, gathered).1, ErrorCode::NotFound, group),
{
    lemma_place(state.projects, i, 0);
    lemma_no_group(state.projects[i].groups, group, 0);
    assert(state.located(query, group) is Err);
    lemma_about("project '"@ + state.projects[i].slug + "' has no group '"@, group, "'"@);
}

/// A new group is refused under a slug that a group of the project has, and
/// nothing changes.
pub proof fn law_taken_groups_are_refused(
    state: StateView,
    query: Seq<char>,
    i: int,
    g: int,
    name: Seq<char>,
    slug: Option<Seq<char>>,
    id: ProjectId,
    uptime: u64,
    gathered: Gathered,
)
    requires
        is_meant(state, query, i),
        0 <= g < state.projects[i].groups.len(),
        is_wanted(slug, name, state.projects[i].groups[g].slug),
    ensures
        ({
            let request = RequestView::GroupCreate { project: query, name, slug };
            let (after, outcome) = state.answered(request, id, uptime, gathered);
            after == state && refuses(
                outcome,
                ErrorCode::Conflict,
                state.projects[i].groups[g].slug,
            )
        }),
{
    let group = state.projects[i].groups[g].slug;
    lemma_place(state.projects, i, 0);
    lemma_some_group(state.projects[i].groups, g, 0);
    lemma_about("project '"@ + state.projects[i].slug + "' already has a group '"@, group, "'"@);
}

/// A window that is not there joins no group and leaves none, and one that is
/// not in a group does not leave it: the client is told the window, and
/// nothing changes.
pub proof fn law_unknown_windows_are_refused(
    state: StateView,
    query: Seq<char>,
    i: int,
    g: int,
    address: Seq<char>,
    id: ProjectId,
    uptime: u64,
    gathered: Gathered,
)
    requires
        is_meant(state, query, i),
        0 <= g < state.projects[i].groups.len(),
    ensures
        ({
            let group = state.projects[i].groups[g].slug;
            let joining = RequestView::GroupAdd { project: query, group, address };
            let leaving = RequestView::GroupRemove { project: query, group, address };
            let there = state.world.windows.dom().contains(address);
            &&& !there ==> state.answered(joining, id, uptime, gathered).0 == state && refuses(
                state.answered(joining, id, uptime, gathered).1,
                ErrorCode::NotFound,
                address,
            )
            &&& !there || state.world.windows[address].assignment != Some(
                (state.projects[i].id, Some(group)),
            ) ==> state.answered(leaving, id, uptime, gathered).0 == state && refuses(
                state.answered(leaving, id, uptime, gathered).1,
                ErrorCode::NotFound,
                address,
            )
        }),
{
    let group = state.projects[i].groups[g].slug;
    lemma_place(state.projects, i, 0);
    lemma_some_group(state.projects[i].groups, g, 0);
    lemma_about_end("no window at address "@, address);
    lemma_about("window "@, address, " is not in group '"@ + group + "'"@);
    assert("window "@ + address + (" is not in group '"@ + group + "'"@) =~= "window "@ + address
        + " is not in group '"@ + group + "'"@);
}

/// Editing a slot that the project does not have is refused with its id, and
/// nothing changes.
pub proof fn law_unknown_slots_are_refused(
    state: StateView,
    query: Seq<char>,
    i: int,
    slot_id: Seq<char>,
    command: Option<Seq<char>>,
    workdir: Option<Seq<char>>,
    profile: Option<Seq<char>>,
    id: ProjectId,
    uptime: u64,
    gathered: Gathered,
)
    requires
        is_meant(state, query, i),
        forall|k: int|
            0 <= k < state.projects[i].apps.len() ==> hyphenated(
                (#[trigger] state.projects[i].apps[k]).slot_id,
            ) != slot_id,
    ensures
        ({
            let request = RequestView::SlotUpdate {
                project: query,
                slot_id,
                command,
                workdir,
                profile,
            };
            let (after, outcome) = state.answered(request, id, uptime, gathered);
            after == state && refuses(outcome, ErrorCode::NotFound, slot_id)
        }),
{
    lemma_place(state.projects, i, 0);
    lemma_no_slot(state.projects[i].apps, slot_id, 0);
    lemma_about_end("project '"@ + state.projects[i].slug + "' has no slot "@, slot_id);
}

} // verus!
