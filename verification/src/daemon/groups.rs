//! Requests about groups: windows of a project that are hidden and shown
//! together. A hidden group's windows are parked on a workspace of its own.

use vstd::prelude::*;

use crate::daemon::laws::{lemma_id_found, lemma_id_known, slugs_distinct};
use crate::daemon::requests::{around, behind, refuse, Outcome};
use crate::daemon::requests::{refused, OutcomeView};
use crate::daemon::state::{find_id, StateActor};
use crate::daemon::state::{id_index, StateView};
use crate::domain::events::DomainEvent;
use crate::domain::events::DomainEventView;
use crate::domain::model::{AppSlot, Group, Project, ProjectId, Slug};
use crate::domain::model::{
    is_slug, slug_of, AppSlotView, GroupView, ModelErrorView, ProjectView,
};
use crate::domain::search::{
    is_resolvable, law_exact_slug_wins, law_resolutions_are_projects, project_scores,
};
use crate::domain::world::{in_group, AssignmentSource, TrackedWindow};
use crate::domain::world::{
    all_regrouped, is_in_group, lemma_window_list, window_list, AssignmentSourceView,
    TrackedWindowView, WorldView,
};
use crate::domain::ws_names::group_workspace;
use crate::domain::ws_names::group_name;
use crate::hypr::ctl::{Dispatch, WsTarget};
use crate::hypr::ctl::{DispatchView, WsTargetView};
use crate::hypr::model::WindowAddress;
use crate::hypr::model::canonical;
use crate::proto::{ErrorBody, ErrorCode, GroupOperation, Reply};
use crate::proto::{ErrorBodyView, ReplyView};
use crate::text::same;

verus! {

// ---- what is meant --------------------------------------------------------------------

/// The first group with the slug, at `from` or later.
pub open spec fn group_index(groups: Seq<GroupView>, slug: Seq<char>, from: int) -> Option<int>
    decreases groups.len() - from,
{
    if from < 0 || from >= groups.len() {
        None
    } else if groups[from].slug == slug {
        Some(from)
    } else {
        group_index(groups, slug, from + 1)
    }
}

/// The refusal of a group that a project does not have.
pub open spec fn no_group(project: Seq<char>, group: Seq<char>) -> ErrorBodyView {
    ErrorBodyView {
        code: ErrorCode::NotFound,
        message: "project '"@ + project + "' has no group '"@ + group + "'"@,
        candidates: None,
    }
}

/// The refusal of a group that a project has already.
pub open spec fn has_group(project: Seq<char>, group: Seq<char>) -> ErrorBodyView {
    ErrorBodyView {
        code: ErrorCode::Conflict,
        message: "project '"@ + project + "' already has a group '"@ + group + "'"@,
        candidates: None,
    }
}

/// The addresses of a group's windows, in the order of the list.
pub open spec fn members(
    windows: Seq<TrackedWindowView>,
    project: ProjectId,
    group: Seq<char>,
) -> Seq<Seq<char>>
    decreases windows.len(),
{
    if windows.len() == 0 {
        seq![]
    } else {
        let before = members(windows.drop_last(), project, group);
        if is_in_group(windows.last(), project, group) {
            before.push(windows.last().address)
        } else {
            before
        }
    }
}

/// The dispatches that move windows to a workspace, without following them.
pub open spec fn moving(addresses: Seq<Seq<char>>, workspace: Seq<char>) -> Seq<DispatchView> {
    Seq::new(
        addresses.len(),
        |i: int|
            DispatchView::MoveToWorkspaceSilent {
                target: WsTargetView::Name(workspace),
                address: canonical(addresses[i]),
            },
    )
}

/// Whether a slot belongs to a group.
pub open spec fn slot_in_group(slot: AppSlotView, group: Seq<char>) -> bool {
    slot.group matches Some(slug) && slug == group
}

/// The slots that belong to a group, or those that do not.
pub open spec fn slots_of(apps: Seq<AppSlotView>, group: Seq<char>, inside: bool) -> Seq<
    AppSlotView,
>
    decreases apps.len(),
{
    if apps.len() == 0 {
        seq![]
    } else {
        let before = slots_of(apps.drop_last(), group, inside);
        if slot_in_group(apps.last(), group) == inside {
            before.push(apps.last())
        } else {
            before
        }
    }
}

/// A project with a group hidden or shown.
pub open spec fn with_hidden(project: ProjectView, at: int, hidden: bool) -> ProjectView {
    ProjectView {
        groups: project.groups.update(at, GroupView { hidden, ..project.groups[at] }),
        ..project
    }
}

/// A project without a group and the slots that belong to it.
pub open spec fn without_group(project: ProjectView, at: int) -> ProjectView {
    ProjectView {
        groups: project.groups.remove(at),
        apps: slots_of(project.apps, project.groups[at].slug, false),
        ..project
    }
}

/// A project with a group of another one, and the slots that belong to it.
pub open spec fn with_group_of(project: ProjectView, other: ProjectView, at: int) -> ProjectView {
    ProjectView {
        groups: project.groups.push(other.groups[at]),
        apps: project.apps + slots_of(other.apps, other.groups[at].slug, true),
        ..project
    }
}

impl StateView {
    /// Where the project that a query means stands.
    pub open spec fn place_of(self, query: Seq<char>) -> Result<int, ErrorBodyView> {
        match self.resolved(query) {
            Err(error) => Err(error),
            Ok(project) => Ok(id_index(self.projects, project.id, 0)->0),
        }
    }

    /// Where the project and the group that a request means stand.
    pub open spec fn located(self, query: Seq<char>, group: Seq<char>) -> Result<
        (int, int),
        ErrorBodyView,
    > {
        match self.place_of(query) {
            Err(error) => Err(error),
            Ok(i) => match group_index(self.projects[i].groups, group, 0) {
                None => Err(no_group(self.projects[i].slug, group)),
                Some(g) => Ok((i, g)),
            },
        }
    }

    /// The workspace on which a group's windows are: its own while it is hidden,
    /// the project's otherwise.
    pub open spec fn workspace_of_group(
        self,
        project: Seq<char>,
        group: Seq<char>,
        hidden: bool,
    ) -> Seq<char> {
        if hidden {
            group_name(self.config.general.workspace_prefix, project, group)
        } else {
            self.workspace_of(project)
        }
    }

    /// The addresses of the windows of a group, ascending.
    pub open spec fn members_of(self, project: ProjectId, group: Seq<char>) -> Seq<Seq<char>> {
        members(window_list(self.world.windows), project, group)
    }

    /// `group.create`.
    pub open spec fn group_created(
        self,
        query: Seq<char>,
        name: Seq<char>,
        slug: Option<Seq<char>>,
    ) -> (StateView, OutcomeView) {
        let wanted = match slug {
            Some(raw) => if is_slug(raw) {
                Ok(raw)
            } else {
                Err(raw)
            },
            None => match slug_of(name) {
                Some(slug) => Ok(slug),
                None => Err(name),
            },
        };
        match self.place_of(query) {
            Err(error) => (self, OutcomeView::Reply(Err(error))),
            Ok(i) => match wanted {
                Err(raw) => (
                    self,
                    refused(ErrorCode::BadRequest, ModelErrorView::InvalidSlug(raw).message()),
                ),
                Ok(slug) => {
                    let project = self.projects[i];
                    if group_index(project.groups, slug, 0) is Some {
                        (self, OutcomeView::Reply(Err(has_group(project.slug, slug))))
                    } else {
                        let group = GroupView { slug, name, hidden: false };
                        (
                            StateView {
                                projects: self.projects.update(
                                    i,
                                    ProjectView { groups: project.groups.push(group), ..project },
                                ),
                                ..self
                            }.emitting(
                                DomainEventView::GroupChanged { project: project.slug, group: slug },
                            ),
                            OutcomeView::Reply(
                                Ok(
                                    ReplyView::Group {
                                        operation: GroupOperation::Created,
                                        project: project.slug,
                                        group: slug,
                                        windows: 0,
                                    },
                                ),
                            ),
                        )
                    }
                },
            },
        }
    }

    /// `group.add`: a manual assignment; the window goes where the group is.
    pub open spec fn group_added(
        self,
        query: Seq<char>,
        group: Seq<char>,
        address: Seq<char>,
    ) -> (StateView, OutcomeView) {
        match self.located(query, group) {
            Err(error) => (self, OutcomeView::Reply(Err(error))),
            Ok((i, g)) => if !self.world.windows.dom().contains(address) {
                (self, refused(ErrorCode::NotFound, "no window at address "@ + address))
            } else {
                let project = self.projects[i];
                (
                    StateView {
                        world: self.world.with_assignment(
                            address,
                            project.id,
                            Some(group),
                            AssignmentSourceView::Manual,
                        ),
                        ..self
                    }.emitting(DomainEventView::GroupChanged { project: project.slug, group }),
                    OutcomeView::DispatchThen {
                        dispatches: moving(
                            seq![address],
                            self.workspace_of_group(
                                project.slug,
                                group,
                                project.groups[g].hidden,
                            ),
                        ),
                        result: ReplyView::Group {
                            operation: GroupOperation::Added,
                            project: project.slug,
                            group,
                            windows: 1,
                        },
                    },
                )
            },
        }
    }

    /// `group.remove`: the window stays with the project, and comes back to its
    /// workspace if the group is hidden.
    pub open spec fn group_removed(
        self,
        query: Seq<char>,
        group: Seq<char>,
        address: Seq<char>,
    ) -> (StateView, OutcomeView) {
        match self.located(query, group) {
            Err(error) => (self, OutcomeView::Reply(Err(error))),
            Ok((i, g)) => {
                let project = self.projects[i];
                if !self.world.windows.dom().contains(address) {
                    (self, refused(ErrorCode::NotFound, "no window at address "@ + address))
                } else if !is_in_group(self.world.windows[address], project.id, group) {
                    (
                        self,
                        refused(
                            ErrorCode::NotFound,
                            "window "@ + address + " is not in group '"@ + group + "'"@,
                        ),
                    )
                } else {
                    (
                        StateView {
                            world: self.world.with_assignment(
                                address,
                                project.id,
                                None,
                                AssignmentSourceView::Manual,
                            ),
                            ..self
                        }.emitting(DomainEventView::GroupChanged { project: project.slug, group }),
                        OutcomeView::DispatchThen {
                            dispatches: if project.groups[g].hidden {
                                moving(seq![address], self.workspace_of(project.slug))
                            } else {
                                seq![]
                            },
                            result: ReplyView::Group {
                                operation: GroupOperation::Removed,
                                project: project.slug,
                                group,
                                windows: 1,
                            },
                        },
                    )
                }
            },
        }
    }

    /// `group.hide` and `group.show`: the group's windows go to its parking
    /// workspace, or back to the project's.
    pub open spec fn group_parked(self, query: Seq<char>, group: Seq<char>, hidden: bool) -> (
        StateView,
        OutcomeView,
    ) {
        match self.located(query, group) {
            Err(error) => (self, OutcomeView::Reply(Err(error))),
            Ok((i, g)) => {
                let project = self.projects[i];
                let windows = self.members_of(project.id, group);
                (
                    StateView {
                        projects: self.projects.update(i, with_hidden(project, g, hidden)),
                        ..self
                    }.emitting(DomainEventView::GroupChanged { project: project.slug, group }),
                    OutcomeView::DispatchThen {
                        dispatches: moving(
                            windows,
                            self.workspace_of_group(project.slug, group, hidden),
                        ),
                        result: ReplyView::Group {
                            operation: if hidden {
                                GroupOperation::Hidden
                            } else {
                                GroupOperation::Shown
                            },
                            project: project.slug,
                            group,
                            windows: windows.len() as usize,
                        },
                    },
                )
            },
        }
    }

    /// `group.focus`: the workspace on which the group is, then its first
    /// window.
    pub open spec fn group_focused(self, query: Seq<char>, group: Seq<char>) -> OutcomeView {
        match self.located(query, group) {
            Err(error) => OutcomeView::Reply(Err(error)),
            Ok((i, g)) => {
                let project = self.projects[i];
                let windows = self.members_of(project.id, group);
                let workspace = self.workspace_of_group(
                    project.slug,
                    group,
                    project.groups[g].hidden,
                );
                OutcomeView::DispatchThen {
                    dispatches: seq![DispatchView::Workspace(WsTargetView::Name(workspace))] + (
                    if windows.len() > 0 {
                        seq![DispatchView::FocusWindow(canonical(windows[0]))]
                    } else {
                        seq![]
                    }),
                    result: ReplyView::Group {
                        operation: GroupOperation::Focused,
                        project: project.slug,
                        group,
                        windows: windows.len() as usize,
                    },
                }
            },
        }
    }

    /// `group.move`: the group, its slots and its windows go to another project.
    pub open spec fn group_moved(self, query: Seq<char>, group: Seq<char>, to: Seq<char>) -> (
        StateView,
        OutcomeView,
    ) {
        match (self.located(query, group), self.place_of(to)) {
            (Err(error), _) => (self, OutcomeView::Reply(Err(error))),
            (Ok(_), Err(error)) => (self, OutcomeView::Reply(Err(error))),
            (Ok((i, g)), Ok(j)) => {
                let source = self.projects[i];
                let target = self.projects[j];
                if group_index(target.groups, group, 0) is Some {
                    (self, OutcomeView::Reply(Err(has_group(target.slug, group))))
                } else {
                    let windows = self.members_of(source.id, group);
                    (
                        StateView {
                            projects: self.projects.update(i, without_group(source, g)).update(
                                j,
                                with_group_of(target, source, g),
                            ),
                            world: WorldView {
                                windows: all_regrouped(
                                    self.world.windows,
                                    source.id,
                                    group,
                                    target.id,
                                ),
                                ..self.world
                            },
                            ..self
                        }.emitting(
                            DomainEventView::GroupChanged { project: source.slug, group },
                        ).emitting(DomainEventView::GroupChanged { project: target.slug, group }),
                        OutcomeView::DispatchThen {
                            dispatches: moving(
                                windows,
                                self.workspace_of_group(
                                    target.slug,
                                    group,
                                    source.groups[g].hidden,
                                ),
                            ),
                            result: ReplyView::Group {
                                operation: GroupOperation::Moved,
                                project: target.slug,
                                group,
                                windows: windows.len() as usize,
                            },
                        },
                    )
                }
            },
        }
    }
}

// ---- carrying it out ------------------------------------------------------------------

fn find_group(groups: &Vec<Group>, slug: &str) -> (r: Option<usize>)
    ensures
        match (r, group_index(groups.deep_view(), slug@, 0)) {
            (Some(i), Some(j)) => i == j && i < groups.len(),
            (None, None) => true,
            _ => false,
        },
{
    let ghost views = groups.deep_view();
    let mut i: usize = 0;
    while i < groups.len()
        invariant
            i <= groups.len(),
            views == groups.deep_view(),
            group_index(views, slug@, 0) == group_index(views, slug@, i as int),
        decreases groups.len() - i,
    {
        assert(views[i as int] == groups@[i as int]@);
        if same(groups[i].slug.as_str(), slug) {
            return Some(i);
        }
        i = i + 1;
    }
    None
}

proof fn lemma_group_index(groups: Seq<GroupView>, slug: Seq<char>, from: int)
    requires
        0 <= from,
    ensures
        group_index(groups, slug, from) matches Some(i) ==> from <= i < groups.len()
            && groups[i].slug == slug,
    decreases groups.len() - from,
{
    if from < groups.len() && groups[from].slug != slug {
        lemma_group_index(groups, slug, from + 1);
    }
}

fn addresses_in(windows: &Vec<TrackedWindow>, project: ProjectId, group: &str) -> (r: Vec<String>)
    ensures
        r.deep_view() == members(windows.deep_view(), project, group@),
{
    let ghost views = windows.deep_view();
    let mut out: Vec<String> = Vec::new();
    let mut i: usize = 0;
    assert(views.take(0) =~= seq![]);
    assert(out.deep_view() =~= seq![]);
    while i < windows.len()
        invariant
            i <= windows.len(),
            views == windows.deep_view(),
            out.deep_view() == members(views.take(i as int), project, group@),
        decreases windows.len() - i,
    {
        assert(views.take(i + 1).drop_last() =~= views.take(i as int));
        assert(views[i as int] == windows@[i as int]@);
        if in_group(&windows[i], project, group) {
            let ghost before = out.deep_view();
            out.push(windows[i].address.clone());
            assert(out.deep_view() =~= before.push(views[i as int].address));
        }
        i = i + 1;
    }
    assert(views.take(i as int) =~= views);
    out
}

fn moves(addresses: &Vec<String>, workspace: &str) -> (r: Vec<Dispatch>)
    ensures
        r.deep_view() == moving(addresses.deep_view(), workspace@),
{
    let ghost views = addresses.deep_view();
    let mut out: Vec<Dispatch> = Vec::new();
    let mut i: usize = 0;
    while i < addresses.len()
        invariant
            i <= addresses.len(),
            views == addresses.deep_view(),
            out.len() == i,
            forall|k: int| 0 <= k < i ==> (#[trigger] out@[k])@ == moving(views, workspace@)[k],
        decreases addresses.len() - i,
    {
        assert(views[i as int] == addresses@[i as int]@);
        out.push(
            Dispatch::MoveToWorkspaceSilent {
                target: WsTarget::Name(workspace.to_owned()),
                address: WindowAddress::new(addresses[i].as_str()),
            },
        );
        i = i + 1;
    }
    assert(out.deep_view() =~= moving(views, workspace@));
    out
}

fn pick_slots(apps: &Vec<AppSlot>, group: &str, inside: bool) -> (r: Vec<AppSlot>)
    ensures
        r.deep_view() == slots_of(apps.deep_view(), group@, inside),
{
    let ghost views = apps.deep_view();
    let mut out: Vec<AppSlot> = Vec::new();
    let mut i: usize = 0;
    assert(views.take(0) =~= seq![]);
    assert(out.deep_view() =~= seq![]);
    while i < apps.len()
        invariant
            i <= apps.len(),
            views == apps.deep_view(),
            out.deep_view() == slots_of(views.take(i as int), group@, inside),
        decreases apps.len() - i,
    {
        assert(views.take(i + 1).drop_last() =~= views.take(i as int));
        assert(views[i as int] == apps@[i as int]@);
        let is_in = match &apps[i].group {
            Some(slug) => same(slug.as_str(), group),
            None => false,
        };
        if is_in == inside {
            let ghost before = out.deep_view();
            out.push(apps[i].clone());
            assert(out.deep_view() =~= before.push(views[i as int]));
        }
        i = i + 1;
    }
    assert(views.take(i as int) =~= views);
    out
}

fn group_message(before: &str, project: &str, middle: &str, group: &str) -> (r: String)
    ensures
        r@ == before@ + project@ + middle@ + group@ + "'"@,
{
    let mut out = around(before, project, middle);
    out.append(group);
    out.append("'");
    out
}

fn unknown_group(project: &Project, group: &str) -> (r: ErrorBody)
    ensures
        r@ == no_group(project@.slug, group@),
{
    ErrorBody::new(
        ErrorCode::NotFound,
        group_message("project '", project.slug.as_str(), "' has no group '", group),
    )
}

fn known_group(project: &Project, group: &str) -> (r: ErrorBody)
    ensures
        r@ == has_group(project@.slug, group@),
{
    ErrorBody::new(
        ErrorCode::Conflict,
        group_message("project '", project.slug.as_str(), "' already has a group '", group),
    )
}

impl StateActor {
    pub(crate) fn place(&self, query: &str) -> (r: Result<usize, ErrorBody>)
        requires
            is_resolvable(query@, self@.projects),
        ensures
            match (r, self@.place_of(query@)) {
                (Ok(i), Ok(j)) => i == j && i < self.projects.len(),
                (Err(error), Err(expected)) => error@ == expected,
                _ => false,
            },
    {
        match self.resolve(query) {
            Ok(project) => {
                proof {
                    let k = choose|k: int|
                        0 <= k < self@.projects.len() && self@.projects[k] == project@;
                    lemma_id_known(self@.projects, k, 0);
                    lemma_id_found(self@.projects, project@.id, 0);
                }
                match find_id(&self.projects, project.id) {
                    Some(i) => Ok(i),
                    None => Ok(0),
                }
            },
            Err(error) => Err(error),
        }
    }

    fn locate(&self, query: &str, group: &str) -> (r: Result<(usize, usize), ErrorBody>)
        requires
            is_resolvable(query@, self@.projects),
        ensures
            match (r, self@.located(query@, group@)) {
                (Ok((i, g)), Ok((j, h))) => {
                    &&& i == j && i < self.projects.len()
                    &&& g == h && g < self.projects@[i as int].groups.len()
                    &&& self@.projects[i as int].groups[g as int].slug == group@
                },
                (Err(error), Err(expected)) => error@ == expected,
                _ => false,
            },
    {
        match self.place(query) {
            Err(error) => Err(error),
            Ok(i) => {
                assert(self@.projects[i as int] == self.projects@[i as int]@);
                proof {
                    lemma_group_index(self@.projects[i as int].groups, group@, 0);
                }
                match find_group(&self.projects[i].groups, group) {
                    None => Err(unknown_group(&self.projects[i], group)),
                    Some(g) => Ok((i, g)),
                }
            },
        }
    }

    fn group_place(&self, project: &Slug, group: &Slug, hidden: bool) -> (r: String)
        ensures
            r@ == self@.workspace_of_group(project@, group@, hidden),
    {
        if hidden {
            group_workspace(self.config.general.workspace_prefix.as_str(), project, group)
        } else {
            self.ws_name(project)
        }
    }

    fn group_members(&self, project: ProjectId, group: &str) -> (r: Vec<String>)
        ensures
            r.deep_view() == self@.members_of(project, group@),
    {
        let windows = self.world.windows.sorted();
        proof {
            lemma_window_list(self@.world.windows, windows.deep_view(), windows.deep_view());
        }
        addresses_in(&windows, project, group)
    }

    pub(crate) fn group_create(
        &mut self,
        query: &str,
        name: String,
        slug: Option<String>,
    ) -> (r: Outcome)
        requires
            old(self)@.has_room(),
            is_resolvable(query@, old(self)@.projects),
        ensures
            (final(self)@, r@) == old(self)@.group_created(query@, name@, slug.deep_view()),
    {
        let i: usize = match self.place(query) {
            Ok(i) => i,
            Err(error) => {
                return Outcome::Reply(Err(error));
            },
        };
        let parsed = match &slug {
            Some(raw) => Slug::parse(raw.as_str()),
            None => Slug::from_display_name(name.as_str()),
        };
        let slug = match parsed {
            Ok(slug) => slug,
            Err(error) => {
                return refuse(ErrorCode::BadRequest, error.message());
            },
        };
        let ghost before = self.projects.deep_view();
        let mut project = self.projects[i].clone();
        assert(project@ == before[i as int]);
        if find_group(&project.groups, slug.as_str()).is_some() {
            return Outcome::Reply(Err(known_group(&project, slug.as_str())));
        }
        let ghost groups = project.groups.deep_view();
        let group = Group { slug: slug.clone(), name, hidden: false };
        project.groups.push(group);
        assert(project.groups.deep_view() =~= groups.push(group@));
        let ghost changed = project@;
        let owner = project.slug.clone();
        self.projects.set(i, project);
        assert(self.projects.deep_view() =~= before.update(i as int, changed));
        self.emit(
            DomainEvent::GroupChanged {
                project: owner.as_str().to_owned(),
                group: slug.as_str().to_owned(),
            },
        );
        Outcome::Reply(
            Ok(
                Reply::Group {
                    operation: GroupOperation::Created,
                    project: owner,
                    group: slug,
                    windows: 0,
                },
            ),
        )
    }

    pub(crate) fn group_add(&mut self, query: &str, group: &str, address: &str) -> (r: Outcome)
        requires
            old(self)@.has_room(),
            is_resolvable(query@, old(self)@.projects),
        ensures
            (final(self)@, r@) == old(self)@.group_added(query@, group@, address@),
    {
        let (i, g) = match self.locate(query, group) {
            Ok(found) => found,
            Err(error) => {
                return Outcome::Reply(Err(error));
            },
        };
        if !self.world.windows.contains(address) {
            return refuse(
                ErrorCode::NotFound,
                behind("no window at address ", address),
            );
        }
        assert(self@.projects[i as int] == self.projects@[i as int]@);
        let id = self.projects[i].id;
        let owner = self.projects[i].slug.clone();
        let slug = self.projects[i].groups[g].slug.clone();
        let hidden = self.projects[i].groups[g].hidden;
        let target = self.group_place(&owner, &slug, hidden);
        let mut addresses: Vec<String> = Vec::new();
        addresses.push(address.to_owned());
        assert(addresses.deep_view() =~= seq![address@]);
        let dispatches = moves(&addresses, target.as_str());
        self.world.assign(address, id, Some(slug.clone()), AssignmentSource::Manual);
        self.emit(
            DomainEvent::GroupChanged {
                project: owner.as_str().to_owned(),
                group: slug.as_str().to_owned(),
            },
        );
        Outcome::DispatchThen {
            dispatches,
            result: Reply::Group {
                operation: GroupOperation::Added,
                project: owner,
                group: slug,
                windows: 1,
            },
        }
    }

    pub(crate) fn group_remove(&mut self, query: &str, group: &str, address: &str) -> (r: Outcome)
        requires
            old(self)@.has_room(),
            is_resolvable(query@, old(self)@.projects),
        ensures
            (final(self)@, r@) == old(self)@.group_removed(query@, group@, address@),
    {
        let (i, g) = match self.locate(query, group) {
            Ok(found) => found,
            Err(error) => {
                return Outcome::Reply(Err(error));
            },
        };
        assert(self@.projects[i as int] == self.projects@[i as int]@);
        let id = self.projects[i].id;
        let belongs = match self.world.windows.get(address) {
            None => {
                return refuse(
                    ErrorCode::NotFound,
                    behind("no window at address ", address),
                );
            },
            Some(window) => in_group(window, id, group),
        };
        if !belongs {
            return refuse(
                ErrorCode::NotFound,
                group_message("window ", address, " is not in group '", group),
            );
        }
        let owner = self.projects[i].slug.clone();
        let slug = self.projects[i].groups[g].slug.clone();
        let hidden = self.projects[i].groups[g].hidden;
        let mut addresses: Vec<String> = Vec::new();
        if hidden {
            addresses.push(address.to_owned());
            assert(addresses.deep_view() =~= seq![address@]);
        } else {
            assert(addresses.deep_view() =~= seq![]);
        }
        let target = self.ws_name(&owner);
        let dispatches = moves(&addresses, target.as_str());
        assert(!hidden ==> dispatches.deep_view() =~= seq![]);
        self.world.assign(address, id, None, AssignmentSource::Manual);
        self.emit(
            DomainEvent::GroupChanged {
                project: owner.as_str().to_owned(),
                group: slug.as_str().to_owned(),
            },
        );
        Outcome::DispatchThen {
            dispatches,
            result: Reply::Group {
                operation: GroupOperation::Removed,
                project: owner,
                group: slug,
                windows: 1,
            },
        }
    }

    pub(crate) fn group_park(&mut self, query: &str, group: &str, hidden: bool) -> (r: Outcome)
        requires
            old(self)@.has_room(),
            is_resolvable(query@, old(self)@.projects),
        ensures
            (final(self)@, r@) == old(self)@.group_parked(query@, group@, hidden),
    {
        let (i, g) = match self.locate(query, group) {
            Ok(found) => found,
            Err(error) => {
                return Outcome::Reply(Err(error));
            },
        };
        let ghost before = self.projects.deep_view();
        let mut project = self.projects[i].clone();
        assert(project@ == before[i as int]);
        let ghost groups = project.groups.deep_view();
        let owner = project.slug.clone();
        let slug = project.groups[g].slug.clone();
        let windows = self.group_members(project.id, group);
        let target = self.group_place(&owner, &slug, hidden);
        let dispatches = moves(&windows, target.as_str());
        let mut changed = project.groups[g].clone();
        changed.hidden = hidden;
        project.groups.set(g, changed);
        assert(project.groups.deep_view() =~= groups.update(g as int, changed@));
        assert(project@ =~= with_hidden(before[i as int], g as int, hidden));
        self.projects.set(i, project);
        assert(self.projects.deep_view() =~= before.update(i as int, project@));
        self.emit(
            DomainEvent::GroupChanged {
                project: owner.as_str().to_owned(),
                group: slug.as_str().to_owned(),
            },
        );
        Outcome::DispatchThen {
            dispatches,
            result: Reply::Group {
                operation: if hidden {
                    GroupOperation::Hidden
                } else {
                    GroupOperation::Shown
                },
                project: owner,
                group: slug,
                windows: windows.len(),
            },
        }
    }

    pub(crate) fn group_focus(&self, query: &str, group: &str) -> (r: Outcome)
        requires
            is_resolvable(query@, self@.projects),
        ensures
            r@ == self@.group_focused(query@, group@),
    {
        let (i, g) = match self.locate(query, group) {
            Ok(found) => found,
            Err(error) => {
                return Outcome::Reply(Err(error));
            },
        };
        assert(self@.projects[i as int] == self.projects@[i as int]@);
        let project = &self.projects[i];
        let owner = project.slug.clone();
        let slug = project.groups[g].slug.clone();
        let windows = self.group_members(project.id, group);
        let target = self.group_place(&owner, &slug, project.groups[g].hidden);
        let mut dispatches: Vec<Dispatch> = Vec::new();
        dispatches.push(Dispatch::Workspace(WsTarget::Name(target)));
        if windows.len() > 0 {
            assert(windows.deep_view()[0] == windows@[0]@);
            dispatches.push(Dispatch::FocusWindow(WindowAddress::new(windows[0].as_str())));
        }
        let r = Outcome::DispatchThen {
            dispatches,
            result: Reply::Group {
                operation: GroupOperation::Focused,
                project: owner,
                group: slug,
                windows: windows.len(),
            },
        };
        assert(r@->dispatches =~= self@.group_focused(query@, group@)->dispatches);
        r
    }

    pub(crate) fn group_move(&mut self, query: &str, group: &str, to: &str) -> (r: Outcome)
        requires
            old(self)@.has_room(),
            is_resolvable(query@, old(self)@.projects),
            is_resolvable(to@, old(self)@.projects),
        ensures
            (final(self)@, r@) == old(self)@.group_moved(query@, group@, to@),
    {
        let (i, g) = match self.locate(query, group) {
            Ok(found) => found,
            Err(error) => {
                return Outcome::Reply(Err(error));
            },
        };
        let j: usize = match self.place(to) {
            Ok(j) => j,
            Err(error) => {
                return Outcome::Reply(Err(error));
            },
        };
        let ghost before = self.projects.deep_view();
        let mut source = self.projects[i].clone();
        let mut target = self.projects[j].clone();
        assert(source@ == before[i as int]);
        assert(target@ == before[j as int]);
        if find_group(&target.groups, group).is_some() {
            return Outcome::Reply(Err(known_group(&target, group)));
        }
        let windows = self.group_members(source.id, group);
        let ghost from = source@;
        let ghost into = target@;
        let moved = source.groups.remove(g);
        assert(source.groups.deep_view() =~= from.groups.remove(g as int));
        assert(moved@ == from.groups[g as int]);
        let slug = moved.slug.clone();
        let workspace = self.group_place(&target.slug, &slug, moved.hidden);
        let dispatches = moves(&windows, workspace.as_str());
        let mut arriving = pick_slots(&source.apps, group, true);
        source.apps = pick_slots(&source.apps, group, false);
        assert(source@ =~= without_group(from, g as int));
        target.groups.push(moved);
        assert(target.groups.deep_view() =~= into.groups.push(moved@));
        let ghost coming = arriving.deep_view();
        let ghost there = target.apps.deep_view();
        target.apps.append(&mut arriving);
        assert(target.apps.deep_view() =~= there + coming);
        assert(target@ =~= with_group_of(into, from, g as int));
        let left = source.slug.clone();
        let owner = target.slug.clone();
        self.world.windows.move_group(source.id, &slug, target.id);
        let ghost without = source@;
        let ghost with = target@;
        self.projects.set(i, source);
        self.projects.set(j, target);
        assert(self.projects.deep_view() =~= before.update(i as int, without).update(
            j as int,
            with,
        ));
        self.emit(
            DomainEvent::GroupChanged {
                project: left.as_str().to_owned(),
                group: slug.as_str().to_owned(),
            },
        );
        self.emit(
            DomainEvent::GroupChanged {
                project: owner.as_str().to_owned(),
                group: slug.as_str().to_owned(),
            },
        );
        Outcome::DispatchThen {
            dispatches,
            result: Reply::Group {
                operation: GroupOperation::Moved,
                project: owner,
                group: slug,
                windows: windows.len(),
            },
        }
    }
}

// ---- laws -----------------------------------------------------------------------------

/// No two projects have one id.
pub open spec fn project_ids_distinct(projects: Seq<ProjectView>) -> bool {
    forall|i: int, j: int|
        0 <= i < j < projects.len() ==> (#[trigger] projects[i]).id != (#[trigger] projects[j]).id
}

/// No two groups have one slug.
pub open spec fn groups_distinct(groups: Seq<GroupView>) -> bool {
    forall|i: int, j: int|
        0 <= i < j < groups.len() ==> (#[trigger] groups[i]).slug != (#[trigger] groups[j]).slug
}

proof fn lemma_group_found(groups: Seq<GroupView>, g: int, from: int)
    requires
        groups_distinct(groups),
        0 <= from <= g < groups.len(),
    ensures
        group_index(groups, groups[g].slug, from) == Some(g),
    decreases groups.len() - from,
{
    if from < g {
        assert(groups[from].slug != groups[g].slug);
        lemma_group_found(groups, g, from + 1);
    }
}

/// A group is found under its project's slug and its own.
proof fn lemma_located(state: StateView, i: int, g: int)
    requires
        slugs_distinct(state.projects),
        project_ids_distinct(state.projects),
        0 <= i < state.projects.len(),
        groups_distinct(state.projects[i].groups),
        0 <= g < state.projects[i].groups.len(),
    ensures
        state.located(state.projects[i].slug, state.projects[i].groups[g].slug) == Ok::<
            (int, int),
            ErrorBodyView,
        >((i, g)),
{
    let slug = state.projects[i].slug;
    let scores = project_scores(slug, state.projects);
    law_exact_slug_wins(slug, state.projects, scores, i);
    law_resolutions_are_projects(slug, state.projects, scores);
    let found = state.resolved(slug)->Ok_0;
    let k = choose|k: int| 0 <= k < state.projects.len() && state.projects[k] == found;
    if k < i {
        assert(state.projects[k].slug != state.projects[i].slug);
    } else if i < k {
        assert(state.projects[i].slug != state.projects[k].slug);
    }
    lemma_id_known(state.projects, i, 0);
    lemma_id_found(state.projects, state.projects[i].id, 0);
    let at = id_index(state.projects, state.projects[i].id, 0)->0;
    if at < i {
        assert(state.projects[at].id != state.projects[i].id);
    } else if i < at {
        assert(state.projects[i].id != state.projects[at].id);
    }
    lemma_group_found(state.projects[i].groups, g, 0);
}

/// Hiding parks exactly the group's windows on the group's own workspace;
/// showing it again brings the same windows back to the project's workspace and
/// leaves the projects as they would be had the group never been hidden.
pub proof fn law_showing_undoes_hiding(state: StateView, i: int, g: int)
    requires
        slugs_distinct(state.projects),
        project_ids_distinct(state.projects),
        0 <= i < state.projects.len(),
        groups_distinct(state.projects[i].groups),
        0 <= g < state.projects[i].groups.len(),
    ensures
        ({
            let project = state.projects[i];
            let group = project.groups[g].slug;
            let windows = state.members_of(project.id, group);
            let (hidden, parking) = state.group_parked(project.slug, group, true);
            let (shown, back) = hidden.group_parked(project.slug, group, false);
            &&& hidden.projects[i].groups[g].hidden
            &&& parking matches OutcomeView::DispatchThen { dispatches, .. } && dispatches
                == moving(
                windows,
                group_name(state.config.general.workspace_prefix, project.slug, group),
            )
            &&& back matches OutcomeView::DispatchThen { dispatches, .. } && dispatches == moving(
                windows,
                state.workspace_of(project.slug),
            )
            &&& shown.projects == state.projects.update(i, with_hidden(project, g, false))
            &&& shown.world == state.world
        }),
{
    let project = state.projects[i];
    let group = project.groups[g].slug;
    lemma_located(state, i, g);
    let (hidden, parking) = state.group_parked(project.slug, group, true);
    let changed = hidden.projects[i];
    assert(changed == with_hidden(project, g, true));
    assert(slugs_distinct(hidden.projects)) by {
        assert forall|a: int, b: int| 0 <= a < b < hidden.projects.len() implies (
        #[trigger] hidden.projects[a]).slug != (#[trigger] hidden.projects[b]).slug by {
            assert(state.projects[a].slug != state.projects[b].slug);
        }
    }
    assert(project_ids_distinct(hidden.projects)) by {
        assert forall|a: int, b: int| 0 <= a < b < hidden.projects.len() implies (
        #[trigger] hidden.projects[a]).id != (#[trigger] hidden.projects[b]).id by {
            assert(state.projects[a].id != state.projects[b].id);
        }
    }
    assert(groups_distinct(changed.groups)) by {
        assert forall|a: int, b: int| 0 <= a < b < changed.groups.len() implies (
        #[trigger] changed.groups[a]).slug != (#[trigger] changed.groups[b]).slug by {
            assert(project.groups[a].slug != project.groups[b].slug);
        }
    }
    lemma_located(hidden, i, g);
    let (shown, back) = hidden.group_parked(project.slug, group, false);
    assert(with_hidden(changed, g, false).groups =~= with_hidden(project, g, false).groups);
    assert(shown.projects =~= state.projects.update(i, with_hidden(project, g, false)));
}

/// A window that was added to a group belongs to it; taken out again, it is
/// still the project's, in no group.
pub proof fn law_windows_join_and_leave_groups(
    state: StateView,
    i: int,
    g: int,
    address: Seq<char>,
)
    requires
        slugs_distinct(state.projects),
        project_ids_distinct(state.projects),
        0 <= i < state.projects.len(),
        groups_distinct(state.projects[i].groups),
        0 <= g < state.projects[i].groups.len(),
        state.world.windows.dom().contains(address),
    ensures
        ({
            let project = state.projects[i];
            let group = project.groups[g].slug;
            let joined = state.group_added(project.slug, group, address).0;
            let left = joined.group_removed(project.slug, group, address).0;
            &&& is_in_group(joined.world.windows[address], project.id, group)
            &&& left.world.windows[address].assignment == Some((project.id, None::<Seq<char>>))
        }),
{
    lemma_located(state, i, g);
    let project = state.projects[i];
    let joined = state.group_added(project.slug, project.groups[g].slug, address).0;
    lemma_located(joined, i, g);
}

} // verus!
