//! What requests do to the daemon's state and how they are answered.
//!
//! Requests that need compositor dispatches (switching, assigning) change the
//! state at once; their answer waits for the dispatches.

use vstd::prelude::*;

use crate::daemon::importing::file_view;
use crate::daemon::saving::Captured;
use crate::daemon::state::{find_id, find_slug, same_id, StateActor};
use crate::daemon::state::{id_index, slug_index, StateView};
use crate::domain::config::{Config, ConfigError};
use crate::domain::config::{config_problem, ConfigErrorView, ConfigView};
use crate::domain::events::DomainEvent;
use crate::domain::events::DomainEventView;
use crate::domain::model::{Group, Project, ProjectId, Slug};
use crate::domain::model::{is_slug, slug_of, GroupView, ModelErrorView, ProjectView};
use crate::domain::restore::{candidates_for, plan, RestorePlan};
use crate::domain::restore::{candidates, restore_plan, RestorePlanView};
use crate::domain::rules::{MatcherRegistry, RuleError, RuleSet, RulesFile};
use crate::domain::rules::{
    compilation, matching, CompiledRuleView, Factory, RuleErrorView,
};
use crate::domain::listing::in_listing_order;
use crate::domain::listing::listing;
use crate::domain::search::{resolve, Resolution};
use crate::domain::search::{
    is_resolvable, law_resolutions_are_projects, project_scores, project_views, resolution,
    ResolutionView,
};
use crate::domain::world::{AssignmentSource, MonitorInfo};
use crate::domain::world::{
    all_released, assigned_count, is_window_list, is_workspace_list, lemma_window_list,
    window_list, workspace_named, AssignmentSourceView, MonitorInfoView, WorldView,
};
use crate::hypr::ctl::{Dispatch, WsTarget};
use crate::hypr::ctl::{DispatchView, WsTargetView};
use crate::hypr::model::WindowAddress;
use crate::hypr::model::canonical;
use crate::paths::join_path;
use crate::paths::joined_path;
use crate::pieces::join;
use crate::pieces::joined;
use crate::proto::{
    DaemonStatus, ErrorBody, ErrorCode, ProjectSummary, Reply, Request, RuleMatch, RuleReport,
    Snapshot,
};
use crate::proto::{
    DaemonStatusView, ErrorBodyView, ProjectSummaryView, ReplyView, RequestView, RuleMatchView,
    RuleReportView, SnapshotView,
};
use crate::storage::projects::{project_file, PROJECT_VERSION};
use crate::text::same;

verus! {

/// What reading a file of the configuration gave.
#[derive(Debug)]
pub enum Loaded<T> {
    /// There is no such file.
    Missing,
    /// The file cannot be read, and why.
    Unreadable(String),
    /// The file is not TOML of the right shape, and why.
    Malformed(String),
    /// What the file says.
    Ready(T),
}

/// What was read and captured for a request.
#[derive(Debug)]
pub struct Gathered {
    /// What reading `config.toml` gave; for `config.reload`.
    pub config: Loaded<Config>,
    /// What reading `rules.toml` gave; for `config.reload`.
    pub rules: Loaded<RulesFile>,
    /// What was found out about windows; for `project.save` and
    /// `project.capture`.
    pub captured: Vec<Captured>,
    /// The project that a file holds, or why it is refused; for
    /// `project.import`.
    pub imported: Result<Project, String>,
}

/// How a request concludes: an immediate answer, or one gated on Hyprland
/// dispatches.
#[derive(Debug)]
pub enum Outcome {
    /// The answer.
    Reply(Result<Reply, ErrorBody>),
    /// The answer once the dispatches have succeeded.
    DispatchThen {
        /// What Hyprland is told.
        dispatches: Vec<Dispatch>,
        /// The answer.
        result: Reply,
    },
    /// The answer, and a restore run that begins.
    Restore {
        /// The project to restore.
        project: ProjectId,
        /// What is to be done.
        plan: RestorePlan,
        /// The answer.
        result: Reply,
    },
}

/// What an [`Outcome`] holds.
#[verifier::ext_equal]
pub enum OutcomeView {
    /// See [`Outcome::Reply`].
    Reply(Result<ReplyView, ErrorBodyView>),
    /// See [`Outcome::DispatchThen`].
    DispatchThen {
        /// What Hyprland is told.
        dispatches: Seq<DispatchView>,
        /// The answer.
        result: ReplyView,
    },
    /// See [`Outcome::Restore`].
    Restore {
        /// The project to restore.
        project: ProjectId,
        /// What is to be done.
        plan: RestorePlanView,
        /// The answer.
        result: ReplyView,
    },
}

impl View for Outcome {
    type V = OutcomeView;

    open spec fn view(&self) -> OutcomeView {
        match self {
            Outcome::Reply(Ok(reply)) => OutcomeView::Reply(Ok(reply@)),
            Outcome::Reply(Err(error)) => OutcomeView::Reply(Err(error@)),
            Outcome::DispatchThen { dispatches, result } => OutcomeView::DispatchThen {
                dispatches: dispatches.deep_view(),
                result: result@,
            },
            Outcome::Restore { project, plan, result } => OutcomeView::Restore {
                project: *project,
                plan: plan@,
                result: result@,
            },
        }
    }
}

/// A refusal.
pub open spec fn refused(code: ErrorCode, message: Seq<char>) -> OutcomeView {
    OutcomeView::Reply(Err(ErrorBodyView { code, message, candidates: None }))
}

/// The refusal of a request about a project that none is named for.
pub open spec fn no_project() -> ErrorBodyView {
    ErrorBodyView {
        code: ErrorCode::BadRequest,
        message: "no project given and none is active"@,
        candidates: None,
    }
}

pub(crate) fn refuse(code: ErrorCode, message: String) -> (r: Outcome)
    ensures
        r@ == refused(code, message@),
{
    Outcome::Reply(Err(ErrorBody::new(code, message)))
}

/// The slugs of projects.
pub open spec fn slugs(projects: Seq<ProjectView>) -> Seq<Seq<char>> {
    Seq::new(projects.len(), |i: int| projects[i].slug)
}

/// The slugs of groups.
pub open spec fn group_slugs(groups: Seq<GroupView>) -> Seq<Seq<char>> {
    Seq::new(groups.len(), |i: int| groups[i].slug)
}

/// The messages of errors.
pub open spec fn messages(errors: Seq<RuleErrorView>) -> Seq<Seq<char>> {
    Seq::new(errors.len(), |i: int| errors[i].message())
}

/// The rules that a file gives: none when it is missing; otherwise every
/// problem named.
pub open spec fn loaded_rules(
    registry: Seq<Factory>,
    path: Seq<char>,
    file: Loaded<RulesFile>,
) -> Result<Seq<CompiledRuleView>, Seq<char>> {
    match file {
        Loaded::Missing => Ok(Seq::empty()),
        Loaded::Unreadable(error) => Err("cannot read "@ + path + ": "@ + error@),
        Loaded::Malformed(error) => Err(RuleErrorView::Toml(error@).message()),
        Loaded::Ready(file) => match compilation(registry, file@) {
            Ok(rules) => Ok(rules),
            Err(errors) => Err(joined(messages(errors), "; "@)),
        },
    }
}

/// The configuration that a file gives: the standard one when it is missing.
pub open spec fn loaded_config(path: Seq<char>, file: Loaded<Config>) -> Result<
    ConfigView,
    Seq<char>,
> {
    let invalid = path + " invalid \u{2014} keeping current config: "@;
    match file {
        Loaded::Missing => Ok(ConfigView::standard()),
        Loaded::Unreadable(error) => Err("cannot read "@ + path + ": "@ + error@),
        Loaded::Malformed(error) => Err(invalid + ConfigErrorView::Toml(error@).message()),
        Loaded::Ready(config) => match config_problem(config@) {
            Some(problem) => Err(invalid + problem.message()),
            None => Ok(config@),
        },
    }
}

/// The report on one rule.
pub open spec fn rule_match(rule: CompiledRuleView) -> RuleMatchView {
    RuleMatchView { rule: rule.name, project: rule.project, group: rule.group, stop: rule.stop }
}

/// The report on the rules that match a window.
pub open spec fn rule_matches(rules: Seq<CompiledRuleView>) -> Seq<RuleMatchView> {
    Seq::new(rules.len(), |i: int| rule_match(rules[i]))
}

/// Whether a monitor has the name.
pub open spec fn monitor_named(monitors: Seq<MonitorInfoView>, name: Seq<char>) -> bool {
    exists|i: int| 0 <= i < monitors.len() && (#[trigger] monitors[i]).name == name
}

/// Whether a group has the slug.
pub open spec fn group_known(groups: Seq<GroupView>, slug: Seq<char>) -> bool {
    exists|i: int| 0 <= i < groups.len() && (#[trigger] groups[i]).slug == slug
}

impl StateView {
    /// What a project looks like from outside.
    pub open spec fn summary(self, project: ProjectView) -> ProjectSummaryView {
        ProjectSummaryView {
            slug: project.slug,
            name: project.name,
            active: self.world.active_project == Some(project.id),
            windows: assigned_count(self.world.windows, project.id) as usize,
            groups: group_slugs(project.groups),
            workspace: self.workspace_of(project.slug),
        }
    }

    /// What all projects look like from outside, in listing order.
    pub open spec fn summaries(self) -> Seq<ProjectSummaryView> {
        let order = listing(self.projects);
        Seq::new(order.len(), |i: int| self.summary(order[i]))
    }

    /// The daemon's state in numbers.
    pub open spec fn status(self, uptime: u64) -> DaemonStatusView {
        DaemonStatusView {
            version: self.version,
            uptime_s: uptime,
            hypr_connected: self.world.hypr_connected,
            active_project: self.slug_of_id(self.world.active_project),
            windows: self.world.windows.dom().len() as usize,
            projects: self.projects.len() as usize,
            update_available: self.update,
        }
    }

    /// Whether a snapshot shows this state: windows by ascending address,
    /// workspaces by ascending id.
    pub open spec fn is_shown_by(self, snapshot: SnapshotView) -> bool {
        &&& snapshot.projects == self.summaries()
        &&& is_window_list(self.world.windows, snapshot.windows)
        &&& is_workspace_list(self.world.workspaces, snapshot.workspaces)
        &&& snapshot.monitors == self.world.monitors
        &&& snapshot.focused_window == self.world.focused_window
        &&& snapshot.hypr_connected == self.world.hypr_connected
        &&& snapshot.update_available == self.update
    }

    /// The one project that a query means, or the refusal.
    pub open spec fn resolved(self, query: Seq<char>) -> Result<ProjectView, ErrorBodyView> {
        match resolution(query, self.projects, project_scores(query, self.projects)) {
            ResolutionView::Match(project) => Ok(project),
            ResolutionView::Ambiguous(candidates) => Err(
                ErrorBodyView {
                    code: ErrorCode::Ambiguous,
                    message: "'"@ + query + "' matches several projects"@,
                    candidates: Some(slugs(candidates)),
                },
            ),
            ResolutionView::NotFound => Err(
                ErrorBodyView {
                    code: ErrorCode::NotFound,
                    message: "no project matching '"@ + query + "'"@,
                    candidates: Some(slugs(self.projects)),
                },
            ),
        }
    }

    /// `rules.test`.
    pub open spec fn rules_tested(self, address: Option<Seq<char>>) -> OutcomeView {
        let address = if address is Some {
            address
        } else {
            self.world.focused_window
        };
        match address {
            None => refused(
                ErrorCode::BadRequest,
                "no address given and no window is focused"@,
            ),
            Some(address) => if !self.world.windows.dom().contains(address) {
                refused(ErrorCode::NotFound, "no window at address "@ + address)
            } else {
                let facts = self.world.windows[address].facts;
                OutcomeView::Reply(
                    Ok(
                        ReplyView::Rules(
                            RuleReportView {
                                address,
                                class: facts.class,
                                title: facts.title,
                                executable: facts.executable,
                                matches: rule_matches(matching(self.rules, facts)),
                            },
                        ),
                    ),
                )
            },
        }
    }

    /// `config.reload`: both files count or neither.
    pub open spec fn reloaded(
        self,
        config: Loaded<Config>,
        rules: Loaded<RulesFile>,
    ) -> (StateView, OutcomeView) {
        match self.config_dir {
            None => (
                self,
                refused(
                    ErrorCode::BadRequest,
                    "daemon was started without a config directory"@,
                ),
            ),
            Some(dir) => match loaded_config(joined_path(dir, "config.toml"@), config) {
                Err(message) => (self, refused(ErrorCode::BadRequest, message)),
                Ok(config) => match loaded_rules(
                    self.registry,
                    joined_path(dir, "rules.toml"@),
                    rules,
                ) {
                    Err(message) => (
                        self,
                        refused(
                            ErrorCode::BadRequest,
                            "rules.toml invalid \u{2014} keeping current rules: "@ + message,
                        ),
                    ),
                    Ok(rules) => (
                        StateView { config, rules, ..self },
                        OutcomeView::Reply(
                            Ok(ReplyView::Reloaded { rules: rules.len() as usize }),
                        ),
                    ),
                },
            },
        }
    }

    /// `project.create` under the given id.
    pub open spec fn created(
        self,
        name: Seq<char>,
        slug: Option<Seq<char>>,
        id: ProjectId,
    ) -> (StateView, OutcomeView) {
        let wanted = match slug {
            Some(raw) => if is_slug(raw) {
                Ok(raw)
            } else {
                Err(raw)
            },
            None => match slug_of(name) {
                Some(slug) => Ok(slug),
                None => Err(name),
            },
        };
        match wanted {
            Err(raw) => (
                self,
                refused(ErrorCode::BadRequest, ModelErrorView::InvalidSlug(raw).message()),
            ),
            Ok(slug) => self.adding(ProjectView::fresh(id, slug, name)),
        }
    }

    /// What happens when a project is to be added: its slug and its workspace
    /// must be free.
    pub open spec fn adding(self, project: ProjectView) -> (StateView, OutcomeView) {
        let slug = project.slug;
        if slug_index(self.projects, slug, 0) is Some {
            (self, refused(ErrorCode::Conflict, "project '"@ + slug + "' already exists"@))
        } else if workspace_named(self.world.workspaces, self.workspace_of(slug)) {
            (
                self,
                refused(
                    ErrorCode::Conflict,
                    "a workspace named '"@ + self.workspace_of(slug)
                        + "' already exists in Hyprland and does not belong to omarchy-workspaces; pick another slug or set general.workspace_prefix"@,
                ),
            )
        } else {
            (
                StateView { projects: self.projects.push(project), ..self }.emitting(
                    DomainEventView::ProjectCreated { slug, name: project.name },
                ),
                OutcomeView::Reply(Ok(ReplyView::Project(self.summary(project)))),
            )
        }
    }

    /// `project.duplicate` under the given id: a copy under another name.
    pub open spec fn duplicated(self, query: Seq<char>, name: Seq<char>, id: ProjectId) -> (
        StateView,
        OutcomeView,
    ) {
        match self.resolved(query) {
            Err(error) => (self, OutcomeView::Reply(Err(error))),
            Ok(original) => match slug_of(name) {
                None => (
                    self,
                    refused(ErrorCode::BadRequest, ModelErrorView::InvalidSlug(name).message()),
                ),
                Some(slug) => self.adding(ProjectView { id, slug, name, ..original }),
            },
        }
    }

    /// `project.export`: what is written for the project.
    pub open spec fn exported(self, query: Seq<char>) -> OutcomeView {
        match self.resolved(query) {
            Err(error) => OutcomeView::Reply(Err(error)),
            Ok(project) => OutcomeView::Reply(
                Ok(ReplyView::Exported { version: PROJECT_VERSION, project }),
            ),
        }
    }

    /// The project that a query means, or the active one without a query.
    pub open spec fn resolved_or_active(self, query: Option<Seq<char>>) -> Result<
        ProjectView,
        ErrorBodyView,
    > {
        match query {
            Some(query) => self.resolved(query),
            None => match self.world.active_project {
                Some(id) => match id_index(self.projects, id, 0) {
                    Some(i) => Ok(self.projects[i]),
                    None => Err(no_project()),
                },
                None => Err(no_project()),
            },
        }
    }

    /// `project.restore`: the plan for the windows that may satisfy its slots.
    pub open spec fn restored(self, query: Option<Seq<char>>, dry_run: bool) -> OutcomeView {
        match self.resolved_or_active(query) {
            Err(error) => OutcomeView::Reply(Err(error)),
            Ok(project) => match restore_plan(
                project,
                candidates(window_list(self.world.windows), project),
                self.config.general.workspace_prefix,
            ) {
                Err(error) => refused(ErrorCode::BadRequest, error.message()),
                Ok(plan) => if dry_run {
                    OutcomeView::Reply(Ok(ReplyView::Plan(plan)))
                } else {
                    OutcomeView::Restore {
                        project: project.id,
                        plan,
                        result: ReplyView::Started(plan),
                    }
                },
            },
        }
    }

    /// `project.delete`: its windows are released.
    pub open spec fn deleted(self, slug: Seq<char>) -> (StateView, OutcomeView) {
        match slug_index(self.projects, slug, 0) {
            None => (
                self,
                refused(
                    ErrorCode::NotFound,
                    "no project with slug '"@ + slug + "' (delete requires the exact slug)"@,
                ),
            ),
            Some(i) => {
                let id = self.projects[i].id;
                let released = StateView {
                    projects: self.projects.remove(i),
                    world: WorldView {
                        windows: all_released(self.world.windows, id),
                        ..self.world
                    },
                    ..self
                };
                let settled = if self.world.active_project == Some(id) {
                    StateView {
                        world: WorldView { active_project: None, ..released.world },
                        ..released
                    }.emitting(DomainEventView::ProjectSwitched { slug: None })
                } else {
                    released
                };
                (
                    settled.emitting(DomainEventView::ProjectDeleted { slug }),
                    OutcomeView::Reply(Ok(ReplyView::Deleted(slug))),
                )
            },
        }
    }

    /// `project.rename`: the display name only.
    pub open spec fn renamed(self, slug: Seq<char>, name: Seq<char>) -> (StateView, OutcomeView) {
        match slug_index(self.projects, slug, 0) {
            None => (
                self,
                refused(ErrorCode::NotFound, "no project with slug '"@ + slug + "'"@),
            ),
            Some(i) => {
                let project = ProjectView { name, ..self.projects[i] };
                (
                    StateView { projects: self.projects.update(i, project), ..self }.emitting(
                        DomainEventView::ProjectRenamed { slug, name },
                    ),
                    OutcomeView::Reply(Ok(ReplyView::Project(self.summary(project)))),
                )
            },
        }
    }

    /// The dispatches that bring a project up: its workspace, moved to the
    /// preferred monitor first where that is configured and both exist.
    pub open spec fn switch_dispatches(self, project: ProjectView) -> Seq<DispatchView> {
        let name = self.workspace_of(project.slug);
        let target = WsTargetView::Name(name);
        let focus = seq![DispatchView::Workspace(target)];
        match project.monitor {
            Some(monitor) => if self.config.switch.move_workspace_to_preferred_monitor
                && monitor_named(self.world.monitors, monitor) && workspace_named(
                self.world.workspaces,
                name,
            ) {
                seq![DispatchView::MoveWorkspaceToMonitor { workspace: target, monitor }] + focus
            } else {
                focus
            },
            None => focus,
        }
    }

    /// `project.switch`.
    pub open spec fn switched(self, query: Seq<char>) -> (StateView, OutcomeView) {
        match self.resolved(query) {
            Err(error) => (self, OutcomeView::Reply(Err(error))),
            Ok(project) => {
                let after = StateView {
                    world: WorldView { active_project: Some(project.id), ..self.world },
                    ..self
                }.emitting(DomainEventView::ProjectSwitched { slug: Some(project.slug) });
                let shown = self.projects[id_index(self.projects, project.id, 0)->0];
                (
                    after,
                    OutcomeView::DispatchThen {
                        dispatches: self.switch_dispatches(project),
                        result: ReplyView::Project(after.summary(shown)),
                    },
                )
            },
        }
    }

    /// `window.assign`: a manual assignment, which rules never override.
    pub open spec fn assigned(
        self,
        address: Seq<char>,
        query: Seq<char>,
        group: Option<Seq<char>>,
    ) -> (StateView, OutcomeView) {
        if !self.world.windows.dom().contains(address) {
            (self, refused(ErrorCode::NotFound, "no window at address "@ + address))
        } else {
            match self.resolved(query) {
                Err(error) => (self, OutcomeView::Reply(Err(error))),
                Ok(project) => if group matches Some(raw) && !is_slug(raw) {
                    (
                        self,
                        refused(
                            ErrorCode::BadRequest,
                            ModelErrorView::InvalidSlug(group->0).message(),
                        ),
                    )
                } else if group matches Some(raw) && !group_known(project.groups, raw) {
                    (
                        self,
                        refused(
                            ErrorCode::NotFound,
                            "project '"@ + project.slug + "' has no group '"@ + group->0 + "'"@,
                        ),
                    )
                } else {
                    (
                        StateView {
                            world: self.world.with_assignment(
                                address,
                                project.id,
                                group,
                                AssignmentSourceView::Manual,
                            ),
                            ..self
                        },
                        OutcomeView::DispatchThen {
                            dispatches: seq![
                                DispatchView::MoveToWorkspaceSilent {
                                    target: WsTargetView::Name(self.workspace_of(project.slug)),
                                    address: canonical(address),
                                },
                            ],
                            result: ReplyView::Assigned { address, project: project.slug },
                        },
                    )
                },
            }
        }
    }

    /// Whether the queries of a request can be resolved.
    pub open spec fn can_search(self, request: RequestView) -> bool {
        match request {
            RequestView::ProjectSwitch { project } => is_resolvable(project, self.projects),
            RequestView::ProjectDuplicate { project, .. } => is_resolvable(project, self.projects),
            RequestView::ProjectExport { project } => is_resolvable(project, self.projects),
            RequestView::ProjectRestore { project: Some(project), .. } => is_resolvable(
                project,
                self.projects,
            ),
            RequestView::ProjectSave { project: Some(project) }
            | RequestView::ProjectCapture { project: Some(project) }
            | RequestView::ProjectClose { project: Some(project) } => is_resolvable(
                project,
                self.projects,
            ),
            RequestView::ProjectGet { project } => is_resolvable(project, self.projects),
            RequestView::SlotUpdate { project, .. } => is_resolvable(project, self.projects),
            RequestView::GroupCreate { project, .. }
            | RequestView::GroupAdd { project, .. }
            | RequestView::GroupRemove { project, .. }
            | RequestView::GroupHide { project, .. }
            | RequestView::GroupShow { project, .. }
            | RequestView::GroupFocus { project, .. } => is_resolvable(project, self.projects),
            RequestView::GroupMove { project, to, .. } => is_resolvable(project, self.projects)
                && is_resolvable(to, self.projects),
            RequestView::WindowAssign { address, project, .. } =>
                self.world.windows.dom().contains(address) ==> is_resolvable(
                    project,
                    self.projects,
                ),
            _ => true,
        }
    }

    /// What a request does and how it concludes.
    pub open spec fn answered(
        self,
        request: RequestView,
        id: ProjectId,
        uptime: u64,
        gathered: Gathered,
    ) -> (StateView, OutcomeView) {
        match request {
            RequestView::DaemonStatus => (
                self,
                OutcomeView::Reply(Ok(ReplyView::Status(self.status(uptime)))),
            ),
            RequestView::RulesTest { address } => (self, self.rules_tested(address)),
            RequestView::ConfigReload => self.reloaded(gathered.config, gathered.rules),
            RequestView::ProjectCreate { name, slug } => self.created(name, slug, id),
            RequestView::ProjectDelete { slug } => self.deleted(slug),
            RequestView::ProjectRename { slug, name } => self.renamed(slug, name),
            RequestView::ProjectSwitch { project } => self.switched(project),
            RequestView::ProjectList => (
                self,
                OutcomeView::Reply(Ok(ReplyView::Projects(self.summaries()))),
            ),
            RequestView::ProjectDuplicate { project, name } => self.duplicated(project, name, id),
            RequestView::ProjectExport { project } => (self, self.exported(project)),
            RequestView::ProjectRestore { project, dry_run } => (
                self,
                self.restored(project, dry_run),
            ),
            RequestView::ProjectSave { project } => self.saved(
                project,
                gathered.captured.deep_view(),
            ),
            RequestView::ProjectCapture { project } => (
                self,
                self.previewed(project, gathered.captured.deep_view()),
            ),
            RequestView::ProjectClose { project } => (self, self.closed(project)),
            RequestView::ProjectGet { project } => (self, self.detailed(project)),
            RequestView::ProjectReorder { order } => self.reordered(order),
            RequestView::SlotUpdate { project, slot_id, command, workdir, profile } =>
                self.slot_updated(project, slot_id, command, workdir, profile),
            RequestView::ProjectImport { force, .. } => self.imported(
                file_view(gathered.imported),
                force,
                id,
            ),
            RequestView::GroupCreate { project, name, slug } => self.group_created(
                project,
                name,
                slug,
            ),
            RequestView::GroupAdd { project, group, address } => self.group_added(
                project,
                group,
                address,
            ),
            RequestView::GroupRemove { project, group, address } => self.group_removed(
                project,
                group,
                address,
            ),
            RequestView::GroupHide { project, group } => self.group_parked(project, group, true),
            RequestView::GroupShow { project, group } => self.group_parked(project, group, false),
            RequestView::GroupFocus { project, group } => (
                self,
                self.group_focused(project, group),
            ),
            RequestView::GroupMove { project, group, to } => self.group_moved(project, group, to),
            RequestView::Search { query } => (
                self,
                OutcomeView::Reply(Ok(ReplyView::Found(self.found(query)))),
            ),
            RequestView::WindowAssign { address, project, group } => self.assigned(
                address,
                project,
                group,
            ),
            RequestView::Subscribe { .. } => (
                self,
                refused(
                    ErrorCode::BadRequest,
                    "subscribe is connection-scoped; the server handles it"@,
                ),
            ),
            RequestView::StateSnapshot => (
                self,
                OutcomeView::Reply(
                    Ok(
                        ReplyView::Snapshot(
                            choose|snapshot: SnapshotView| self.is_shown_by(snapshot),
                        ),
                    ),
                ),
            ),
        }
    }
}

// ---- carrying requests out --------------------------------------------------------------

/// The rules that `rules.toml` gives. A missing file gives none; the message
/// of an invalid one names every problem.
pub fn load_rules(path: &str, file: &Loaded<RulesFile>, registry: &MatcherRegistry) -> (r: Result<
    RuleSet,
    String,
>)
    ensures
        match (r, loaded_rules(registry@, path@, *file)) {
            (Ok(rules), Ok(expected)) => rules@ == expected,
            (Err(message), Err(expected)) => message@ == expected,
            _ => false,
        },
{
    match file {
        Loaded::Missing => Ok(RuleSet::default()),
        Loaded::Unreadable(error) => Err(cannot_read(path, error.as_str())),
        Loaded::Malformed(error) => {
            let error = RuleError::Toml(error.clone());
            Err(error.message())
        },
        Loaded::Ready(file) => match RuleSet::compile(file, registry) {
            Ok(rules) => Ok(rules),
            Err(errors) => {
                let ghost views = errors.deep_view();
                let mut texts: Vec<String> = Vec::new();
                let mut i: usize = 0;
                while i < errors.len()
                    invariant
                        i <= errors.len(),
                        views == errors.deep_view(),
                        texts.len() == i,
                        forall|k: int|
                            0 <= k < i ==> (#[trigger] texts@[k])@ == views[k].message(),
                    decreases errors.len() - i,
                {
                    assert(views[i as int] == errors@[i as int]@);
                    texts.push(errors[i].message());
                    i = i + 1;
                }
                assert(texts.deep_view() =~= messages(views));
                Err(join(&texts, "; "))
            },
        },
    }
}

fn cannot_read(path: &str, error: &str) -> (r: String)
    ensures
        r@ == "cannot read "@ + path@ + ": "@ + error@,
{
    let mut out = "cannot read ".to_owned();
    out.append(path);
    out.append(": ");
    out.append(error);
    out
}

fn keeping_config(path: &str, error: &ConfigError) -> (r: String)
    ensures
        r@ == path@ + " invalid \u{2014} keeping current config: "@ + error@.message(),
{
    let mut out = path.to_owned();
    out.append(" invalid \u{2014} keeping current config: ");
    out.append(error.message().as_str());
    out
}

/// The configuration that `config.toml` gives: the standard one when the file
/// is missing.
pub fn load_config(path: &str, file: Loaded<Config>) -> (r: Result<Config, String>)
    ensures
        match (r, loaded_config(path@, file)) {
            (Ok(config), Ok(expected)) => config@ == expected,
            (Err(message), Err(expected)) => message@ == expected,
            _ => false,
        },
{
    match file {
        Loaded::Missing => Ok(Config::default()),
        Loaded::Unreadable(error) => Err(cannot_read(path, error.as_str())),
        Loaded::Malformed(error) => Err(keeping_config(path, &ConfigError::Toml(error))),
        Loaded::Ready(config) => match config.validate() {
            Ok(()) => Ok(config),
            Err(error) => Err(keeping_config(path, &error)),
        },
    }
}

/// A text behind another.
pub(crate) fn behind(before: &str, text: &str) -> (r: String)
    ensures
        r@ == before@ + text@,
{
    let mut out = before.to_owned();
    out.append(text);
    out
}

/// A text between two others.
pub(crate) fn around(before: &str, middle: &str, after: &str) -> (r: String)
    ensures
        r@ == before@ + middle@ + after@,
{
    let mut out = before.to_owned();
    out.append(middle);
    out.append(after);
    out
}

fn knows_group(groups: &Vec<Group>, slug: &str) -> (r: bool)
    ensures
        r == group_known(groups.deep_view(), slug@),
{
    let ghost views = groups.deep_view();
    let mut i: usize = 0;
    while i < groups.len()
        invariant
            i <= groups.len(),
            views == groups.deep_view(),
            forall|k: int| 0 <= k < i ==> (#[trigger] views[k]).slug != slug@,
        decreases groups.len() - i,
    {
        assert(views[i as int] == groups@[i as int]@);
        if same(groups[i].slug.as_str(), slug) {
            return true;
        }
        i = i + 1;
    }
    false
}

fn knows_monitor(monitors: &Vec<MonitorInfo>, name: &str) -> (r: bool)
    ensures
        r == monitor_named(monitors.deep_view(), name@),
{
    let ghost views = monitors.deep_view();
    let mut i: usize = 0;
    while i < monitors.len()
        invariant
            i <= monitors.len(),
            views == monitors.deep_view(),
            forall|k: int| 0 <= k < i ==> (#[trigger] views[k]).name != name@,
        decreases monitors.len() - i,
    {
        assert(views[i as int] == monitors@[i as int]@);
        if same(monitors[i].name.as_str(), name) {
            return true;
        }
        i = i + 1;
    }
    false
}

fn slugs_of(projects: &Vec<&Project>) -> (r: Vec<String>)
    ensures
        r.deep_view() == slugs(project_views(projects@)),
{
    let mut out: Vec<String> = Vec::new();
    let mut i: usize = 0;
    while i < projects.len()
        invariant
            i <= projects.len(),
            out.len() == i,
            forall|k: int| 0 <= k < i ==> (#[trigger] out@[k])@ == projects@[k]@.slug,
        decreases projects.len() - i,
    {
        out.push(projects[i].slug.as_str().to_owned());
        i = i + 1;
    }
    assert(out.deep_view() =~= slugs(project_views(projects@)));
    out
}

fn all_slugs(projects: &Vec<Project>) -> (r: Vec<String>)
    ensures
        r.deep_view() == slugs(projects.deep_view()),
{
    let mut out: Vec<String> = Vec::new();
    let mut i: usize = 0;
    while i < projects.len()
        invariant
            i <= projects.len(),
            out.len() == i,
            forall|k: int| 0 <= k < i ==> (#[trigger] out@[k])@ == projects@[k]@.slug,
        decreases projects.len() - i,
    {
        out.push(projects[i].slug.as_str().to_owned());
        i = i + 1;
    }
    assert(out.deep_view() =~= slugs(projects.deep_view()));
    out
}

/// A project that is in the list is found by its id.
proof fn lemma_id_found(projects: Seq<ProjectView>, k: int, from: int)
    requires
        0 <= from <= k < projects.len(),
    ensures
        id_index(projects, projects[k].id, from) is Some,
    decreases projects.len() - from,
{
    if projects[from].id != projects[k].id {
        lemma_id_found(projects, k, from + 1);
    }
}

/// Whatever is found by slug has it, and nothing before it does.
pub proof fn lemma_slug_index(projects: Seq<ProjectView>, slug: Seq<char>, from: int)
    requires
        0 <= from,
    ensures
        match slug_index(projects, slug, from) {
            Some(i) => from <= i < projects.len() && projects[i].slug == slug && forall|k: int|
                from <= k < i ==> (#[trigger] projects[k]).slug != slug,
            None => forall|k: int|
                from <= k < projects.len() ==> (#[trigger] projects[k]).slug != slug,
        },
    decreases projects.len() - from,
{
    if from < projects.len() && projects[from].slug != slug {
        lemma_slug_index(projects, slug, from + 1);
    }
}

impl StateActor {
    /// What a project looks like from outside.
    pub fn summary(&self, project: &Project) -> (r: ProjectSummary)
        ensures
            r@ == self@.summary(project@),
    {
        let ghost views = project.groups.deep_view();
        let mut groups: Vec<Slug> = Vec::new();
        let mut i: usize = 0;
        while i < project.groups.len()
            invariant
                i <= project.groups.len(),
                views == project.groups.deep_view(),
                groups.len() == i,
                forall|k: int| 0 <= k < i ==> (#[trigger] groups@[k])@ == views[k].slug,
            decreases project.groups.len() - i,
        {
            assert(views[i as int] == project.groups@[i as int]@);
            groups.push(project.groups[i].slug.clone());
            i = i + 1;
        }
        assert(groups.deep_view() =~= group_slugs(views));
        ProjectSummary {
            slug: project.slug.clone(),
            name: project.name.clone(),
            active: same_id(self.world.active_project, Some(project.id)),
            windows: self.world.windows.count_assigned(project.id),
            groups,
            workspace: self.ws_name(&project.slug),
        }
    }

    fn summaries(&self) -> (r: Vec<ProjectSummary>)
        ensures
            r.deep_view() == self@.summaries(),
    {
        let order = in_listing_order(&self.projects);
        let ghost views = listing(self@.projects);
        let mut out: Vec<ProjectSummary> = Vec::new();
        let mut i: usize = 0;
        while i < order.len()
            invariant
                i <= order.len(),
                views == project_views(order@),
                out.len() == i,
                forall|k: int| 0 <= k < i ==> (#[trigger] out@[k])@ == self@.summary(views[k]),
            decreases order.len() - i,
        {
            assert(views[i as int] == order@[i as int]@);
            out.push(self.summary(order[i]));
            i = i + 1;
        }
        assert(out.deep_view() =~= self@.summaries());
        out
    }

    /// The daemon's state in numbers, `uptime` seconds after its start.
    pub fn status(&self, uptime: u64) -> (r: DaemonStatus)
        ensures
            r@ == self@.status(uptime),
    {
        let active_project = match self.world.active_project {
            Some(id) => match find_id(&self.projects, id) {
                Some(i) => Some(self.projects[i].slug.clone()),
                None => None,
            },
            None => None,
        };
        DaemonStatus {
            version: self.version.clone(),
            uptime_s: uptime,
            hypr_connected: self.world.hypr_connected,
            active_project,
            windows: self.world.windows.len(),
            projects: self.projects.len(),
            update_available: self.update.clone(),
        }
    }

    /// The whole state.
    pub fn snapshot(&self) -> (r: Snapshot)
        ensures
            self@.is_shown_by(r@),
    {
        let monitors = self.world.monitors.clone();
        assert(monitors.deep_view() =~= self.world.monitors.deep_view());
        Snapshot {
            projects: self.summaries(),
            windows: self.world.windows.sorted(),
            workspaces: self.world.workspaces.sorted(),
            monitors,
            focused_window: self.world.focused_window.clone(),
            hypr_connected: self.world.hypr_connected,
            update_available: self.update.clone(),
        }
    }

    pub(crate) fn resolve(&self, query: &str) -> (r: Result<&Project, ErrorBody>)
        requires
            is_resolvable(query@, self@.projects),
        ensures
            match (r, self@.resolved(query@)) {
                (Ok(project), Ok(expected)) => project@ == expected && self@.projects.contains(
                    expected,
                ),
                (Err(error), Err(expected)) => error@ == expected,
                _ => false,
            },
    {
        proof {
            law_resolutions_are_projects(
                query@,
                self@.projects,
                project_scores(query@, self@.projects),
            );
        }
        match resolve(query, self.projects.as_slice()) {
            Resolution::Match(project) => Ok(project),
            Resolution::Ambiguous(candidates) => Err(
                ErrorBody {
                    code: ErrorCode::Ambiguous,
                    message: around("'", query, "' matches several projects"),
                    candidates: Some(slugs_of(&candidates)),
                },
            ),
            Resolution::NotFound => Err(
                ErrorBody {
                    code: ErrorCode::NotFound,
                    message: around("no project matching '", query, "'"),
                    candidates: Some(all_slugs(&self.projects)),
                },
            ),
        }
    }

    fn rules_test(&self, address: Option<String>) -> (r: Outcome)
        ensures
            r@ == self@.rules_tested(address.deep_view()),
    {
        let address = match address {
            Some(address) => address,
            None => match &self.world.focused_window {
                Some(address) => address.clone(),
                None => {
                    return refuse(
                        ErrorCode::BadRequest,
                        "no address given and no window is focused".to_owned(),
                    );
                },
            },
        };
        match self.world.windows.get(address.as_str()) {
            None => refuse(
                ErrorCode::NotFound,
                behind("no window at address ", address.as_str()),
            ),
            Some(window) => {
                let matched = self.rules.matches(&window.facts);
                let ghost views = matching(self.rules@, window.facts@);
                let mut matches: Vec<RuleMatch> = Vec::new();
                let mut i: usize = 0;
                while i < matched.len()
                    invariant
                        i <= matched.len(),
                        views == crate::domain::rules::reference_views(matched@),
                        matches.len() == i,
                        forall|k: int|
                            0 <= k < i ==> (#[trigger] matches@[k])@ == rule_match(views[k]),
                    decreases matched.len() - i,
                {
                    assert(views[i as int] == matched@[i as int]@);
                    matches.push(
                        RuleMatch {
                            rule: matched[i].name.clone(),
                            project: matched[i].project.clone(),
                            group: matched[i].group.clone(),
                            stop: matched[i].stop,
                        },
                    );
                    i = i + 1;
                }
                assert(matches.deep_view() =~= rule_matches(views));
                Outcome::Reply(
                    Ok(
                        Reply::Rules(
                            RuleReport {
                                class: window.facts.class.clone(),
                                title: window.facts.title.clone(),
                                executable: window.facts.executable.clone(),
                                matches,
                                address,
                            },
                        ),
                    ),
                )
            },
        }
    }

    fn config_reload(&mut self, config: Loaded<Config>, rules: Loaded<RulesFile>) -> (r: Outcome)
        ensures
            (final(self)@, r@) == old(self)@.reloaded(config, rules),
    {
        let (config_path, rules_path) = match &self.config_dir {
            Some(dir) => (
                join_path(dir.as_str(), "config.toml"),
                join_path(dir.as_str(), "rules.toml"),
            ),
            None => {
                return refuse(
                    ErrorCode::BadRequest,
                    "daemon was started without a config directory".to_owned(),
                );
            },
        };
        let config = match load_config(config_path.as_str(), config) {
            Ok(config) => config,
            Err(message) => {
                return refuse(ErrorCode::BadRequest, message);
            },
        };
        let rules = match load_rules(rules_path.as_str(), &rules, &self.registry) {
            Ok(rules) => rules,
            Err(message) => {
                return refuse(
                    ErrorCode::BadRequest,
                    behind(
                        "rules.toml invalid \u{2014} keeping current rules: ",
                        message.as_str(),
                    ),
                );
            },
        };
        let count: usize = rules.len();
        self.config = config;
        self.rules = rules;
        Outcome::Reply(Ok(Reply::Reloaded { rules: count }))
    }

    fn project_create(&mut self, name: String, slug: Option<String>, id: ProjectId) -> (r: Outcome)
        requires
            old(self)@.has_room(),
        ensures
            (final(self)@, r@) == old(self)@.created(name@, slug.deep_view(), id),
    {
        let parsed = match &slug {
            Some(raw) => Slug::parse(raw.as_str()),
            None => Slug::from_display_name(name.as_str()),
        };
        let slug = match parsed {
            Ok(slug) => slug,
            Err(error) => {
                return refuse(ErrorCode::BadRequest, error.message());
            },
        };
        let project = Project {
            id,
            slug,
            name,
            groups: Vec::new(),
            apps: Vec::new(),
            monitor: None,
            position: 0,
        };
        assert(project@ =~= ProjectView::fresh(id, project.slug@, project.name@));
        self.add_project(project)
    }

    pub(crate) fn add_project(&mut self, project: Project) -> (r: Outcome)
        requires
            old(self)@.has_room(),
        ensures
            (final(self)@, r@) == old(self)@.adding(project@),
    {
        if find_slug(&self.projects, project.slug.as_str()).is_some() {
            return refuse(
                ErrorCode::Conflict,
                around("project '", project.slug.as_str(), "' already exists"),
            );
        }
        let ws = self.ws_name(&project.slug);
        if self.world.workspaces.find_named(ws.as_str()).is_some() {
            return refuse(
                ErrorCode::Conflict,
                around(
                    "a workspace named '",
                    ws.as_str(),
                    "' already exists in Hyprland and does not belong to omarchy-workspaces; pick another slug or set general.workspace_prefix",
                ),
            );
        }
        let slug = project.slug.as_str().to_owned();
        let name = project.name.clone();
        let summary = self.summary(&project);
        let ghost before = self.projects.deep_view();
        self.projects.push(project);
        assert(self.projects.deep_view() =~= before.push(project@));
        self.emit(DomainEvent::ProjectCreated { slug, name });
        Outcome::Reply(Ok(Reply::Project(summary)))
    }

    fn project_duplicate(&mut self, query: &str, name: String, id: ProjectId) -> (r: Outcome)
        requires
            old(self)@.has_room(),
            is_resolvable(query@, old(self)@.projects),
        ensures
            (final(self)@, r@) == old(self)@.duplicated(query@, name@, id),
    {
        let original = match self.resolve(query) {
            Ok(project) => project.clone(),
            Err(error) => {
                return Outcome::Reply(Err(error));
            },
        };
        let slug = match Slug::from_display_name(name.as_str()) {
            Ok(slug) => slug,
            Err(error) => {
                return refuse(ErrorCode::BadRequest, error.message());
            },
        };
        let project = Project { id, slug, name, ..original };
        assert(project@ =~= (ProjectView {
            id,
            slug: project.slug@,
            name: project.name@,
            ..original@
        }));
        self.add_project(project)
    }

    fn project_export(&self, query: &str) -> (r: Outcome)
        requires
            is_resolvable(query@, self@.projects),
        ensures
            r@ == self@.exported(query@),
    {
        match self.resolve(query) {
            Ok(project) => Outcome::Reply(Ok(Reply::Exported(project_file(project)))),
            Err(error) => Outcome::Reply(Err(error)),
        }
    }

    pub(crate) fn resolve_or_active(&self, query: &Option<String>) -> (r: Result<&Project, ErrorBody>)
        requires
            query matches Some(query) ==> is_resolvable(query@, self@.projects),
        ensures
            match (r, self@.resolved_or_active(query.deep_view())) {
                (Ok(project), Ok(expected)) => project@ == expected && self@.projects.contains(
                    expected,
                ),
                (Err(error), Err(expected)) => error@ == expected,
                _ => false,
            },
    {
        match query {
            Some(query) => self.resolve(query.as_str()),
            None => {
                if let Some(id) = self.world.active_project {
                    if let Some(i) = find_id(&self.projects, id) {
                        assert(self@.projects[i as int] == self.projects@[i as int]@);
                        return Ok(&self.projects[i]);
                    }
                }
                Err(
                    ErrorBody::new(
                        ErrorCode::BadRequest,
                        "no project given and none is active".to_owned(),
                    ),
                )
            },
        }
    }

    fn project_restore(&self, query: &Option<String>, dry_run: bool) -> (r: Outcome)
        requires
            query matches Some(query) ==> is_resolvable(query@, self@.projects),
        ensures
            r@ == self@.restored(query.deep_view(), dry_run),
    {
        let project = match self.resolve_or_active(query) {
            Ok(project) => project,
            Err(error) => {
                return Outcome::Reply(Err(error));
            },
        };
        let windows = self.world.windows.sorted();
        proof {
            lemma_window_list(self@.world.windows, windows.deep_view(), windows.deep_view());
        }
        let live = candidates_for(&windows, project);
        match plan(project, live.as_slice(), self.config.general.workspace_prefix.as_str()) {
            Err(error) => refuse(ErrorCode::BadRequest, error.message()),
            Ok(plan) => if dry_run {
                Outcome::Reply(Ok(Reply::Plan(plan)))
            } else {
                Outcome::Restore {
                    project: project.id,
                    result: Reply::Started(plan.clone()),
                    plan,
                }
            },
        }
    }

    fn project_delete(&mut self, slug: &str) -> (r: Outcome)
        requires
            old(self)@.has_room(),
        ensures
            (final(self)@, r@) == old(self)@.deleted(slug@),
    {
        proof {
            lemma_slug_index(self@.projects, slug@, 0);
        }
        let index: usize = match find_slug(&self.projects, slug) {
            Some(index) => index,
            None => {
                return refuse(
                    ErrorCode::NotFound,
                    around(
                        "no project with slug '",
                        slug,
                        "' (delete requires the exact slug)",
                    ),
                );
            },
        };
        let ghost before = self.projects.deep_view();
        let project = self.projects.remove(index);
        assert(self.projects.deep_view() =~= before.remove(index as int));
        assert(project@ == before[index as int]);
        self.world.windows.clear_assignments(project.id);
        if same_id(self.world.active_project, Some(project.id)) {
            self.world.active_project = None;
            self.emit(DomainEvent::ProjectSwitched { slug: None });
        }
        self.emit(DomainEvent::ProjectDeleted { slug: project.slug.as_str().to_owned() });
        Outcome::Reply(Ok(Reply::Deleted(project.slug)))
    }

    fn project_rename(&mut self, slug: &str, name: String) -> (r: Outcome)
        requires
            old(self)@.has_room(),
        ensures
            (final(self)@, r@) == old(self)@.renamed(slug@, name@),
    {
        let index: usize = match find_slug(&self.projects, slug) {
            Some(index) => index,
            None => {
                return refuse(ErrorCode::NotFound, around("no project with slug '", slug, "'"));
            },
        };
        let ghost before = self.projects.deep_view();
        let mut project = self.projects[index].clone();
        assert(project@ == before[index as int]);
        project.name = name.clone();
        let summary = self.summary(&project);
        self.projects.set(index, project);
        assert(self.projects.deep_view() =~= before.update(index as int, project@));
        self.emit(DomainEvent::ProjectRenamed { slug: slug.to_owned(), name });
        Outcome::Reply(Ok(Reply::Project(summary)))
    }

    fn project_switch(&mut self, query: &str) -> (r: Outcome)
        requires
            old(self)@.has_room(),
            is_resolvable(query@, old(self)@.projects),
        ensures
            (final(self)@, r@) == old(self)@.switched(query@),
    {
        let project = match self.resolve(query) {
            Ok(project) => project.clone(),
            Err(error) => {
                return Outcome::Reply(Err(error));
            },
        };
        let ws = self.ws_name(&project.slug);
        let mut dispatches: Vec<Dispatch> = Vec::new();
        if let Some(monitor) = &project.monitor {
            if self.config.switch.move_workspace_to_preferred_monitor && knows_monitor(
                &self.world.monitors,
                monitor.as_str(),
            ) && self.world.workspaces.find_named(ws.as_str()).is_some() {
                dispatches.push(
                    Dispatch::MoveWorkspaceToMonitor {
                        workspace: WsTarget::Name(ws.clone()),
                        monitor: monitor.clone(),
                    },
                );
            }
        }
        dispatches.push(Dispatch::Workspace(WsTarget::Name(ws)));
        assert(dispatches.deep_view() =~= self@.switch_dispatches(project@));
        proof {
            let k = choose|k: int|
                0 <= k < self@.projects.len() && self@.projects[k] == project@;
            lemma_id_found(self@.projects, k, 0);
        }
        self.world.active_project = Some(project.id);
        self.emit(
            DomainEvent::ProjectSwitched { slug: Some(project.slug.as_str().to_owned()) },
        );
        let summary = match find_id(&self.projects, project.id) {
            Some(i) => {
                assert(self.projects.deep_view()[i as int] == self.projects@[i as int]@);
                self.summary(&self.projects[i])
            },
            None => self.summary(&project),
        };
        Outcome::DispatchThen { dispatches, result: Reply::Project(summary) }
    }

    fn window_assign(&mut self, address: &str, query: &str, group: Option<String>) -> (r: Outcome)
        requires
            old(self)@.world.windows.dom().contains(address@) ==> is_resolvable(
                query@,
                old(self)@.projects,
            ),
        ensures
            (final(self)@, r@) == old(self)@.assigned(address@, query@, group.deep_view()),
    {
        if !self.world.windows.contains(address) {
            return refuse(ErrorCode::NotFound, behind("no window at address ", address));
        }
        let project = match self.resolve(query) {
            Ok(project) => project.clone(),
            Err(error) => {
                return Outcome::Reply(Err(error));
            },
        };
        let group = match &group {
            None => None,
            Some(raw) => match Slug::parse(raw.as_str()) {
                Err(error) => {
                    return refuse(ErrorCode::BadRequest, error.message());
                },
                Ok(slug) => {
                    if !knows_group(&project.groups, raw.as_str()) {
                        let mut message = around(
                            "project '",
                            project.slug.as_str(),
                            "' has no group '",
                        );
                        message.append(raw.as_str());
                        message.append("'");
                        return refuse(ErrorCode::NotFound, message);
                    }
                    Some(slug)
                },
            },
        };
        let ws = self.ws_name(&project.slug);
        self.world.assign(address, project.id, group, AssignmentSource::Manual);
        let mut dispatches: Vec<Dispatch> = Vec::new();
        dispatches.push(
            Dispatch::MoveToWorkspaceSilent {
                target: WsTarget::Name(ws),
                address: WindowAddress::new(address),
            },
        );
        assert(dispatches.deep_view() =~= seq![dispatches@[0]@]);
        Outcome::DispatchThen {
            dispatches,
            result: Reply::Assigned { address: address.to_owned(), project: project.slug },
        }
    }

    /// Carry a request out. `id` is a fresh one for a project it may create,
    /// `uptime` the seconds since the daemon started, and `gathered` what was
    /// read and captured for it.
    #[verifier::rlimit(60)]
    pub fn handle_request(
        &mut self,
        request: Request,
        id: ProjectId,
        uptime: u64,
        gathered: Gathered,
    ) -> (r: Outcome)
        requires
            old(self)@.has_room(),
            old(self)@.can_search(request@),
        ensures
            request@ is StateSnapshot ==> final(self)@ == old(self)@ && (r@ matches OutcomeView::Reply(
                Ok(ReplyView::Snapshot(snapshot)),
            ) && old(self)@.is_shown_by(snapshot)),
            !(request@ is StateSnapshot) ==> (final(self)@, r@) == old(self)@.answered(
                request@,
                id,
                uptime,
                gathered,
            ),
    {
        match request {
            Request::DaemonStatus => Outcome::Reply(Ok(Reply::Status(self.status(uptime)))),
            Request::StateSnapshot => Outcome::Reply(Ok(Reply::Snapshot(self.snapshot()))),
            Request::RulesTest { address } => self.rules_test(address),
            Request::ConfigReload => self.config_reload(gathered.config, gathered.rules),
            Request::ProjectCreate { name, slug } => self.project_create(name, slug, id),
            Request::ProjectDelete { slug } => self.project_delete(slug.as_str()),
            Request::ProjectRename { slug, name } => self.project_rename(slug.as_str(), name),
            Request::ProjectSwitch { project } => self.project_switch(project.as_str()),
            Request::ProjectList => Outcome::Reply(Ok(Reply::Projects(self.summaries()))),
            Request::ProjectDuplicate { project, name } => self.project_duplicate(
                project.as_str(),
                name,
                id,
            ),
            Request::ProjectExport { project } => self.project_export(project.as_str()),
            Request::ProjectRestore { project, dry_run } => self.project_restore(
                &project,
                dry_run,
            ),
            Request::ProjectSave { project } => self.project_save(&project, &gathered.captured),
            Request::ProjectCapture { project } => self.project_capture(
                &project,
                &gathered.captured,
            ),
            Request::ProjectClose { project } => self.project_close(&project),
            Request::ProjectGet { project } => self.project_get(project.as_str()),
            Request::ProjectReorder { order } => self.project_reorder(&order),
            Request::SlotUpdate { project, slot_id, command, workdir, profile } => self.slot_update(
                project.as_str(),
                slot_id,
                command,
                workdir,
                profile,
            ),
            Request::ProjectImport { force, .. } => self.project_import(
                gathered.imported,
                force,
                id,
            ),
            Request::GroupCreate { project, name, slug } => self.group_create(
                project.as_str(),
                name,
                slug,
            ),
            Request::GroupAdd { project, group, address } => self.group_add(
                project.as_str(),
                group.as_str(),
                address.as_str(),
            ),
            Request::GroupRemove { project, group, address } => self.group_remove(
                project.as_str(),
                group.as_str(),
                address.as_str(),
            ),
            Request::GroupHide { project, group } => self.group_park(
                project.as_str(),
                group.as_str(),
                true,
            ),
            Request::GroupShow { project, group } => self.group_park(
                project.as_str(),
                group.as_str(),
                false,
            ),
            Request::GroupFocus { project, group } => self.group_focus(
                project.as_str(),
                group.as_str(),
            ),
            Request::GroupMove { project, group, to } => self.group_move(
                project.as_str(),
                group.as_str(),
                to.as_str(),
            ),
            Request::Search { query } => Outcome::Reply(Ok(Reply::Found(self.find(query.as_str())))),
            Request::WindowAssign { address, project, group } => self.window_assign(
                address.as_str(),
                project.as_str(),
                group,
            ),
            Request::Subscribe { .. } => refuse(
                ErrorCode::BadRequest,
                "subscribe is connection-scoped; the server handles it".to_owned(),
            ),
        }
    }
}

} // verus!
