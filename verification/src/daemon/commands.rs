//! The commands that reach the state, and what comes of them.

use vstd::prelude::*;

use crate::daemon::arranging::Tile;
use crate::daemon::launcher::placement_dispatches;
use crate::daemon::launcher::placing;
use crate::daemon::requests::{Gathered, Outcome};
use crate::daemon::requests::OutcomeView;
use crate::daemon::state::{find_id, StateActor};
use crate::daemon::state::{id_index, StateView};
use crate::domain::config::Config;
use crate::domain::events::DomainEvent;
use crate::domain::events::DomainEventView;
use crate::domain::model::{Project, ProjectId, Slug};
use crate::domain::model::AppSlotView;
use crate::domain::rules::{MatcherRegistry, RuleSet};
use crate::domain::rules::builtin_factories;
use crate::domain::world::{
    AssignmentSource, MonitorInfo, TrackedWindow, WindowFacts, WorkspaceInfo, World,
};
use crate::domain::world::{
    is_id_of, is_window_list, AssignmentSourceView, TrackedWindowView, WorldView,
};
use crate::hypr::ctl::Dispatch;
use crate::hypr::ctl::DispatchView;
use crate::hypr::events::HyprEvent;
use crate::hypr::events::HyprEventView;
use crate::proto::Request;
use crate::proto::ReplyView;
use crate::storage::runtime::{runtime_state, RuntimeState};
use crate::storage::runtime::all_recorded;

verus! {

/// Commands consumed by the state actor. The only way to mutate state.
pub enum Command {
    /// Full state dump after (re)connecting to Hyprland.
    Hydrate {
        /// All live windows.
        windows: Vec<TrackedWindow>,
        /// All live workspaces.
        workspaces: Vec<WorkspaceInfo>,
        /// All live monitors.
        monitors: Vec<MonitorInfo>,
        /// Focused window address, if any.
        focused_window: Option<String>,
    },
    /// Event-socket connectivity changed.
    HyprConnection(bool),
    /// A parsed Hyprland event.
    Hypr(HyprEvent),
    /// Enriched facts for a window (follow-up fetch after `openwindow`).
    WindowFacts {
        /// Canonical window address.
        address: String,
        /// Hyprland's stable id, when reported.
        stable_id: Option<String>,
        /// Fresh facts.
        facts: WindowFacts,
    },
    /// A client request needing an answer.
    Request {
        /// The request.
        request: Request,
        /// A fresh id for a project that it may create.
        id: ProjectId,
        /// Seconds since the daemon started.
        uptime: u64,
        /// What was read and captured for it.
        gathered: Gathered,
    },
    /// A window satisfies a slot of a restore run.
    CorrelateRestore {
        /// The window.
        address: String,
        /// The slot.
        slot_id: u128,
        /// The project.
        project_id: ProjectId,
        /// Group slug the window belongs to.
        group: Option<Slug>,
    },
    /// Arrange the restored windows of a project.
    Arrange(ProjectId),
    /// A restore run made progress or finished.
    RestoreEvent(DomainEvent),
    /// A newer release is out.
    UpdateAvailable(String),
    /// Save the runtime snapshot.
    Persist,
    /// Recover what a runtime snapshot of this compositor session records.
    Recover(RuntimeState),
    /// Graceful shutdown: announce it and stop.
    Shutdown,
}

/// What is to be done after a command.
pub enum Effect {
    /// Nothing.
    Nothing,
    /// Tell Hyprland; failures are only logged.
    Tell(Vec<Dispatch>),
    /// Conclude the request.
    Answer(Outcome),
    /// Write the runtime snapshot.
    Save(RuntimeState),
    /// Arrange windows.
    Arrange(Vec<Tile>),
    /// Stop.
    Stop,
}

/// Where a slot stands in a project, if it does.
pub open spec fn slot_index(apps: Seq<AppSlotView>, slot_id: u128, from: int) -> Option<int>
    decreases apps.len() - from,
{
    if from < 0 || from >= apps.len() {
        None
    } else if apps[from].slot_id == slot_id {
        Some(from)
    } else {
        slot_index(apps, slot_id, from + 1)
    }
}

/// Where a slot stands in a project, if it does.
pub fn find_slot(project: &Project, slot_id: u128) -> (r: Option<usize>)
    ensures
        match (r, slot_index(project@.apps, slot_id, 0)) {
            (Some(i), Some(j)) => i == j && i < project.apps.len(),
            (None, None) => true,
            _ => false,
        },
{
    let ghost apps = project.apps.deep_view();
    let mut i: usize = 0;
    while i < project.apps.len()
        invariant
            i <= project.apps.len(),
            apps == project.apps.deep_view(),
            slot_index(apps, slot_id, 0) == slot_index(apps, slot_id, i as int),
        decreases project.apps.len() - i,
    {
        assert(apps[i as int] == project.apps@[i as int]@);
        if project.apps[i].slot_id == slot_id {
            return Some(i);
        }
        i = i + 1;
    }
    None
}

impl StateView {
    /// The dispatches that place a window as its slot says, where project and
    /// slot are known.
    pub open spec fn slot_placing(
        self,
        address: Seq<char>,
        slot_id: u128,
        project_id: ProjectId,
    ) -> Seq<DispatchView> {
        match id_index(self.projects, project_id, 0) {
            Some(i) => match slot_index(self.projects[i].apps, slot_id, 0) {
                Some(k) => placing(address, self.projects[i].apps[k].placement),
                None => seq![],
            },
            None => seq![],
        }
    }

    /// The state after a window was found to satisfy a slot.
    pub open spec fn correlated(
        self,
        address: Seq<char>,
        slot_id: u128,
        project_id: ProjectId,
        group: Option<Seq<char>>,
    ) -> StateView {
        StateView {
            world: self.world.with_assignment(
                address,
                project_id,
                group,
                AssignmentSourceView::Restore(slot_id),
            ),
            ..self
        }
    }

    /// Whether a command leads from this state to another, with an effect.
    pub open spec fn leads_to(self, command: Command, after: StateView, effect: Effect) -> bool {
        match command {
            Command::Hydrate { windows, workspaces, monitors, focused_window } => {
                &&& after == (StateView {
                    world: self.world.hydrated(
                        windows.deep_view(),
                        workspaces.deep_view(),
                        monitors.deep_view(),
                        focused_window.deep_view(),
                    ),
                    ..self
                })
                &&& effect is Nothing
            },
            Command::HyprConnection(up) => {
                &&& after == (StateView {
                    world: WorldView { hypr_connected: up, ..self.world },
                    ..self
                }).emitting(DomainEventView::HyprConnection { up })
                &&& effect is Nothing
            },
            Command::Hypr(event) => {
                &&& match event@ {
                    HyprEventView::OpenWindow { workspace, .. } => exists|id: i64| #[trigger]
                        is_id_of(self.world.workspaces, workspace, id) && after
                            == self.after_hypr_event(event@, id),
                    _ => after == self.after_hypr_event(event@, 0),
                }
                &&& effect is Nothing
            },
            Command::WindowFacts { address, stable_id, facts } => {
                let known = StateView {
                    world: self.world.with_window(address@, stable_id.deep_view(), facts@),
                    ..self
                };
                &&& after == known.after_rules(address@)
                &&& match (effect, known.rule_dispatch(address@)) {
                    (Effect::Tell(dispatches), Some(expected)) => dispatches.deep_view() == seq![
                        expected,
                    ],
                    (Effect::Nothing, None) => true,
                    _ => false,
                }
            },
            Command::Request { request, id, uptime, gathered } => effect matches Effect::Answer(
                outcome,
            ) && if request@ is StateSnapshot {
                &&& after == self
                &&& outcome@ matches OutcomeView::Reply(Ok(ReplyView::Snapshot(snapshot)))
                    && self.is_shown_by(snapshot)
            } else {
                (after, outcome@) == self.answered(request@, id, uptime, gathered)
            },
            Command::CorrelateRestore { address, slot_id, project_id, group } => {
                &&& after == self.correlated(address@, slot_id, project_id, group.deep_view())
                &&& effect matches Effect::Tell(dispatches) && dispatches.deep_view()
                    == self.slot_placing(address@, slot_id, project_id)
            },
            Command::Arrange(project) => {
                &&& after == self
                &&& effect matches Effect::Arrange(tiles) && tiles.deep_view() == self.tiles_of(
                    project,
                )
            },
            Command::RestoreEvent(event) => {
                &&& after == self.emitting(event@)
                &&& effect is Nothing
            },
            Command::UpdateAvailable(version) => {
                &&& after == (StateView { update: Some(version@), ..self }).emitting(
                    DomainEventView::UpdateAvailable { version: version@ },
                )
                &&& effect is Nothing
            },
            Command::Persist => {
                &&& after == self
                &&& effect matches Effect::Save(runtime) && {
                    &&& runtime@.active_project == self.slug_of_id(self.world.active_project)
                    &&& exists|windows: Seq<TrackedWindowView>| #[trigger]
                        is_window_list(self.world.windows, windows) && runtime@.assignments
                            == all_recorded(self, windows)
                }
            },
            Command::Recover(runtime) => {
                &&& after == self.recovered_from(runtime@)
                &&& effect is Nothing
            },
            Command::Shutdown => {
                &&& after == self.emitting(DomainEventView::ShuttingDown)
                &&& effect is Stop
            },
        }
    }

    /// Whether the queries of a command are of a size that can be scored.
    pub open spec fn can_handle(self, command: Command) -> bool {
        command matches Command::Request { request, .. } ==> self.can_search(request@)
    }
}

impl StateActor {
    /// The state of a daemon that has just started.
    pub fn start(
        config: Config,
        rules: RuleSet,
        config_dir: Option<String>,
        version: String,
        projects: Vec<Project>,
    ) -> (r: Self)
        ensures
            r@ == (StateView {
                world: WorldView {
                    windows: Map::empty(),
                    workspaces: Map::empty(),
                    monitors: seq![],
                    focused_window: None,
                    focused_workspace: None,
                    active_project: None,
                    hypr_connected: false,
                },
                projects: projects.deep_view(),
                config: config@,
                registry: builtin_factories(),
                rules: rules@,
                config_dir: config_dir.deep_view(),
                version: version@,
                update: None,
                seq: 0,
                outbox: seq![],
            }),
    {
        let r = StateActor {
            world: World::default(),
            projects,
            config,
            registry: MatcherRegistry::builtin(),
            rules,
            config_dir,
            version,
            update: None,
            seq: 0,
            outbox: Vec::new(),
        };
        assert(r.outbox.deep_view() =~= seq![]);
        r
    }

    /// Carry a command out.
    pub fn handle(&mut self, command: Command) -> (r: Effect)
        requires
            old(self)@.has_room(),
            old(self)@.can_handle(command),
        ensures
            old(self)@.leads_to(command, final(self)@, r),
    {
        match command {
            Command::Hydrate { windows, workspaces, monitors, focused_window } => {
                self.world.hydrate(windows, workspaces, monitors, focused_window);
                Effect::Nothing
            },
            Command::HyprConnection(up) => {
                self.world.hypr_connected = up;
                self.emit(DomainEvent::HyprConnection { up });
                Effect::Nothing
            },
            Command::Hypr(event) => {
                self.handle_hypr_event(event);
                Effect::Nothing
            },
            Command::WindowFacts { address, stable_id, facts } => {
                self.world.upsert_window(address.as_str(), stable_id, facts);
                match self.apply_rules(address.as_str()) {
                    Some(dispatch) => {
                        let mut dispatches: Vec<Dispatch> = Vec::new();
                        dispatches.push(dispatch);
                        assert(dispatches.deep_view() =~= seq![dispatch@]);
                        Effect::Tell(dispatches)
                    },
                    None => Effect::Nothing,
                }
            },
            Command::Request { request, id, uptime, gathered } => Effect::Answer(
                self.handle_request(request, id, uptime, gathered),
            ),
            Command::CorrelateRestore { address, slot_id, project_id, group } => {
                let mut dispatches: Vec<Dispatch> = Vec::new();
                assert(dispatches.deep_view() =~= seq![]);
                if let Some(i) = find_id(&self.projects, project_id) {
                    assert(self@.projects[i as int] == self.projects@[i as int]@);
                    let project = &self.projects[i];
                    if let Some(k) = find_slot(project, slot_id) {
                        assert(project@.apps[k as int] == project.apps@[k as int]@);
                        dispatches = placement_dispatches(
                            address.as_str(),
                            &project.apps[k].placement,
                        );
                    }
                }
                self.world.assign(
                    address.as_str(),
                    project_id,
                    group,
                    AssignmentSource::Restore(slot_id),
                );
                Effect::Tell(dispatches)
            },
            Command::Arrange(project) => Effect::Arrange(self.tiles(project)),
            Command::RestoreEvent(event) => {
                self.emit(event);
                Effect::Nothing
            },
            Command::UpdateAvailable(version) => {
                self.update = Some(version.clone());
                self.emit(DomainEvent::UpdateAvailable { version });
                Effect::Nothing
            },
            Command::Persist => Effect::Save(runtime_state(self)),
            Command::Recover(runtime) => {
                self.recover(&runtime);
                Effect::Nothing
            },
            Command::Shutdown => {
                self.emit(DomainEvent::ShuttingDown);
                Effect::Stop
            },
        }
    }
}

} // verus!
