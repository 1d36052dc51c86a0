//! The single-writer state and what compositor events do to it.
//!
//! Every mutation goes through [`StateActor`], which owns the [`World`] and
//! the project list exclusively. Events for subscribers collect in its outbox
//! in the order in which they happened.

use vstd::prelude::*;

use crate::domain::config::Config;
use crate::domain::config::{ConfigView, RuleAction};
use crate::domain::events::DomainEvent;
use crate::domain::events::DomainEventView;
use crate::domain::model::{Project, ProjectId, Slug};
use crate::domain::model::ProjectView;
use crate::domain::rules::{MatcherRegistry, RuleSet};
use crate::domain::rules::{matching, CompiledRuleView, Factory};
use crate::domain::world::{AssignmentSource, WindowFacts, World};
use crate::domain::world::{is_id_of, AssignmentSourceView, WindowFactsView, WorldView};
use crate::domain::ws_names::{parse, project_workspace, ParsedName};
use crate::domain::ws_names::{meaning, project_name, ParsedNameView};
use crate::hypr::ctl::{Dispatch, WsTarget};
use crate::hypr::ctl::{DispatchView, WsTargetView};
use crate::hypr::events::HyprEvent;
use crate::hypr::events::HyprEventView;
use crate::hypr::model::WindowAddress;
use crate::hypr::model::canonical;
use crate::proto::{EventEnvelope, PROTOCOL_VERSION};
use crate::proto::EventEnvelopeView;
use crate::text::same;

verus! {

/// The daemon's state.
pub struct StateActor {
    /// The live model.
    pub world: World,
    /// All projects.
    pub projects: Vec<Project>,
    /// The active configuration.
    pub config: Config,
    /// The matchers that rules can use.
    pub registry: MatcherRegistry,
    /// The active rules.
    pub rules: RuleSet,
    /// Where the configuration lives, if anywhere.
    pub config_dir: Option<String>,
    /// The daemon's version.
    pub version: String,
    /// A newer release, if one is known.
    pub update: Option<String>,
    /// The sequence number of the last event.
    pub seq: u64,
    /// Events that have not been published yet.
    pub outbox: Vec<EventEnvelope>,
}

/// What a [`StateActor`] holds.
#[verifier::ext_equal]
pub struct StateView {
    /// See [`StateActor::world`].
    pub world: WorldView,
    /// See [`StateActor::projects`].
    pub projects: Seq<ProjectView>,
    /// See [`StateActor::config`].
    pub config: ConfigView,
    /// See [`StateActor::registry`].
    pub registry: Seq<Factory>,
    /// See [`StateActor::rules`].
    pub rules: Seq<CompiledRuleView>,
    /// See [`StateActor::config_dir`].
    pub config_dir: Option<Seq<char>>,
    /// See [`StateActor::version`].
    pub version: Seq<char>,
    /// See [`StateActor::update`].
    pub update: Option<Seq<char>>,
    /// See [`StateActor::seq`].
    pub seq: u64,
    /// See [`StateActor::outbox`].
    pub outbox: Seq<EventEnvelopeView>,
}

impl View for StateActor {
    type V = StateView;

    open spec fn view(&self) -> StateView {
        StateView {
            world: self.world@,
            projects: self.projects.deep_view(),
            config: self.config@,
            registry: self.registry@,
            rules: self.rules@,
            config_dir: self.config_dir.deep_view(),
            version: self.version@,
            update: self.update.deep_view(),
            seq: self.seq,
            outbox: self.outbox.deep_view(),
        }
    }
}

// ---- finding projects ---------------------------------------------------------------

/// The first project with the slug, at `from` or later.
pub open spec fn slug_index(projects: Seq<ProjectView>, slug: Seq<char>, from: int) -> Option<int>
    decreases projects.len() - from,
{
    if from < 0 || from >= projects.len() {
        None
    } else if projects[from].slug == slug {
        Some(from)
    } else {
        slug_index(projects, slug, from + 1)
    }
}

/// The first project with the id, at `from` or later.
pub open spec fn id_index(projects: Seq<ProjectView>, id: ProjectId, from: int) -> Option<int>
    decreases projects.len() - from,
{
    if from < 0 || from >= projects.len() {
        None
    } else if projects[from].id == id {
        Some(from)
    } else {
        id_index(projects, id, from + 1)
    }
}

/// Where the first project with the slug stands.
pub fn find_slug(projects: &Vec<Project>, slug: &str) -> (r: Option<usize>)
    ensures
        match (r, slug_index(projects.deep_view(), slug@, 0)) {
            (Some(i), Some(j)) => i == j && i < projects.len(),
            (None, None) => true,
            _ => false,
        },
{
    let ghost views = projects.deep_view();
    let mut i: usize = 0;
    while i < projects.len()
        invariant
            i <= projects.len(),
            views == projects.deep_view(),
            slug_index(views, slug@, 0) == slug_index(views, slug@, i as int),
        decreases projects.len() - i,
    {
        assert(views[i as int] == projects@[i as int]@);
        if same(projects[i].slug.as_str(), slug) {
            return Some(i);
        }
        i = i + 1;
    }
    None
}

/// Where the first project with the id stands.
pub fn find_id(projects: &Vec<Project>, id: ProjectId) -> (r: Option<usize>)
    ensures
        match (r, id_index(projects.deep_view(), id, 0)) {
            (Some(i), Some(j)) => i == j && i < projects.len(),
            (None, None) => true,
            _ => false,
        },
{
    let ghost views = projects.deep_view();
    let mut i: usize = 0;
    while i < projects.len()
        invariant
            i <= projects.len(),
            views == projects.deep_view(),
            id_index(views, id, 0) == id_index(views, id, i as int),
        decreases projects.len() - i,
    {
        assert(views[i as int] == projects@[i as int]@);
        if projects[i].id == id {
            return Some(i);
        }
        i = i + 1;
    }
    None
}

// ---- what events do -------------------------------------------------------------------

/// The facts that a window is known by before it is looked up.
pub open spec fn opening_facts(
    workspace: Seq<char>,
    workspace_id: i64,
    class: Seq<char>,
    title: Seq<char>,
) -> WindowFactsView {
    WindowFactsView {
        class,
        title,
        initial_class: class,
        initial_title: title,
        workspace,
        workspace_id,
        ..WindowFactsView::blank()
    }
}

impl StateView {
    /// Whether another command's events can still be numbered.
    pub open spec fn has_room(self) -> bool {
        self.seq < u64::MAX - 1
    }

    /// An event put into the outbox under the next number.
    pub open spec fn emitting(self, event: DomainEventView) -> StateView {
        let seq = (self.seq + 1) as u64;
        StateView {
            seq,
            outbox: self.outbox.push(EventEnvelopeView { v: PROTOCOL_VERSION, seq, data: event }),
            ..self
        }
    }

    /// The workspace name of a project.
    pub open spec fn workspace_of(self, slug: Seq<char>) -> Seq<char> {
        project_name(self.config.general.workspace_prefix, slug)
    }

    /// The project that a workspace belongs to, if any.
    pub open spec fn owner_of(self, workspace: Seq<char>) -> Option<int> {
        match meaning(self.config.general.workspace_prefix, workspace) {
            ParsedNameView::Project(slug) => slug_index(self.projects, slug, 0),
            ParsedNameView::Group { project, .. } => slug_index(self.projects, project, 0),
            ParsedNameView::Foreign => None,
        }
    }

    /// The slug of the first project with the id, if there is one.
    pub open spec fn slug_of_id(self, id: Option<ProjectId>) -> Option<Seq<char>> {
        match id {
            Some(id) => match id_index(self.projects, id, 0) {
                Some(i) => Some(self.projects[i].slug),
                None => None,
            },
            None => None,
        }
    }

    /// The active project set to the one that a workspace belongs to. Only a
    /// change is announced.
    pub open spec fn synced_with(self, workspace: Seq<char>) -> StateView {
        let active = match self.owner_of(workspace) {
            Some(i) => Some(self.projects[i].id),
            None => None,
        };
        if self.world.active_project == active {
            self
        } else {
            StateView {
                world: WorldView { active_project: active, ..self.world },
                ..self
            }.emitting(DomainEventView::ProjectSwitched { slug: self.slug_of_id(active) })
        }
    }

    /// The state after a compositor event. The id is that of the workspace on
    /// which a window opens.
    pub open spec fn after_hypr_event(self, event: HyprEventView, workspace_id: i64) -> StateView {
        match event {
            HyprEventView::OpenWindow { address, workspace, class, title } => StateView {
                world: self.world.with_window(
                    address,
                    None,
                    opening_facts(workspace, workspace_id, class, title),
                ),
                ..self
            }.emitting(DomainEventView::WindowOpened { address, class, title, workspace }),
            HyprEventView::CloseWindow { address } => if self.world.windows.dom().contains(
                address,
            ) {
                StateView {
                    world: self.world.without_window(address),
                    ..self
                }.emitting(DomainEventView::WindowClosed { address })
            } else {
                self
            },
            HyprEventView::MoveWindow { address, workspace_id: id, workspace } => StateView {
                world: self.world.with_window_on(address, id, workspace),
                ..self
            }.emitting(DomainEventView::WindowMoved { address, workspace }),
            HyprEventView::WindowTitle { address, title } => StateView {
                world: self.world.with_title(address, title),
                ..self
            }.emitting(DomainEventView::WindowTitleChanged { address, title }),
            HyprEventView::ActiveWindow { address } => StateView {
                world: self.world.with_focus(address),
                ..self
            }.emitting(DomainEventView::WindowFocused { address }),
            HyprEventView::ChangeFloatingMode { address, floating } => StateView {
                world: self.world.with_floating(address, floating),
                ..self
            },
            HyprEventView::Pin { address, pinned } => StateView {
                world: self.world.with_pinned(address, pinned),
                ..self
            },
            HyprEventView::Workspace { id, name } => {
                let focused = WorldView { focused_workspace: Some(name), ..self.world };
                StateView {
                    world: if self.world.workspaces.dom().contains(id) {
                        focused
                    } else {
                        focused.with_workspace(id, name, ""@)
                    },
                    ..self
                }.synced_with(name).emitting(DomainEventView::WorkspaceChanged { id, name })
            },
            HyprEventView::CreateWorkspace { id, name } => StateView {
                world: self.world.with_workspace(id, name, ""@),
                ..self
            },
            HyprEventView::DestroyWorkspace { id, .. } => StateView {
                world: self.world.without_workspace(id),
                ..self
            },
            HyprEventView::RenameWorkspace { id, name } => StateView {
                world: self.world.with_workspace_named(id, name),
                ..self
            },
            HyprEventView::MoveWorkspace { id, name, monitor } => StateView {
                world: self.world.with_workspace(id, name, monitor),
                ..self
            },
            HyprEventView::FocusedMonitor { monitor, .. } => StateView {
                world: self.world.with_focused_monitor(monitor),
                ..self
            },
            HyprEventView::MonitorAdded { id, name } => StateView {
                world: self.world.with_monitor(id, name),
                ..self
            },
            HyprEventView::MonitorRemoved { id, .. } => StateView {
                world: self.world.without_monitor(id),
                ..self
            },
            HyprEventView::Fullscreen { active } => StateView {
                world: self.world.with_fullscreen(active),
                ..self
            },
            HyprEventView::ConfigReloaded => self,
            HyprEventView::Urgent { .. } => self,
            HyprEventView::Unknown { .. } => self,
        }
    }

    /// The rule that claims a window, and the project it claims it for. A
    /// window that is assigned already is not claimed.
    pub open spec fn claim(self, address: Seq<char>) -> Option<(CompiledRuleView, ProjectView)> {
        if !self.world.windows.dom().contains(address)
            || self.world.windows[address].assignment is Some {
            None
        } else {
            let matched = matching(self.rules, self.world.windows[address].facts);
            if matched.len() == 0 {
                None
            } else {
                match slug_index(self.projects, matched[0].project, 0) {
                    Some(i) => Some((matched[0], self.projects[i])),
                    None => None,
                }
            }
        }
    }

    /// The state after the rules have looked at a window.
    pub open spec fn after_rules(self, address: Seq<char>) -> StateView {
        match self.claim(address) {
            None => self,
            Some((rule, project)) => StateView {
                world: self.world.with_assignment(
                    address,
                    project.id,
                    rule.group,
                    AssignmentSourceView::Rule(rule.name),
                ),
                ..self
            }.emitting(
                DomainEventView::RuleMatched { rule: rule.name, address, project: rule.project },
            ),
        }
    }

    /// What the compositor is told once the rules have looked at a window.
    pub open spec fn rule_dispatch(self, address: Seq<char>) -> Option<DispatchView> {
        match self.claim(address) {
            None => None,
            Some((rule, _)) => {
                let target = WsTargetView::Name(self.workspace_of(rule.project));
                match self.config.general.rule_action {
                    RuleAction::Assign => None,
                    RuleAction::Move => Some(
                        DispatchView::MoveToWorkspaceSilent { target, address: canonical(address) },
                    ),
                    RuleAction::MoveFocus => Some(
                        DispatchView::MoveToWorkspace { target, address: canonical(address) },
                    ),
                }
            },
        }
    }
}

impl StateActor {
    /// Put an event into the outbox.
    pub fn emit(&mut self, event: DomainEvent)
        requires
            old(self).seq < u64::MAX,
        ensures
            final(self)@ == old(self)@.emitting(event@),
            final(self).world == old(self).world,
            final(self).projects == old(self).projects,
    {
        self.seq = self.seq + 1;
        let ghost before = self.outbox.deep_view();
        self.outbox.push(EventEnvelope { v: PROTOCOL_VERSION, seq: self.seq, data: event });
        proof {
            assert(self.outbox.deep_view() =~= before.push(
                EventEnvelopeView { v: PROTOCOL_VERSION, seq: self.seq, data: event@ },
            ));
        }
    }

    /// The workspace name of a project.
    pub fn ws_name(&self, slug: &Slug) -> (r: String)
        ensures
            r@ == self@.workspace_of(slug@),
    {
        project_workspace(self.config.general.workspace_prefix.as_str(), slug)
    }

    /// The id of a workspace with the name, 0 if there is none.
    fn workspace_id_by_name(&self, name: &str) -> (r: i64)
        ensures
            is_id_of(self@.world.workspaces, name@, r),
    {
        match self.world.workspaces.find_named(name) {
            Some(id) => id,
            None => 0,
        }
    }

    /// Keep the active project in sync when the user switches workspaces by
    /// any means (keybind, waybar, our own dispatch).
    fn sync_active_project_with_workspace(&mut self, workspace_name: &str)
        requires
            old(self).seq < u64::MAX,
        ensures
            final(self)@ == old(self)@.synced_with(workspace_name@),
    {
        let index = match parse(self.config.general.workspace_prefix.as_str(), workspace_name) {
            ParsedName::Project(slug) => find_slug(&self.projects, slug.as_str()),
            ParsedName::Group { project, .. } => find_slug(&self.projects, project.as_str()),
            ParsedName::Foreign => None,
        };
        let active = match index {
            Some(i) => Some(self.projects[i].id),
            None => None,
        };
        if same_id(self.world.active_project, active) {
            return ;
        }
        self.world.active_project = active;
        let slug = match active {
            Some(id) => match find_id(&self.projects, id) {
                Some(i) => Some(self.projects[i].slug.as_str().to_owned()),
                None => None,
            },
            None => None,
        };
        self.emit(DomainEvent::ProjectSwitched { slug });
    }

    /// What a compositor event does to the state.
    pub fn handle_hypr_event(&mut self, event: HyprEvent)
        requires
            old(self)@.has_room(),
        ensures
            event@ matches HyprEventView::OpenWindow { workspace, .. } ==> exists|id: i64|
                #[trigger] is_id_of(old(self)@.world.workspaces, workspace, id) && final(self)@
                    == old(self)@.after_hypr_event(event@, id),
            !(event@ is OpenWindow) ==> final(self)@ == old(self)@.after_hypr_event(event@, 0),
    {
        match event {
            HyprEvent::OpenWindow { address, workspace, class, title } => {
                let address = address.as_str().to_owned();
                let workspace_id: i64 = self.workspace_id_by_name(workspace.as_str());
                let mut facts = WindowFacts::default();
                facts.class = class.clone();
                facts.title = title.clone();
                facts.initial_class = class.clone();
                facts.initial_title = title.clone();
                facts.workspace = workspace.clone();
                facts.workspace_id = workspace_id;
                self.world.upsert_window(address.as_str(), None, facts);
                self.emit(DomainEvent::WindowOpened { address, class, title, workspace });
                proof {
                    assert(is_id_of(old(self)@.world.workspaces, workspace@, workspace_id));
                    assert(self@ =~= old(self)@.after_hypr_event(event@, workspace_id));
                }
            },
            HyprEvent::CloseWindow { address } => {
                let address = address.as_str().to_owned();
                if self.world.windows.contains(address.as_str()) {
                    self.world.remove_window(address.as_str());
                    self.emit(DomainEvent::WindowClosed { address });
                }
            },
            HyprEvent::MoveWindow { address, workspace_id, workspace } => {
                let address = address.as_str().to_owned();
                self.world.set_window_workspace(
                    address.as_str(),
                    workspace_id,
                    workspace.as_str(),
                );
                self.emit(DomainEvent::WindowMoved { address, workspace });
            },
            HyprEvent::WindowTitle { address, title } => {
                let address = address.as_str().to_owned();
                self.world.set_title(address.as_str(), title.as_str());
                self.emit(DomainEvent::WindowTitleChanged { address, title });
            },
            HyprEvent::ActiveWindow { address } => {
                let address = match &address {
                    Some(address) => Some(address.as_str().to_owned()),
                    None => None,
                };
                let focused = match &address {
                    Some(address) => Some(address.clone()),
                    None => None,
                };
                self.world.set_focus(focused);
                self.emit(DomainEvent::WindowFocused { address });
            },
            HyprEvent::ChangeFloatingMode { address, floating } => {
                self.world.set_floating(address.as_str(), floating);
            },
            HyprEvent::Pin { address, pinned } => {
                self.world.set_pinned(address.as_str(), pinned);
            },
            HyprEvent::Workspace { id, name } => {
                self.world.focused_workspace = Some(name.clone());
                if !self.world.workspaces.contains(id) {
                    self.world.upsert_workspace(id, name.as_str(), "");
                }
                self.sync_active_project_with_workspace(name.as_str());
                self.emit(DomainEvent::WorkspaceChanged { id, name });
            },
            HyprEvent::CreateWorkspace { id, name } => {
                self.world.upsert_workspace(id, name.as_str(), "");
            },
            HyprEvent::DestroyWorkspace { id, .. } => {
                self.world.remove_workspace(id);
            },
            HyprEvent::RenameWorkspace { id, name } => {
                self.world.rename_workspace(id, name.as_str());
            },
            HyprEvent::MoveWorkspace { id, name, monitor } => {
                self.world.upsert_workspace(id, name.as_str(), monitor.as_str());
            },
            HyprEvent::FocusedMonitor { monitor, .. } => {
                self.world.focus_monitor(monitor.as_str());
            },
            HyprEvent::MonitorAdded { id, name } => {
                self.world.add_monitor(id, name);
            },
            HyprEvent::MonitorRemoved { id, .. } => {
                self.world.remove_monitor(id);
            },
            HyprEvent::Fullscreen { active } => {
                self.world.set_fullscreen(active);
            },
            HyprEvent::ConfigReloaded => {},
            HyprEvent::Urgent { .. } => {},
            HyprEvent::Unknown { .. } => {},
        }
    }

    /// Evaluate rules for a freshly enriched window and act per config.
    /// Never overrides an existing assignment (Manual > Restore > Rule).
    /// Returns what the compositor is to be told.
    pub fn apply_rules(&mut self, address: &str) -> (r: Option<Dispatch>)
        requires
            old(self)@.has_room(),
        ensures
            final(self)@ == old(self)@.after_rules(address@),
            r.deep_view() == old(self)@.rule_dispatch(address@),
    {
        let facts = match self.world.windows.get(address) {
            Some(window) => {
                if window.assignment.is_some() {
                    return None;
                }
                window.facts.clone()
            },
            None => {
                return None;
            },
        };
        let (rule_name, project_slug, group) = {
            let matched = self.rules.matches(&facts);
            if matched.len() == 0 {
                assert(matching(self.rules@, facts@).len() == 0);
                return None;
            }
            assert(matching(self.rules@, facts@)[0] == matched@[0]@);
            (matched[0].name.clone(), matched[0].project.clone(), matched[0].group.clone())
        };
        let project_id = match find_slug(&self.projects, project_slug.as_str()) {
            Some(i) => self.projects[i].id,
            None => {
                return None;
            },
        };
        let ws = self.ws_name(&project_slug);
        self.world.assign(address, project_id, group, AssignmentSource::Rule(rule_name.clone()));
        self.emit(
            DomainEvent::RuleMatched {
                rule: rule_name,
                address: address.to_owned(),
                project: project_slug.as_str().to_owned(),
            },
        );
        match self.config.general.rule_action {
            RuleAction::Assign => None,
            RuleAction::Move => Some(
                Dispatch::MoveToWorkspaceSilent {
                    target: WsTarget::Name(ws),
                    address: WindowAddress::new(address),
                },
            ),
            RuleAction::MoveFocus => Some(
                Dispatch::MoveToWorkspace {
                    target: WsTarget::Name(ws),
                    address: WindowAddress::new(address),
                },
            ),
        }
    }
}

/// Whether two optional project ids are the same.
pub fn same_id(a: Option<ProjectId>, b: Option<ProjectId>) -> (r: bool)
    ensures
        r == (a == b),
{
    match (a, b) {
        (Some(a), Some(b)) => a == b,
        (None, None) => true,
        _ => false,
    }
}

} // verus!
