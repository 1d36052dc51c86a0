//! Domain events: what the daemon announces on its internal bus and pushes to
//! subscribed IPC clients.
//!
//! On the wire an event is `{"event": "window.opened", "data": {…}}`, so event
//! names are part of the protocol contract and must stay stable.

use vstd::prelude::*;

verus! {

/// An event on the daemon's internal bus, also pushed to subscribed clients.
#[derive(Debug, PartialEq)]
#[allow(inconsistent_fields)]
pub enum DomainEvent {
    /// A window appeared.
    WindowOpened {
        /// Canonical window address.
        address: String,
        /// Window class.
        class: String,
        /// Window title.
        title: String,
        /// Workspace name it opened on.
        workspace: String,
    },
    /// A window closed.
    WindowClosed {
        /// Canonical window address.
        address: String,
    },
    /// A window moved to another workspace.
    WindowMoved {
        /// Canonical window address.
        address: String,
        /// Destination workspace name.
        workspace: String,
    },
    /// A window's title changed.
    WindowTitleChanged {
        /// Canonical window address.
        address: String,
        /// The new title.
        title: String,
    },
    /// Window focus changed (`None` = no window focused).
    WindowFocused {
        /// Canonical address of the focused window, if any.
        address: Option<String>,
    },
    /// The focused workspace changed.
    WorkspaceChanged {
        /// Workspace id.
        id: i64,
        /// Workspace name.
        name: String,
    },
    /// A rule assigned a window.
    RuleMatched {
        /// The rule's name.
        rule: String,
        /// Canonical window address.
        address: String,
        /// Slug of the project.
        project: String,
    },
    /// A project was created.
    ProjectCreated {
        /// Its slug.
        slug: String,
        /// Its display name.
        name: String,
    },
    /// A project was deleted.
    ProjectDeleted {
        /// Its slug.
        slug: String,
    },
    /// A project was renamed.
    ProjectRenamed {
        /// Its slug.
        slug: String,
        /// Its new display name.
        name: String,
    },
    /// The active project changed (`None` = no project active).
    ProjectSwitched {
        /// Slug of the active project, if any.
        slug: Option<String>,
    },
    /// A group, or what belongs to it, changed.
    GroupChanged {
        /// The project's slug.
        project: String,
        /// The group's slug.
        group: String,
    },
    /// A slot's launch made progress.
    RestoreProgress {
        /// Slug of the project.
        project: String,
        /// Label of the slot.
        slot: String,
        /// launching, ready, timeout, failed or skipped.
        state: String,
        /// Slots launched so far.
        completed: usize,
        /// Slots to launch.
        total: usize,
    },
    /// A restore run finished.
    RestoreFinished {
        /// Slug of the project.
        project: String,
        /// Windows adopted.
        adopted: usize,
        /// Slots launched.
        launched: usize,
        /// Labels of the slots that failed or were skipped.
        failed: Vec<String>,
    },
    /// A newer release is known.
    UpdateAvailable {
        /// The newer version.
        version: String,
    },
    /// The Hyprland event socket connected or dropped.
    HyprConnection {
        /// Whether the connection is up.
        up: bool,
    },
    /// The daemon is exiting.
    ShuttingDown,
}

/// What a [`DomainEvent`] holds.
#[verifier::ext_equal]
#[allow(inconsistent_fields)]
pub enum DomainEventView {
    /// See [`DomainEvent::WindowOpened`].
    WindowOpened {
        /// Canonical window address.
        address: Seq<char>,
        /// Window class.
        class: Seq<char>,
        /// Window title.
        title: Seq<char>,
        /// Workspace name it opened on.
        workspace: Seq<char>,
    },
    /// See [`DomainEvent::WindowClosed`].
    WindowClosed {
        /// Canonical window address.
        address: Seq<char>,
    },
    /// See [`DomainEvent::WindowMoved`].
    WindowMoved {
        /// Canonical window address.
        address: Seq<char>,
        /// Destination workspace name.
        workspace: Seq<char>,
    },
    /// See [`DomainEvent::WindowTitleChanged`].
    WindowTitleChanged {
        /// Canonical window address.
        address: Seq<char>,
        /// The new title.
        title: Seq<char>,
    },
    /// See [`DomainEvent::WindowFocused`].
    WindowFocused {
        /// Canonical address of the focused window, if any.
        address: Option<Seq<char>>,
    },
    /// See [`DomainEvent::WorkspaceChanged`].
    WorkspaceChanged {
        /// Workspace id.
        id: i64,
        /// Workspace name.
        name: Seq<char>,
    },
    /// See [`DomainEvent::RuleMatched`].
    RuleMatched {
        /// The rule's name.
        rule: Seq<char>,
        /// Canonical window address.
        address: Seq<char>,
        /// Slug of the project.
        project: Seq<char>,
    },
    /// See [`DomainEvent::ProjectCreated`].
    ProjectCreated {
        /// Its slug.
        slug: Seq<char>,
        /// Its display name.
        name: Seq<char>,
    },
    /// See [`DomainEvent::ProjectDeleted`].
    ProjectDeleted {
        /// Its slug.
        slug: Seq<char>,
    },
    /// See [`DomainEvent::ProjectRenamed`].
    ProjectRenamed {
        /// Its slug.
        slug: Seq<char>,
        /// Its new display name.
        name: Seq<char>,
    },
    /// See [`DomainEvent::ProjectSwitched`].
    ProjectSwitched {
        /// Slug of the active project, if any.
        slug: Option<Seq<char>>,
    },
    /// See [`DomainEvent::GroupChanged`].
    GroupChanged {
        /// The project's slug.
        project: Seq<char>,
        /// The group's slug.
        group: Seq<char>,
    },
    /// See [`DomainEvent::RestoreProgress`].
    RestoreProgress {
        /// Slug of the project.
        project: Seq<char>,
        /// Label of the slot.
        slot: Seq<char>,
        /// launching, ready, timeout, failed or skipped.
        state: Seq<char>,
        /// Slots launched so far.
        completed: usize,
        /// Slots to launch.
        total: usize,
    },
    /// See [`DomainEvent::RestoreFinished`].
    RestoreFinished {
        /// Slug of the project.
        project: Seq<char>,
        /// Windows adopted.
        adopted: usize,
        /// Slots launched.
        launched: usize,
        /// Labels of the slots that failed or were skipped.
        failed: Seq<Seq<char>>,
    },
    /// See [`DomainEvent::UpdateAvailable`].
    UpdateAvailable {
        /// The newer version.
        version: Seq<char>,
    },
    /// See [`DomainEvent::HyprConnection`].
    HyprConnection {
        /// Whether the connection is up.
        up: bool,
    },
    /// See [`DomainEvent::ShuttingDown`].
    ShuttingDown,
}

impl View for DomainEvent {
    type V = DomainEventView;

    open spec fn view(&self) -> DomainEventView {
        match self {
            DomainEvent::WindowOpened { address, class, title, workspace } => DomainEventView::WindowOpened {
                address: address.deep_view(),
                class: class.deep_view(),
                title: title.deep_view(),
                workspace: workspace.deep_view(),
            },
            DomainEvent::WindowClosed { address } => DomainEventView::WindowClosed {
                address: address.deep_view(),
            },
            DomainEvent::WindowMoved { address, workspace } => DomainEventView::WindowMoved {
                address: address.deep_view(),
                workspace: workspace.deep_view(),
            },
            DomainEvent::WindowTitleChanged { address, title } => DomainEventView::WindowTitleChanged {
                address: address.deep_view(),
                title: title.deep_view(),
            },
            DomainEvent::WindowFocused { address } => DomainEventView::WindowFocused {
                address: address.deep_view(),
            },
            DomainEvent::WorkspaceChanged { id, name } => DomainEventView::WorkspaceChanged {
                id: *id,
                name: name.deep_view(),
            },
            DomainEvent::RuleMatched { rule, address, project } => DomainEventView::RuleMatched {
                rule: rule.deep_view(),
                address: address.deep_view(),
                project: project.deep_view(),
            },
            DomainEvent::ProjectCreated { slug, name } => DomainEventView::ProjectCreated {
                slug: slug.deep_view(),
                name: name.deep_view(),
            },
            DomainEvent::ProjectDeleted { slug } => DomainEventView::ProjectDeleted {
                slug: slug.deep_view(),
            },
            DomainEvent::ProjectRenamed { slug, name } => DomainEventView::ProjectRenamed {
                slug: slug.deep_view(),
                name: name.deep_view(),
            },
            DomainEvent::ProjectSwitched { slug } => DomainEventView::ProjectSwitched {
                slug: slug.deep_view(),
            },
            DomainEvent::GroupChanged { project, group } => DomainEventView::GroupChanged {
                project: project.deep_view(),
                group: group.deep_view(),
            },
            DomainEvent::RestoreProgress { project, slot, state, completed, total } => DomainEventView::RestoreProgress {
                project: project.deep_view(),
                slot: slot.deep_view(),
                state: state.deep_view(),
                completed: *completed,
                total: *total,
            },
            DomainEvent::RestoreFinished { project, adopted, launched, failed } => DomainEventView::RestoreFinished {
                project: project.deep_view(),
                adopted: *adopted,
                launched: *launched,
                failed: failed.deep_view(),
            },
            DomainEvent::UpdateAvailable { version } => DomainEventView::UpdateAvailable {
                version: version.deep_view(),
            },
            DomainEvent::HyprConnection { up } => DomainEventView::HyprConnection {
                up: *up,
            },
            DomainEvent::ShuttingDown => DomainEventView::ShuttingDown,
        }
    }
}

impl DeepView for DomainEvent {
    type V = DomainEventView;

    open spec fn deep_view(&self) -> DomainEventView {
        self.view()
    }
}

/// Subscription topic of an event.
pub open spec fn topic_of(event: DomainEventView) -> Seq<char> {
    match event {
        DomainEventView::WindowOpened { .. }
        | DomainEventView::WindowClosed { .. }
        | DomainEventView::WindowMoved { .. }
        | DomainEventView::WindowTitleChanged { .. }
        | DomainEventView::WindowFocused { .. }
        | DomainEventView::RuleMatched { .. } => "windows"@,
        DomainEventView::WorkspaceChanged { .. } => "workspaces"@,
        DomainEventView::ProjectCreated { .. }
        | DomainEventView::ProjectDeleted { .. }
        | DomainEventView::ProjectRenamed { .. }
        | DomainEventView::ProjectSwitched { .. }
        | DomainEventView::GroupChanged { .. } => "projects"@,
        DomainEventView::RestoreProgress { .. }
        | DomainEventView::RestoreFinished { .. } => "restore"@,
        DomainEventView::UpdateAvailable { .. }
        | DomainEventView::HyprConnection { .. }
        | DomainEventView::ShuttingDown => "daemon"@,
    }
}

/// The name of an event on the wire.
pub open spec fn wire_name(event: DomainEventView) -> Seq<char> {
    match event {
        DomainEventView::WindowOpened { .. } => "window.opened"@,
        DomainEventView::WindowClosed { .. } => "window.closed"@,
        DomainEventView::WindowMoved { .. } => "window.moved"@,
        DomainEventView::WindowTitleChanged { .. } => "window.title"@,
        DomainEventView::WindowFocused { .. } => "window.focused"@,
        DomainEventView::WorkspaceChanged { .. } => "workspace.changed"@,
        DomainEventView::RuleMatched { .. } => "rule.matched"@,
        DomainEventView::ProjectCreated { .. } => "project.created"@,
        DomainEventView::ProjectDeleted { .. } => "project.deleted"@,
        DomainEventView::ProjectRenamed { .. } => "project.renamed"@,
        DomainEventView::ProjectSwitched { .. } => "project.switched"@,
        DomainEventView::GroupChanged { .. } => "group.changed"@,
        DomainEventView::RestoreProgress { .. } => "restore.progress"@,
        DomainEventView::RestoreFinished { .. } => "restore.finished"@,
        DomainEventView::UpdateAvailable { .. } => "daemon.update_available"@,
        DomainEventView::HyprConnection { .. } => "daemon.hypr_connection"@,
        DomainEventView::ShuttingDown => "daemon.shutting_down"@,
    }
}

impl DomainEvent {
    /// Subscription topic this event belongs to.
    pub fn topic(&self) -> (r: &'static str)
        ensures
            r@ == topic_of(self@),
    {
        match self {
            DomainEvent::WindowOpened { .. }
            | DomainEvent::WindowClosed { .. }
            | DomainEvent::WindowMoved { .. }
            | DomainEvent::WindowTitleChanged { .. }
            | DomainEvent::WindowFocused { .. }
            | DomainEvent::RuleMatched { .. } => "windows",
            DomainEvent::WorkspaceChanged { .. } => "workspaces",
            DomainEvent::ProjectCreated { .. }
            | DomainEvent::ProjectDeleted { .. }
            | DomainEvent::ProjectRenamed { .. }
            | DomainEvent::ProjectSwitched { .. }
            | DomainEvent::GroupChanged { .. } => "projects",
            DomainEvent::RestoreProgress { .. }
            | DomainEvent::RestoreFinished { .. } => "restore",
            DomainEvent::UpdateAvailable { .. }
            | DomainEvent::HyprConnection { .. }
            | DomainEvent::ShuttingDown => "daemon",
        }
    }

    /// The name of the event on the wire.
    pub fn name(&self) -> (r: &'static str)
        ensures
            r@ == wire_name(self@),
    {
        match self {
            DomainEvent::WindowOpened { .. } => "window.opened",
            DomainEvent::WindowClosed { .. } => "window.closed",
            DomainEvent::WindowMoved { .. } => "window.moved",
            DomainEvent::WindowTitleChanged { .. } => "window.title",
            DomainEvent::WindowFocused { .. } => "window.focused",
            DomainEvent::WorkspaceChanged { .. } => "workspace.changed",
            DomainEvent::RuleMatched { .. } => "rule.matched",
            DomainEvent::ProjectCreated { .. } => "project.created",
            DomainEvent::ProjectDeleted { .. } => "project.deleted",
            DomainEvent::ProjectRenamed { .. } => "project.renamed",
            DomainEvent::ProjectSwitched { .. } => "project.switched",
            DomainEvent::GroupChanged { .. } => "group.changed",
            DomainEvent::RestoreProgress { .. } => "restore.progress",
            DomainEvent::RestoreFinished { .. } => "restore.finished",
            DomainEvent::UpdateAvailable { .. } => "daemon.update_available",
            DomainEvent::HyprConnection { .. } => "daemon.hypr_connection",
            DomainEvent::ShuttingDown => "daemon.shutting_down",
        }
    }
}

/// Every event belongs to one topic: those about windows and rules, those about
/// workspaces, those about projects and groups, those about restore runs, and
/// those about the daemon.
pub proof fn law_every_event_has_its_topic(event: DomainEventView)
    ensures
        event is WindowOpened || event is WindowClosed || event is WindowMoved
            || event is WindowTitleChanged || event is WindowFocused || event is RuleMatched
            ==> topic_of(event) == "windows"@,
        event is WorkspaceChanged ==> topic_of(event) == "workspaces"@,
        event is ProjectCreated || event is ProjectDeleted || event is ProjectRenamed
            || event is ProjectSwitched || event is GroupChanged ==> topic_of(event)
            == "projects"@,
        event is RestoreProgress || event is RestoreFinished ==> topic_of(event) == "restore"@,
        event is UpdateAvailable || event is HyprConnection || event is ShuttingDown ==> topic_of(
            event,
        ) == "daemon"@,
{
}

} // verus!
