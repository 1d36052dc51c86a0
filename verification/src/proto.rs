//! Wire protocol between the daemon and its clients (CLI, panel).
//!
//! Transport: a Unix socket at `$XDG_RUNTIME_DIR/omarchy-workspaces/daemon.sock`
//! carrying newline-delimited JSON. Requests carry an `id` echoed in the
//! response; subscribed clients additionally receive pushed events with a
//! monotonic `seq`.

use vstd::prelude::*;

use crate::domain::events::DomainEvent;
use crate::domain::events::DomainEventView;
use crate::domain::model::{AppSlot, Project, Slug};
use crate::domain::model::{AppSlotView, ProjectView};
use crate::domain::restore::RestorePlan;
use crate::domain::restore::RestorePlanView;
use crate::domain::world::{MonitorInfo, TrackedWindow, WorkspaceInfo};
use crate::domain::world::{MonitorInfoView, TrackedWindowView, WorkspaceInfoView};
use crate::storage::projects::ProjectFile;

verus! {

/// Protocol major version; the daemon rejects envelopes with a different major.
pub const PROTOCOL_VERSION: u32 = 1;

/// The kinds of failure that the protocol knows.
#[derive(Debug, Clone, Copy, PartialEq, Eq, Structural)]
pub enum ErrorCode {
    /// The request makes no sense.
    BadRequest,
    /// The method is not known.
    UnknownMethod,
    /// The protocol major is another one.
    UnsupportedVersion,
    /// What the request names does not exist.
    NotFound,
    /// The request collides with what exists.
    Conflict,
    /// The request may mean several things.
    Ambiguous,
    /// Hyprland refused.
    Hyprland,
    /// The daemon failed.
    Internal,
}

/// A failure's code on the wire.
pub open spec fn code_text(code: ErrorCode) -> Seq<char> {
    match code {
        ErrorCode::BadRequest => "BAD_REQUEST"@,
        ErrorCode::UnknownMethod => "UNKNOWN_METHOD"@,
        ErrorCode::UnsupportedVersion => "UNSUPPORTED_VERSION"@,
        ErrorCode::NotFound => "NOT_FOUND"@,
        ErrorCode::Conflict => "CONFLICT"@,
        ErrorCode::Ambiguous => "AMBIGUOUS"@,
        ErrorCode::Hyprland => "HYPRLAND"@,
        ErrorCode::Internal => "INTERNAL"@,
    }
}

impl ErrorCode {
    /// The code on the wire.
    pub fn text(&self) -> (r: &'static str)
        ensures
            r@ == code_text(*self),
    {
        match self {
            ErrorCode::BadRequest => "BAD_REQUEST",
            ErrorCode::UnknownMethod => "UNKNOWN_METHOD",
            ErrorCode::UnsupportedVersion => "UNSUPPORTED_VERSION",
            ErrorCode::NotFound => "NOT_FOUND",
            ErrorCode::Conflict => "CONFLICT",
            ErrorCode::Ambiguous => "AMBIGUOUS",
            ErrorCode::Hyprland => "HYPRLAND",
            ErrorCode::Internal => "INTERNAL",
        }
    }
}

/// A request to the daemon.
#[derive(Debug)]
#[allow(inconsistent_fields)]
pub enum Request {
    /// `daemon.status`.
    DaemonStatus,
    /// `state.snapshot`.
    StateSnapshot,
    /// `subscribe`.
    Subscribe {
        /// Topics of interest; all when absent.
        topics: Option<Vec<String>>,
    },
    /// `project.create`.
    ProjectCreate {
        /// Display name.
        name: String,
        /// Explicit slug; derived from the name when absent.
        slug: Option<String>,
    },
    /// `project.delete`.
    ProjectDelete {
        /// Exact project slug.
        slug: String,
    },
    /// `project.rename`.
    ProjectRename {
        /// Exact project slug.
        slug: String,
        /// New display name.
        name: String,
    },
    /// `project.switch`.
    ProjectSwitch {
        /// Project query.
        project: String,
    },
    /// `project.list`.
    ProjectList,
    /// `project.save`.
    ProjectSave {
        /// Project query; the active project when absent.
        project: Option<String>,
    },
    /// `project.restore`.
    ProjectRestore {
        /// Project query; the active project when absent.
        project: Option<String>,
        /// Only plan, change nothing.
        dry_run: bool,
    },
    /// `project.close`.
    ProjectClose {
        /// Project query; the active project when absent.
        project: Option<String>,
    },
    /// `project.reorder`.
    ProjectReorder {
        /// All slugs in their new order.
        order: Vec<String>,
    },
    /// `project.get`.
    ProjectGet {
        /// Project query.
        project: String,
    },
    /// `project.capture`.
    ProjectCapture {
        /// Project query; the active project when absent.
        project: Option<String>,
    },
    /// `project.duplicate`.
    ProjectDuplicate {
        /// Project query.
        project: String,
        /// Display name of the copy.
        name: String,
    },
    /// `project.export`.
    ProjectExport {
        /// Project query.
        project: String,
    },
    /// `project.import`.
    ProjectImport {
        /// The project file.
        toml: String,
        /// Replace a project with the same slug.
        force: bool,
    },
    /// `slot.update`.
    SlotUpdate {
        /// Project query.
        project: String,
        /// Slot id.
        slot_id: String,
        /// Launch command line.
        command: Option<String>,
        /// Working directory.
        workdir: Option<String>,
        /// Browser profile directory.
        profile: Option<String>,
    },
    /// `window.assign`.
    WindowAssign {
        /// Window address.
        address: String,
        /// Project query.
        project: String,
        /// Group slug within the project.
        group: Option<String>,
    },
    /// `group.create`.
    GroupCreate {
        /// Project query.
        project: String,
        /// Display name.
        name: String,
        /// Explicit slug.
        slug: Option<String>,
    },
    /// `group.add`.
    GroupAdd {
        /// Project query.
        project: String,
        /// Group slug.
        group: String,
        /// Window address.
        address: String,
    },
    /// `group.remove`.
    GroupRemove {
        /// Project query.
        project: String,
        /// Group slug.
        group: String,
        /// Window address.
        address: String,
    },
    /// `group.hide`.
    GroupHide {
        /// Project query.
        project: String,
        /// Group slug.
        group: String,
    },
    /// `group.show`.
    GroupShow {
        /// Project query.
        project: String,
        /// Group slug.
        group: String,
    },
    /// `group.focus`.
    GroupFocus {
        /// Project query.
        project: String,
        /// Group slug.
        group: String,
    },
    /// `group.move`.
    GroupMove {
        /// Project query.
        project: String,
        /// Group slug.
        group: String,
        /// Destination project query.
        to: String,
    },
    /// `rules.test`.
    RulesTest {
        /// Window address; the focused window when absent.
        address: Option<String>,
    },
    /// `config.reload`.
    ConfigReload,
    /// `search`.
    Search {
        /// What to look for.
        query: String,
    },
}

/// What a [`Request`] holds.
#[verifier::ext_equal]
#[allow(inconsistent_fields)]
pub enum RequestView {
    /// See [`Request::DaemonStatus`].
    DaemonStatus,
    /// See [`Request::StateSnapshot`].
    StateSnapshot,
    /// See [`Request::Subscribe`].
    Subscribe {
        /// Topics of interest; all when absent.
        topics: Option<Seq<Seq<char>>>,
    },
    /// See [`Request::ProjectCreate`].
    ProjectCreate {
        /// Display name.
        name: Seq<char>,
        /// Explicit slug; derived from the name when absent.
        slug: Option<Seq<char>>,
    },
    /// See [`Request::ProjectDelete`].
    ProjectDelete {
        /// Exact project slug.
        slug: Seq<char>,
    },
    /// See [`Request::ProjectRename`].
    ProjectRename {
        /// Exact project slug.
        slug: Seq<char>,
        /// New display name.
        name: Seq<char>,
    },
    /// See [`Request::ProjectSwitch`].
    ProjectSwitch {
        /// Project query.
        project: Seq<char>,
    },
    /// See [`Request::ProjectList`].
    ProjectList,
    /// See [`Request::ProjectSave`].
    ProjectSave {
        /// Project query; the active project when absent.
        project: Option<Seq<char>>,
    },
    /// See [`Request::ProjectRestore`].
    ProjectRestore {
        /// Project query; the active project when absent.
        project: Option<Seq<char>>,
        /// Only plan, change nothing.
        dry_run: bool,
    },
    /// See [`Request::ProjectClose`].
    ProjectClose {
        /// Project query; the active project when absent.
        project: Option<Seq<char>>,
    },
    /// See [`Request::ProjectReorder`].
    ProjectReorder {
        /// All slugs in their new order.
        order: Seq<Seq<char>>,
    },
    /// See [`Request::ProjectGet`].
    ProjectGet {
        /// Project query.
        project: Seq<char>,
    },
    /// See [`Request::ProjectCapture`].
    ProjectCapture {
        /// Project query; the active project when absent.
        project: Option<Seq<char>>,
    },
    /// See [`Request::ProjectDuplicate`].
    ProjectDuplicate {
        /// Project query.
        project: Seq<char>,
        /// Display name of the copy.
        name: Seq<char>,
    },
    /// See [`Request::ProjectExport`].
    ProjectExport {
        /// Project query.
        project: Seq<char>,
    },
    /// See [`Request::ProjectImport`].
    ProjectImport {
        /// The project file.
        toml: Seq<char>,
        /// Replace a project with the same slug.
        force: bool,
    },
    /// See [`Request::SlotUpdate`].
    SlotUpdate {
        /// Project query.
        project: Seq<char>,
        /// Slot id.
        slot_id: Seq<char>,
        /// Launch command line.
        command: Option<Seq<char>>,
        /// Working directory.
        workdir: Option<Seq<char>>,
        /// Browser profile directory.
        profile: Option<Seq<char>>,
    },
    /// See [`Request::WindowAssign`].
    WindowAssign {
        /// Window address.
        address: Seq<char>,
        /// Project query.
        project: Seq<char>,
        /// Group slug within the project.
        group: Option<Seq<char>>,
    },
    /// See [`Request::GroupCreate`].
    GroupCreate {
        /// Project query.
        project: Seq<char>,
        /// Display name.
        name: Seq<char>,
        /// Explicit slug.
        slug: Option<Seq<char>>,
    },
    /// See [`Request::GroupAdd`].
    GroupAdd {
        /// Project query.
        project: Seq<char>,
        /// Group slug.
        group: Seq<char>,
        /// Window address.
        address: Seq<char>,
    },
    /// See [`Request::GroupRemove`].
    GroupRemove {
        /// Project query.
        project: Seq<char>,
        /// Group slug.
        group: Seq<char>,
        /// Window address.
        address: Seq<char>,
    },
    /// See [`Request::GroupHide`].
    GroupHide {
        /// Project query.
        project: Seq<char>,
        /// Group slug.
        group: Seq<char>,
    },
    /// See [`Request::GroupShow`].
    GroupShow {
        /// Project query.
        project: Seq<char>,
        /// Group slug.
        group: Seq<char>,
    },
    /// See [`Request::GroupFocus`].
    GroupFocus {
        /// Project query.
        project: Seq<char>,
        /// Group slug.
        group: Seq<char>,
    },
    /// See [`Request::GroupMove`].
    GroupMove {
        /// Project query.
        project: Seq<char>,
        /// Group slug.
        group: Seq<char>,
        /// Destination project query.
        to: Seq<char>,
    },
    /// See [`Request::RulesTest`].
    RulesTest {
        /// Window address; the focused window when absent.
        address: Option<Seq<char>>,
    },
    /// See [`Request::ConfigReload`].
    ConfigReload,
    /// See [`Request::Search`].
    Search {
        /// What to look for.
        query: Seq<char>,
    },
}

impl View for Request {
    type V = RequestView;

    open spec fn view(&self) -> RequestView {
        match self {
            Request::DaemonStatus => RequestView::DaemonStatus,
            Request::StateSnapshot => RequestView::StateSnapshot,
            Request::Subscribe { topics } => RequestView::Subscribe {
                topics: topics.deep_view(),
            },
            Request::ProjectCreate { name, slug } => RequestView::ProjectCreate {
                name: name.deep_view(),
                slug: slug.deep_view(),
            },
            Request::ProjectDelete { slug } => RequestView::ProjectDelete {
                slug: slug.deep_view(),
            },
            Request::ProjectRename { slug, name } => RequestView::ProjectRename {
                slug: slug.deep_view(),
                name: name.deep_view(),
            },
            Request::ProjectSwitch { project } => RequestView::ProjectSwitch {
                project: project.deep_view(),
            },
            Request::ProjectList => RequestView::ProjectList,
            Request::ProjectSave { project } => RequestView::ProjectSave {
                project: project.deep_view(),
            },
            Request::ProjectRestore { project, dry_run } => RequestView::ProjectRestore {
                project: project.deep_view(),
                dry_run: *dry_run,
            },
            Request::ProjectClose { project } => RequestView::ProjectClose {
                project: project.deep_view(),
            },
            Request::ProjectReorder { order } => RequestView::ProjectReorder {
                order: order.deep_view(),
            },
            Request::ProjectGet { project } => RequestView::ProjectGet {
                project: project.deep_view(),
            },
            Request::ProjectCapture { project } => RequestView::ProjectCapture {
                project: project.deep_view(),
            },
            Request::ProjectDuplicate { project, name } => RequestView::ProjectDuplicate {
                project: project.deep_view(),
                name: name.deep_view(),
            },
            Request::ProjectExport { project } => RequestView::ProjectExport {
                project: project.deep_view(),
            },
            Request::ProjectImport { toml, force } => RequestView::ProjectImport {
                toml: toml.deep_view(),
                force: *force,
            },
            Request::SlotUpdate { project, slot_id, command, workdir, profile } => RequestView::SlotUpdate {
                project: project.deep_view(),
                slot_id: slot_id.deep_view(),
                command: command.deep_view(),
                workdir: workdir.deep_view(),
                profile: profile.deep_view(),
            },
            Request::WindowAssign { address, project, group } => RequestView::WindowAssign {
                address: address.deep_view(),
                project: project.deep_view(),
                group: group.deep_view(),
            },
            Request::GroupCreate { project, name, slug } => RequestView::GroupCreate {
                project: project.deep_view(),
                name: name.deep_view(),
                slug: slug.deep_view(),
            },
            Request::GroupAdd { project, group, address } => RequestView::GroupAdd {
                project: project.deep_view(),
                group: group.deep_view(),
                address: address.deep_view(),
            },
            Request::GroupRemove { project, group, address } => RequestView::GroupRemove {
                project: project.deep_view(),
                group: group.deep_view(),
                address: address.deep_view(),
            },
            Request::GroupHide { project, group } => RequestView::GroupHide {
                project: project.deep_view(),
                group: group.deep_view(),
            },
            Request::GroupShow { project, group } => RequestView::GroupShow {
                project: project.deep_view(),
                group: group.deep_view(),
            },
            Request::GroupFocus { project, group } => RequestView::GroupFocus {
                project: project.deep_view(),
                group: group.deep_view(),
            },
            Request::GroupMove { project, group, to } => RequestView::GroupMove {
                project: project.deep_view(),
                group: group.deep_view(),
                to: to.deep_view(),
            },
            Request::RulesTest { address } => RequestView::RulesTest {
                address: address.deep_view(),
            },
            Request::ConfigReload => RequestView::ConfigReload,
            Request::Search { query } => RequestView::Search {
                query: query.deep_view(),
            },
        }
    }
}

impl DeepView for Request {
    type V = RequestView;

    open spec fn deep_view(&self) -> RequestView {
        self.view()
    }
}

/// What a project looks like from outside.
#[derive(Debug, PartialEq)]
pub struct ProjectSummary {
    /// Its slug.
    pub slug: Slug,
    /// Its display name.
    pub name: String,
    /// Whether it is the active project.
    pub active: bool,
    /// How many live windows are assigned to it.
    pub windows: usize,
    /// The slugs of its groups.
    pub groups: Vec<Slug>,
    /// Its workspace name.
    pub workspace: String,
}

/// What a [`ProjectSummary`] holds.
#[verifier::ext_equal]
pub struct ProjectSummaryView {
    /// See [`ProjectSummary::slug`].
    pub slug: Seq<char>,
    /// See [`ProjectSummary::name`].
    pub name: Seq<char>,
    /// See [`ProjectSummary::active`].
    pub active: bool,
    /// See [`ProjectSummary::windows`].
    pub windows: usize,
    /// See [`ProjectSummary::groups`].
    pub groups: Seq<Seq<char>>,
    /// See [`ProjectSummary::workspace`].
    pub workspace: Seq<char>,
}

impl View for ProjectSummary {
    type V = ProjectSummaryView;

    open spec fn view(&self) -> ProjectSummaryView {
        ProjectSummaryView {
            slug: self.slug.deep_view(),
            name: self.name.deep_view(),
            active: self.active,
            windows: self.windows,
            groups: self.groups.deep_view(),
            workspace: self.workspace.deep_view(),
        }
    }
}

impl DeepView for ProjectSummary {
    type V = ProjectSummaryView;

    open spec fn deep_view(&self) -> ProjectSummaryView {
        self.view()
    }
}

/// The daemon's state in numbers.
#[derive(Debug, PartialEq)]
pub struct DaemonStatus {
    /// Version of the running daemon.
    pub version: String,
    /// Seconds since it started.
    pub uptime_s: u64,
    /// Whether the Hyprland event socket is connected.
    pub hypr_connected: bool,
    /// Slug of the active project, if any.
    pub active_project: Option<Slug>,
    /// How many windows are tracked.
    pub windows: usize,
    /// How many projects there are.
    pub projects: usize,
    /// A newer release, if one is known.
    pub update_available: Option<String>,
}

/// What a [`DaemonStatus`] holds.
#[verifier::ext_equal]
pub struct DaemonStatusView {
    /// See [`DaemonStatus::version`].
    pub version: Seq<char>,
    /// See [`DaemonStatus::uptime_s`].
    pub uptime_s: u64,
    /// See [`DaemonStatus::hypr_connected`].
    pub hypr_connected: bool,
    /// See [`DaemonStatus::active_project`].
    pub active_project: Option<Seq<char>>,
    /// See [`DaemonStatus::windows`].
    pub windows: usize,
    /// See [`DaemonStatus::projects`].
    pub projects: usize,
    /// See [`DaemonStatus::update_available`].
    pub update_available: Option<Seq<char>>,
}

impl View for DaemonStatus {
    type V = DaemonStatusView;

    open spec fn view(&self) -> DaemonStatusView {
        DaemonStatusView {
            version: self.version.deep_view(),
            uptime_s: self.uptime_s,
            hypr_connected: self.hypr_connected,
            active_project: self.active_project.deep_view(),
            windows: self.windows,
            projects: self.projects,
            update_available: self.update_available.deep_view(),
        }
    }
}

impl DeepView for DaemonStatus {
    type V = DaemonStatusView;

    open spec fn deep_view(&self) -> DaemonStatusView {
        self.view()
    }
}

/// The daemon's whole state.
#[derive(Debug, PartialEq)]
pub struct Snapshot {
    /// All projects.
    pub projects: Vec<ProjectSummary>,
    /// All windows, by ascending address.
    pub windows: Vec<TrackedWindow>,
    /// All workspaces, by ascending id.
    pub workspaces: Vec<WorkspaceInfo>,
    /// All monitors.
    pub monitors: Vec<MonitorInfo>,
    /// Address of the focused window, if any.
    pub focused_window: Option<String>,
    /// Whether the Hyprland event socket is connected.
    pub hypr_connected: bool,
    /// A newer release, if one is known.
    pub update_available: Option<String>,
}

/// What a [`Snapshot`] holds.
#[verifier::ext_equal]
pub struct SnapshotView {
    /// See [`Snapshot::projects`].
    pub projects: Seq<ProjectSummaryView>,
    /// See [`Snapshot::windows`].
    pub windows: Seq<TrackedWindowView>,
    /// See [`Snapshot::workspaces`].
    pub workspaces: Seq<WorkspaceInfoView>,
    /// See [`Snapshot::monitors`].
    pub monitors: Seq<MonitorInfoView>,
    /// See [`Snapshot::focused_window`].
    pub focused_window: Option<Seq<char>>,
    /// See [`Snapshot::hypr_connected`].
    pub hypr_connected: bool,
    /// See [`Snapshot::update_available`].
    pub update_available: Option<Seq<char>>,
}

impl View for Snapshot {
    type V = SnapshotView;

    open spec fn view(&self) -> SnapshotView {
        SnapshotView {
            projects: self.projects.deep_view(),
            windows: self.windows.deep_view(),
            workspaces: self.workspaces.deep_view(),
            monitors: self.monitors.deep_view(),
            focused_window: self.focused_window.deep_view(),
            hypr_connected: self.hypr_connected,
            update_available: self.update_available.deep_view(),
        }
    }
}

impl DeepView for Snapshot {
    type V = SnapshotView;

    open spec fn deep_view(&self) -> SnapshotView {
        self.view()
    }
}

/// One rule that matches a window.
#[derive(Debug, PartialEq)]
pub struct RuleMatch {
    /// The rule's name.
    pub rule: String,
    /// Its target project.
    pub project: Slug,
    /// Its target group, if any.
    pub group: Option<Slug>,
    /// Whether evaluation stops with it.
    pub stop: bool,
}

/// What a [`RuleMatch`] holds.
#[verifier::ext_equal]
pub struct RuleMatchView {
    /// See [`RuleMatch::rule`].
    pub rule: Seq<char>,
    /// See [`RuleMatch::project`].
    pub project: Seq<char>,
    /// See [`RuleMatch::group`].
    pub group: Option<Seq<char>>,
    /// See [`RuleMatch::stop`].
    pub stop: bool,
}

impl View for RuleMatch {
    type V = RuleMatchView;

    open spec fn view(&self) -> RuleMatchView {
        RuleMatchView {
            rule: self.rule.deep_view(),
            project: self.project.deep_view(),
            group: self.group.deep_view(),
            stop: self.stop,
        }
    }
}

impl DeepView for RuleMatch {
    type V = RuleMatchView;

    open spec fn deep_view(&self) -> RuleMatchView {
        self.view()
    }
}

/// The rules that match a window.
#[derive(Debug, PartialEq)]
pub struct RuleReport {
    /// The window's address.
    pub address: String,
    /// Its class.
    pub class: String,
    /// Its title.
    pub title: String,
    /// Its executable, when known.
    pub executable: Option<String>,
    /// The matching rules, in evaluation order.
    pub matches: Vec<RuleMatch>,
}

/// What a [`RuleReport`] holds.
#[verifier::ext_equal]
pub struct RuleReportView {
    /// See [`RuleReport::address`].
    pub address: Seq<char>,
    /// See [`RuleReport::class`].
    pub class: Seq<char>,
    /// See [`RuleReport::title`].
    pub title: Seq<char>,
    /// See [`RuleReport::executable`].
    pub executable: Option<Seq<char>>,
    /// See [`RuleReport::matches`].
    pub matches: Seq<RuleMatchView>,
}

impl View for RuleReport {
    type V = RuleReportView;

    open spec fn view(&self) -> RuleReportView {
        RuleReportView {
            address: self.address.deep_view(),
            class: self.class.deep_view(),
            title: self.title.deep_view(),
            executable: self.executable.deep_view(),
            matches: self.matches.deep_view(),
        }
    }
}

impl DeepView for RuleReport {
    type V = RuleReportView;

    open spec fn deep_view(&self) -> RuleReportView {
        self.view()
    }
}

/// Why a request failed.
#[derive(Debug, PartialEq)]
pub struct ErrorBody {
    /// The kind of failure.
    pub code: ErrorCode,
    /// What went wrong.
    pub message: String,
    /// Slugs that the request may have meant.
    pub candidates: Option<Vec<String>>,
}

/// What a [`ErrorBody`] holds.
#[verifier::ext_equal]
pub struct ErrorBodyView {
    /// See [`ErrorBody::code`].
    pub code: ErrorCode,
    /// See [`ErrorBody::message`].
    pub message: Seq<char>,
    /// See [`ErrorBody::candidates`].
    pub candidates: Option<Seq<Seq<char>>>,
}

impl View for ErrorBody {
    type V = ErrorBodyView;

    open spec fn view(&self) -> ErrorBodyView {
        ErrorBodyView {
            code: self.code,
            message: self.message.deep_view(),
            candidates: self.candidates.deep_view(),
        }
    }
}

impl DeepView for ErrorBody {
    type V = ErrorBodyView;

    open spec fn deep_view(&self) -> ErrorBodyView {
        self.view()
    }
}

/// What was done to a group.
#[derive(Debug, Clone, Copy, PartialEq, Eq, Structural)]
pub enum GroupOperation {
    /// It was created.
    Created,
    /// A window was added to it.
    Added,
    /// A window was taken out of it.
    Removed,
    /// Its windows were parked.
    Hidden,
    /// Its windows were brought back.
    Shown,
    /// It was focused.
    Focused,
    /// It was moved to another project.
    Moved,
}

/// The name of an operation on the wire.
pub open spec fn operation_text(operation: GroupOperation) -> Seq<char> {
    match operation {
        GroupOperation::Created => "created"@,
        GroupOperation::Added => "added"@,
        GroupOperation::Removed => "removed"@,
        GroupOperation::Hidden => "hidden"@,
        GroupOperation::Shown => "shown"@,
        GroupOperation::Focused => "focused"@,
        GroupOperation::Moved => "moved"@,
    }
}

impl GroupOperation {
    /// The name of the operation on the wire.
    pub fn text(self) -> (r: &'static str)
        ensures
            r@ == operation_text(self),
    {
        match self {
            GroupOperation::Created => "created",
            GroupOperation::Added => "added",
            GroupOperation::Removed => "removed",
            GroupOperation::Hidden => "hidden",
            GroupOperation::Shown => "shown",
            GroupOperation::Focused => "focused",
            GroupOperation::Moved => "moved",
        }
    }
}

/// What a search can find.
#[derive(Debug, Clone, Copy, PartialEq, Eq, Structural)]
pub enum HitKind {
    /// A project, known by its slug.
    Project,
    /// A window, known by its address.
    Window,
}

/// One thing that a search found.
#[derive(Debug)]
pub struct Hit {
    /// What it is.
    pub kind: HitKind,
    /// Its slug or address.
    pub key: String,
    /// How it is shown: a project's name or a window's title.
    pub label: String,
    /// How well it fits.
    pub score: u32,
}

/// What a [`Hit`] holds.
#[verifier::ext_equal]
pub struct HitView {
    /// See [`Hit::kind`].
    pub kind: HitKind,
    /// See [`Hit::key`].
    pub key: Seq<char>,
    /// See [`Hit::label`].
    pub label: Seq<char>,
    /// See [`Hit::score`].
    pub score: u32,
}

impl View for Hit {
    type V = HitView;

    open spec fn view(&self) -> HitView {
        HitView { kind: self.kind, key: self.key@, label: self.label@, score: self.score }
    }
}

impl Clone for Hit {
    fn clone(&self) -> (r: Self)
        ensures
            r@ == self@,
    {
        Hit {
            kind: self.kind,
            key: self.key.clone(),
            label: self.label.clone(),
            score: self.score,
        }
    }
}

impl DeepView for Hit {
    type V = HitView;

    open spec fn deep_view(&self) -> HitView {
        self.view()
    }
}

/// What a request is answered with.
#[derive(Debug)]
pub enum Reply {
    /// To `daemon.status`.
    Status(DaemonStatus),
    /// To `state.snapshot`.
    Snapshot(Snapshot),
    /// To a request about one project.
    Project(ProjectSummary),
    /// To `project.list`.
    Projects(Vec<ProjectSummary>),
    /// To `project.delete`: the slug that was deleted.
    Deleted(Slug),
    /// To `window.assign`.
    Assigned {
        /// The window.
        address: String,
        /// The project it was assigned to.
        project: Slug,
    },
    /// To `rules.test`.
    Rules(RuleReport),
    /// To `config.reload`.
    Reloaded {
        /// How many rules are active.
        rules: usize,
    },
    /// To `subscribe`: the topics.
    Subscribed(Vec<String>),
    /// To `project.restore` as a dry run: the plan.
    Plan(RestorePlan),
    /// To `project.restore`: the plan that is being carried out.
    Started(RestorePlan),
    /// To `project.export`: what the project's file holds.
    Exported(ProjectFile),
    /// To `project.save`.
    Saved {
        /// The project that was saved.
        project: Slug,
        /// How many slots it has.
        slots: usize,
    },
    /// To a request about a group.
    Group {
        /// What was done.
        operation: GroupOperation,
        /// The project that the group belongs to.
        project: Slug,
        /// The group.
        group: Slug,
        /// How many windows were concerned.
        windows: usize,
    },
    /// To `search`: what was found, best first.
    Found(Vec<Hit>),
    /// To `project.get`: the full definition.
    Details(Project),
    /// To `project.capture`: the slots that saving would make of the windows.
    Preview {
        /// The project.
        project: Slug,
        /// The slots.
        apps: Vec<AppSlot>,
    },
    /// To `project.close`.
    Closed {
        /// The project whose windows are asked to close.
        project: Slug,
        /// How many they are.
        windows: usize,
    },
    /// To `project.reorder`.
    Reordered {
        /// How many projects have a new position.
        projects: usize,
    },
    /// To `slot.update`.
    SlotUpdated {
        /// The project.
        project: Slug,
        /// The slot's id.
        slot_id: String,
    },
}

/// What a [`Reply`] holds.
#[verifier::ext_equal]
#[allow(inconsistent_fields)]
pub enum ReplyView {
    /// See [`Reply::Status`].
    Status(DaemonStatusView),
    /// See [`Reply::Snapshot`].
    Snapshot(SnapshotView),
    /// See [`Reply::Project`].
    Project(ProjectSummaryView),
    /// See [`Reply::Projects`].
    Projects(Seq<ProjectSummaryView>),
    /// See [`Reply::Deleted`].
    Deleted(Seq<char>),
    /// See [`Reply::Assigned`].
    Assigned {
        /// The window.
        address: Seq<char>,
        /// The project it was assigned to.
        project: Seq<char>,
    },
    /// See [`Reply::Rules`].
    Rules(RuleReportView),
    /// See [`Reply::Reloaded`].
    Reloaded {
        /// How many rules are active.
        rules: usize,
    },
    /// See [`Reply::Subscribed`].
    Subscribed(Seq<Seq<char>>),
    /// See [`Reply::Plan`].
    Plan(RestorePlanView),
    /// See [`Reply::Started`].
    Started(RestorePlanView),
    /// See [`Reply::Exported`].
    Exported {
        /// Schema version.
        version: u32,
        /// The project.
        project: ProjectView,
    },
    /// See [`Reply::Saved`].
    Saved {
        /// The project that was saved.
        project: Seq<char>,
        /// How many slots it has.
        slots: usize,
    },
    /// See [`Reply::Group`].
    Group {
        /// What was done.
        operation: GroupOperation,
        /// The project that the group belongs to.
        project: Seq<char>,
        /// The group.
        group: Seq<char>,
        /// How many windows were concerned.
        windows: usize,
    },
    /// See [`Reply::Found`].
    Found(Seq<HitView>),
    /// See [`Reply::Details`].
    Details(ProjectView),
    /// See [`Reply::Preview`].
    Preview {
        /// The project.
        project: Seq<char>,
        /// The slots.
        apps: Seq<AppSlotView>,
    },
    /// See [`Reply::Closed`].
    Closed {
        /// The project whose windows are asked to close.
        project: Seq<char>,
        /// How many they are.
        windows: usize,
    },
    /// See [`Reply::Reordered`].
    Reordered {
        /// How many projects have a new position.
        projects: usize,
    },
    /// See [`Reply::SlotUpdated`].
    SlotUpdated {
        /// The project.
        project: Seq<char>,
        /// The slot's id.
        slot_id: Seq<char>,
    },
}

impl View for Reply {
    type V = ReplyView;

    open spec fn view(&self) -> ReplyView {
        match self {
            Reply::Status(x0) => ReplyView::Status(x0.deep_view()),
            Reply::Snapshot(x0) => ReplyView::Snapshot(x0.deep_view()),
            Reply::Project(x0) => ReplyView::Project(x0.deep_view()),
            Reply::Projects(x0) => ReplyView::Projects(x0.deep_view()),
            Reply::Deleted(x0) => ReplyView::Deleted(x0.deep_view()),
            Reply::Assigned { address, project } => ReplyView::Assigned {
                address: address.deep_view(),
                project: project.deep_view(),
            },
            Reply::Rules(x0) => ReplyView::Rules(x0.deep_view()),
            Reply::Reloaded { rules } => ReplyView::Reloaded {
                rules: *rules,
            },
            Reply::Subscribed(x0) => ReplyView::Subscribed(x0.deep_view()),
            Reply::Plan(x0) => ReplyView::Plan(x0.deep_view()),
            Reply::Started(x0) => ReplyView::Started(x0.deep_view()),
            Reply::Exported(file) => ReplyView::Exported {
                version: file.version,
                project: file.project@,
            },
            Reply::Saved { project, slots } => ReplyView::Saved {
                project: project.deep_view(),
                slots: *slots,
            },
            Reply::Group { operation, project, group, windows } => ReplyView::Group {
                operation: *operation,
                project: project.deep_view(),
                group: group.deep_view(),
                windows: *windows,
            },
            Reply::Found(hits) => ReplyView::Found(hits.deep_view()),
            Reply::Details(project) => ReplyView::Details(project@),
            Reply::Preview { project, apps } => ReplyView::Preview {
                project: project.deep_view(),
                apps: apps.deep_view(),
            },
            Reply::Closed { project, windows } => ReplyView::Closed {
                project: project.deep_view(),
                windows: *windows,
            },
            Reply::Reordered { projects } => ReplyView::Reordered { projects: *projects },
            Reply::SlotUpdated { project, slot_id } => ReplyView::SlotUpdated {
                project: project.deep_view(),
                slot_id: slot_id.deep_view(),
            },
        }
    }
}

impl DeepView for Reply {
    type V = ReplyView;

    open spec fn deep_view(&self) -> ReplyView {
        self.view()
    }
}

/// A pushed event. The sequence number shows gaps.
#[derive(Debug, PartialEq)]
pub struct EventEnvelope {
    /// Protocol major.
    pub v: u32,
    /// Sequence number.
    pub seq: u64,
    /// The event.
    pub data: DomainEvent,
}

/// What a [`EventEnvelope`] holds.
#[verifier::ext_equal]
pub struct EventEnvelopeView {
    /// See [`EventEnvelope::v`].
    pub v: u32,
    /// See [`EventEnvelope::seq`].
    pub seq: u64,
    /// See [`EventEnvelope::data`].
    pub data: DomainEventView,
}

impl View for EventEnvelope {
    type V = EventEnvelopeView;

    open spec fn view(&self) -> EventEnvelopeView {
        EventEnvelopeView {
            v: self.v,
            seq: self.seq,
            data: self.data.deep_view(),
        }
    }
}

impl DeepView for EventEnvelope {
    type V = EventEnvelopeView;

    open spec fn deep_view(&self) -> EventEnvelopeView {
        self.view()
    }
}

/// A request with its protocol major and the id that its answer echoes.
#[derive(Debug)]
pub struct RequestEnvelope {
    /// Protocol major.
    pub v: u32,
    /// Id to echo.
    pub id: u64,
    /// The request.
    pub request: Request,
}

impl ErrorBody {
    /// A failure without candidates.
    pub fn new(code: ErrorCode, message: String) -> (r: Self)
        ensures
            r@ == (ErrorBodyView { code, message: message@, candidates: None }),
    {
        ErrorBody { code, message, candidates: None }
    }
}

/// No two error codes read the same on the wire.
pub proof fn law_codes_are_told_apart(a: ErrorCode, b: ErrorCode)
    ensures
        code_text(a) == code_text(b) ==> a == b,
{
    reveal_strlit("BAD_REQUEST");
    reveal_strlit("UNKNOWN_METHOD");
    reveal_strlit("UNSUPPORTED_VERSION");
    reveal_strlit("NOT_FOUND");
    reveal_strlit("CONFLICT");
    reveal_strlit("AMBIGUOUS");
    reveal_strlit("HYPRLAND");
    reveal_strlit("INTERNAL");
    let s = code_text(a);
    let t = code_text(b);
    assert(s.len() != t.len() || s[0] != t[0] || a == b);
}

} // verus!
