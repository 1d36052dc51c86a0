//! The Hyprland event stream (`.socket2.sock`): line parsing and the pace of
//! reconnecting.
//!
//! Wire format: `EVENT>>DATA\n`, with comma-separated fields in `DATA`.
//! Fields that can contain commas (titles, commands) are always last, so
//! parsing cuts `DATA` into known field counts. Where Hyprland offers `v2`
//! variants we consume those and ignore the legacy duplicates.

use vstd::prelude::*;

use crate::hypr::model::WindowAddress;
use crate::hypr::model::canonical;
use crate::numbers::parse_i64;
use crate::numbers::i64_value;
use crate::pieces::{split_at_most, trim};
use crate::pieces::{fields, trimmed};
use crate::text::{is_empty, same, split_once};
use crate::text::{cut, find_from, lemma_find_from};

verus! {

/// A parsed Hyprland event.
///
/// Only events the daemon reacts to are typed; everything else surfaces as
/// [`HyprEvent::Unknown`] so new Hyprland releases never break parsing.
#[derive(Debug, PartialEq)]
#[allow(inconsistent_fields)]
pub enum HyprEvent {
    /// A window was mapped. Carries no pid/geometry — callers should follow up
    /// with a `clients` fetch.
    OpenWindow {
        /// The new window.
        address: WindowAddress,
        /// Workspace name it opened on.
        workspace: String,
        /// Window class.
        class: String,
        /// Window title (may contain commas; parsed last).
        title: String,
    },
    /// A window was unmapped.
    CloseWindow {
        /// The closed window.
        address: WindowAddress,
    },
    /// A window moved to another workspace (`movewindowv2`).
    MoveWindow {
        /// The moved window.
        address: WindowAddress,
        /// Destination workspace id.
        workspace_id: i64,
        /// Destination workspace name.
        workspace: String,
    },
    /// A window's title changed (`windowtitlev2`).
    WindowTitle {
        /// The window.
        address: WindowAddress,
        /// The new title.
        title: String,
    },
    /// Keyboard focus moved to a window (`activewindowv2`); `None` when focus
    /// left all windows.
    ActiveWindow {
        /// Focused window, if any.
        address: Option<WindowAddress>,
    },
    /// A window's floating state changed.
    ChangeFloatingMode {
        /// The window.
        address: WindowAddress,
        /// Whether it now floats.
        floating: bool,
    },
    /// A window's pin state changed.
    Pin {
        /// The window.
        address: WindowAddress,
        /// Whether it is now pinned.
        pinned: bool,
    },
    /// The focused workspace changed (`workspacev2`).
    Workspace {
        /// Workspace id.
        id: i64,
        /// Workspace name.
        name: String,
    },
    /// A workspace was created (`createworkspacev2`).
    CreateWorkspace {
        /// Workspace id.
        id: i64,
        /// Workspace name.
        name: String,
    },
    /// A workspace was destroyed (`destroyworkspacev2`).
    DestroyWorkspace {
        /// Workspace id.
        id: i64,
        /// Workspace name.
        name: String,
    },
    /// A workspace moved to another monitor (`moveworkspacev2`).
    MoveWorkspace {
        /// Workspace id.
        id: i64,
        /// Workspace name.
        name: String,
        /// Destination output name.
        monitor: String,
    },
    /// A workspace was renamed.
    RenameWorkspace {
        /// Workspace id.
        id: i64,
        /// The new name.
        name: String,
    },
    /// Monitor focus changed (`focusedmonv2`).
    FocusedMonitor {
        /// Output name.
        monitor: String,
        /// Active workspace id on it.
        workspace_id: i64,
    },
    /// A monitor was connected (`monitoraddedv2`).
    MonitorAdded {
        /// Monitor id.
        id: i64,
        /// Output name.
        name: String,
    },
    /// A monitor was disconnected (`monitorremovedv2`).
    MonitorRemoved {
        /// Monitor id.
        id: i64,
        /// Output name.
        name: String,
    },
    /// The focused window changed fullscreen state. The event does not say
    /// which window; callers consult their focus state.
    Fullscreen {
        /// Whether a window is now fullscreen.
        active: bool,
    },
    /// Hyprland reloaded its configuration.
    ConfigReloaded,
    /// A window requested attention.
    Urgent {
        /// The window.
        address: WindowAddress,
    },
    /// Any event we do not model; kept for logging and forward compatibility.
    Unknown {
        /// Event name before `>>`.
        name: String,
        /// Raw payload after `>>`.
        data: String,
    },
}

/// What a [`HyprEvent`] holds.
#[verifier::ext_equal]
#[allow(inconsistent_fields)]
pub enum HyprEventView {
    /// See [`HyprEvent::OpenWindow`].
    OpenWindow {
        /// The new window.
        address: Seq<char>,
        /// Workspace name it opened on.
        workspace: Seq<char>,
        /// Window class.
        class: Seq<char>,
        /// Window title (may contain commas; parsed last).
        title: Seq<char>,
    },
    /// See [`HyprEvent::CloseWindow`].
    CloseWindow {
        /// The closed window.
        address: Seq<char>,
    },
    /// See [`HyprEvent::MoveWindow`].
    MoveWindow {
        /// The moved window.
        address: Seq<char>,
        /// Destination workspace id.
        workspace_id: i64,
        /// Destination workspace name.
        workspace: Seq<char>,
    },
    /// See [`HyprEvent::WindowTitle`].
    WindowTitle {
        /// The window.
        address: Seq<char>,
        /// The new title.
        title: Seq<char>,
    },
    /// See [`HyprEvent::ActiveWindow`].
    ActiveWindow {
        /// Focused window, if any.
        address: Option<Seq<char>>,
    },
    /// See [`HyprEvent::ChangeFloatingMode`].
    ChangeFloatingMode {
        /// The window.
        address: Seq<char>,
        /// Whether it now floats.
        floating: bool,
    },
    /// See [`HyprEvent::Pin`].
    Pin {
        /// The window.
        address: Seq<char>,
        /// Whether it is now pinned.
        pinned: bool,
    },
    /// See [`HyprEvent::Workspace`].
    Workspace {
        /// Workspace id.
        id: i64,
        /// Workspace name.
        name: Seq<char>,
    },
    /// See [`HyprEvent::CreateWorkspace`].
    CreateWorkspace {
        /// Workspace id.
        id: i64,
        /// Workspace name.
        name: Seq<char>,
    },
    /// See [`HyprEvent::DestroyWorkspace`].
    DestroyWorkspace {
        /// Workspace id.
        id: i64,
        /// Workspace name.
        name: Seq<char>,
    },
    /// See [`HyprEvent::MoveWorkspace`].
    MoveWorkspace {
        /// Workspace id.
        id: i64,
        /// Workspace name.
        name: Seq<char>,
        /// Destination output name.
        monitor: Seq<char>,
    },
    /// See [`HyprEvent::RenameWorkspace`].
    RenameWorkspace {
        /// Workspace id.
        id: i64,
        /// The new name.
        name: Seq<char>,
    },
    /// See [`HyprEvent::FocusedMonitor`].
    FocusedMonitor {
        /// Output name.
        monitor: Seq<char>,
        /// Active workspace id on it.
        workspace_id: i64,
    },
    /// See [`HyprEvent::MonitorAdded`].
    MonitorAdded {
        /// Monitor id.
        id: i64,
        /// Output name.
        name: Seq<char>,
    },
    /// See [`HyprEvent::MonitorRemoved`].
    MonitorRemoved {
        /// Monitor id.
        id: i64,
        /// Output name.
        name: Seq<char>,
    },
    /// See [`HyprEvent::Fullscreen`].
    Fullscreen {
        /// Whether a window is now fullscreen.
        active: bool,
    },
    /// See [`HyprEvent::ConfigReloaded`].
    ConfigReloaded,
    /// See [`HyprEvent::Urgent`].
    Urgent {
        /// The window.
        address: Seq<char>,
    },
    /// See [`HyprEvent::Unknown`].
    Unknown {
        /// Event name before `>>`.
        name: Seq<char>,
        /// Raw payload after `>>`.
        data: Seq<char>,
    },
}

impl View for HyprEvent {
    type V = HyprEventView;

    open spec fn view(&self) -> HyprEventView {
        match self {
            HyprEvent::OpenWindow { address, workspace, class, title } => HyprEventView::OpenWindow {
                address: address.deep_view(),
                workspace: workspace.deep_view(),
                class: class.deep_view(),
                title: title.deep_view(),
            },
            HyprEvent::CloseWindow { address } => HyprEventView::CloseWindow {
                address: address.deep_view(),
            },
            HyprEvent::MoveWindow { address, workspace_id, workspace } => HyprEventView::MoveWindow {
                address: address.deep_view(),
                workspace_id: *workspace_id,
                workspace: workspace.deep_view(),
            },
            HyprEvent::WindowTitle { address, title } => HyprEventView::WindowTitle {
                address: address.deep_view(),
                title: title.deep_view(),
            },
            HyprEvent::ActiveWindow { address } => HyprEventView::ActiveWindow {
                address: address.deep_view(),
            },
            HyprEvent::ChangeFloatingMode { address, floating } => HyprEventView::ChangeFloatingMode {
                address: address.deep_view(),
                floating: *floating,
            },
            HyprEvent::Pin { address, pinned } => HyprEventView::Pin {
                address: address.deep_view(),
                pinned: *pinned,
            },
            HyprEvent::Workspace { id, name } => HyprEventView::Workspace {
                id: *id,
                name: name.deep_view(),
            },
            HyprEvent::CreateWorkspace { id, name } => HyprEventView::CreateWorkspace {
                id: *id,
                name: name.deep_view(),
            },
            HyprEvent::DestroyWorkspace { id, name } => HyprEventView::DestroyWorkspace {
                id: *id,
                name: name.deep_view(),
            },
            HyprEvent::MoveWorkspace { id, name, monitor } => HyprEventView::MoveWorkspace {
                id: *id,
                name: name.deep_view(),
                monitor: monitor.deep_view(),
            },
            HyprEvent::RenameWorkspace { id, name } => HyprEventView::RenameWorkspace {
                id: *id,
                name: name.deep_view(),
            },
            HyprEvent::FocusedMonitor { monitor, workspace_id } => HyprEventView::FocusedMonitor {
                monitor: monitor.deep_view(),
                workspace_id: *workspace_id,
            },
            HyprEvent::MonitorAdded { id, name } => HyprEventView::MonitorAdded {
                id: *id,
                name: name.deep_view(),
            },
            HyprEvent::MonitorRemoved { id, name } => HyprEventView::MonitorRemoved {
                id: *id,
                name: name.deep_view(),
            },
            HyprEvent::Fullscreen { active } => HyprEventView::Fullscreen {
                active: *active,
            },
            HyprEvent::ConfigReloaded => HyprEventView::ConfigReloaded,
            HyprEvent::Urgent { address } => HyprEventView::Urgent {
                address: address.deep_view(),
            },
            HyprEvent::Unknown { name, data } => HyprEventView::Unknown {
                name: name.deep_view(),
                data: data.deep_view(),
            },
        }
    }
}

impl DeepView for HyprEvent {
    type V = HyprEventView;

    open spec fn deep_view(&self) -> HyprEventView {
        self.view()
    }
}

/// The event of a name and its payload, if it is recognized and well-formed.
pub open spec fn event_of(name: Seq<char>, data: Seq<char>) -> Option<HyprEventView> {
    if name == "openwindow"@ {
        let f = fields(data, ","@, 4);
        if f.len() >= 4 {
            Some(HyprEventView::OpenWindow { address: canonical(f[0]), workspace: f[1], class: f[2], title: f[3] })
        } else {
            None
        }
    } else if name == "closewindow"@ {
        Some(HyprEventView::CloseWindow { address: canonical(data) })
    } else if name == "movewindowv2"@ {
        let f = fields(data, ","@, 3);
        if f.len() >= 3 {
            match i64_value(f[1]) {
                Some(workspace_id) => Some(HyprEventView::MoveWindow { address: canonical(f[0]), workspace_id, workspace: f[2] }),
                None => None,
            }
        } else {
            None
        }
    } else if name == "windowtitlev2"@ {
        match cut(data, ","@) {
            Some((first, second)) => Some(HyprEventView::WindowTitle { address: canonical(first), title: second }),
            None => None,
        }
    } else if name == "activewindowv2"@ {
        Some(
            HyprEventView::ActiveWindow {
                address: if data.len() > 0 && data != ","@ {
                    Some(canonical(data))
                } else {
                    None
                },
            },
        )
    } else if name == "changefloatingmode"@ {
        match cut(data, ","@) {
            Some((first, second)) => Some(HyprEventView::ChangeFloatingMode { address: canonical(first), floating: trimmed(second) == "1"@ }),
            None => None,
        }
    } else if name == "pin"@ {
        match cut(data, ","@) {
            Some((first, second)) => Some(HyprEventView::Pin { address: canonical(first), pinned: trimmed(second) == "1"@ }),
            None => None,
        }
    } else if name == "workspacev2"@ {
        match cut(data, ","@) {
            Some((first, second)) => match i64_value(first) {
                Some(id) => Some(HyprEventView::Workspace { id, name: second }),
                None => None,
            },
            None => None,
        }
    } else if name == "createworkspacev2"@ {
        match cut(data, ","@) {
            Some((first, second)) => match i64_value(first) {
                Some(id) => Some(HyprEventView::CreateWorkspace { id, name: second }),
                None => None,
            },
            None => None,
        }
    } else if name == "destroyworkspacev2"@ {
        match cut(data, ","@) {
            Some((first, second)) => match i64_value(first) {
                Some(id) => Some(HyprEventView::DestroyWorkspace { id, name: second }),
                None => None,
            },
            None => None,
        }
    } else if name == "moveworkspacev2"@ {
        let f = fields(data, ","@, 3);
        if f.len() >= 3 {
            match i64_value(f[0]) {
                Some(id) => Some(HyprEventView::MoveWorkspace { id, name: f[1], monitor: f[2] }),
                None => None,
            }
        } else {
            None
        }
    } else if name == "renameworkspace"@ {
        match cut(data, ","@) {
            Some((first, second)) => match i64_value(first) {
                Some(id) => Some(HyprEventView::RenameWorkspace { id, name: second }),
                None => None,
            },
            None => None,
        }
    } else if name == "focusedmonv2"@ {
        match cut(data, ","@) {
            Some((first, second)) => match i64_value(second) {
                Some(workspace_id) => Some(HyprEventView::FocusedMonitor { monitor: first, workspace_id }),
                None => None,
            },
            None => None,
        }
    } else if name == "monitoraddedv2"@ {
        let f = fields(data, ","@, 3);
        if f.len() >= 2 {
            match i64_value(f[0]) {
                Some(id) => Some(HyprEventView::MonitorAdded { id, name: f[1] }),
                None => None,
            }
        } else {
            None
        }
    } else if name == "monitorremovedv2"@ {
        let f = fields(data, ","@, 3);
        if f.len() >= 2 {
            match i64_value(f[0]) {
                Some(id) => Some(HyprEventView::MonitorRemoved { id, name: f[1] }),
                None => None,
            }
        } else {
            None
        }
    } else if name == "fullscreen"@ {
        Some(HyprEventView::Fullscreen { active: trimmed(data) == "1"@ })
    } else if name == "configreloaded"@ {
        Some(HyprEventView::ConfigReloaded)
    } else if name == "urgent"@ {
        Some(HyprEventView::Urgent { address: canonical(data) })
    } else {
        None
    }
}

/// What a line of the event stream says. Unrecognized and malformed lines say
/// something unknown.
pub open spec fn line_event(line: Seq<char>) -> HyprEventView {
    match cut(line, ">>"@) {
        Some((name, data)) => match event_of(name, data) {
            Some(event) => event,
            None => HyprEventView::Unknown { name, data },
        },
        None => HyprEventView::Unknown { name: line, data: seq![] },
    }
}

impl HyprEvent {
    /// Parse one line of the event stream. Never fails: unrecognized or
    /// malformed lines become [`HyprEvent::Unknown`].
    pub fn parse(line: &str) -> (r: Self)
        ensures
            r@ == line_event(line@),
    {
        match split_once(line, ">>") {
            Some((name, data)) => match Self::parse_parts(name.as_str(), data.as_str()) {
                Some(event) => event,
                None => HyprEvent::Unknown { name, data },
            },
            None => {
                let r = HyprEvent::Unknown { name: line.to_owned(), data: String::new() };
                proof {
                    assert(r@ =~= line_event(line@));
                }
                r
            },
        }
    }

    /// `Some` when the event is recognized and well-formed.
    fn parse_parts(name: &str, data: &str) -> (r: Option<Self>)
        ensures
            match r {
                Some(event) => event_of(name@, data@) == Some(event@),
                None => event_of(name@, data@) is None,
            },
    {
        proof {
            reveal_strlit(",");
        }
        if same(name, "openwindow") {
            let f = split_at_most(data, ",", 4);
            let ghost views = f.deep_view();
            if f.len() >= 4 {
                assert(views[0] == f@[0]@);
                assert(views[1] == f@[1]@);
                assert(views[2] == f@[2]@);
                assert(views[3] == f@[3]@);
                return Some(HyprEvent::OpenWindow { address: WindowAddress::new(f[0].as_str()), workspace: f[1].clone(), class: f[2].clone(), title: f[3].clone() });
            }
            return None;
        }
        if same(name, "closewindow") {
            return Some(HyprEvent::CloseWindow { address: WindowAddress::new(data) });
        }
        if same(name, "movewindowv2") {
            let f = split_at_most(data, ",", 3);
            let ghost views = f.deep_view();
            if f.len() >= 3 {
                assert(views[0] == f@[0]@);
                assert(views[1] == f@[1]@);
                assert(views[2] == f@[2]@);
                return match parse_i64(f[1].as_str()) {
                    Some(workspace_id) => Some(HyprEvent::MoveWindow { address: WindowAddress::new(f[0].as_str()), workspace_id, workspace: f[2].clone() }),
                    None => None,
                };
            }
            return None;
        }
        if same(name, "windowtitlev2") {
            return match split_once(data, ",") {
                Some((first, second)) => Some(HyprEvent::WindowTitle { address: WindowAddress::new(first.as_str()), title: second }),
                None => None,
            };
        }
        if same(name, "activewindowv2") {
            let address = if !is_empty(data) && !same(data, ",") {
                Some(WindowAddress::new(data))
            } else {
                None
            };
            return Some(HyprEvent::ActiveWindow { address });
        }
        if same(name, "changefloatingmode") {
            return match split_once(data, ",") {
                Some((first, second)) => Some(HyprEvent::ChangeFloatingMode { address: WindowAddress::new(first.as_str()), floating: same(trim(second.as_str()).as_str(), "1") }),
                None => None,
            };
        }
        if same(name, "pin") {
            return match split_once(data, ",") {
                Some((first, second)) => Some(HyprEvent::Pin { address: WindowAddress::new(first.as_str()), pinned: same(trim(second.as_str()).as_str(), "1") }),
                None => None,
            };
        }
        if same(name, "workspacev2") {
            return match split_once(data, ",") {
                Some((first, second)) => match parse_i64(first.as_str()) {
                    Some(id) => Some(HyprEvent::Workspace { id, name: second }),
                    None => None,
                },
                None => None,
            };
        }
        if same(name, "createworkspacev2") {
            return match split_once(data, ",") {
                Some((first, second)) => match parse_i64(first.as_str()) {
                    Some(id) => Some(HyprEvent::CreateWorkspace { id, name: second }),
                    None => None,
                },
                None => None,
            };
        }
        if same(name, "destroyworkspacev2") {
            return match split_once(data, ",") {
                Some((first, second)) => match parse_i64(first.as_str()) {
                    Some(id) => Some(HyprEvent::DestroyWorkspace { id, name: second }),
                    None => None,
                },
                None => None,
            };
        }
        if same(name, "moveworkspacev2") {
            let f = split_at_most(data, ",", 3);
            let ghost views = f.deep_view();
            if f.len() >= 3 {
                assert(views[0] == f@[0]@);
                assert(views[1] == f@[1]@);
                assert(views[2] == f@[2]@);
                return match parse_i64(f[0].as_str()) {
                    Some(id) => Some(HyprEvent::MoveWorkspace { id, name: f[1].clone(), monitor: f[2].clone() }),
                    None => None,
                };
            }
            return None;
        }
        if same(name, "renameworkspace") {
            return match split_once(data, ",") {
                Some((first, second)) => match parse_i64(first.as_str()) {
                    Some(id) => Some(HyprEvent::RenameWorkspace { id, name: second }),
                    None => None,
                },
                None => None,
            };
        }
        if same(name, "focusedmonv2") {
            return match split_once(data, ",") {
                Some((first, second)) => match parse_i64(second.as_str()) {
                    Some(workspace_id) => Some(HyprEvent::FocusedMonitor { monitor: first, workspace_id }),
                    None => None,
                },
                None => None,
            };
        }
        if same(name, "monitoraddedv2") {
            let f = split_at_most(data, ",", 3);
            let ghost views = f.deep_view();
            if f.len() >= 2 {
                assert(views[0] == f@[0]@);
                assert(views[1] == f@[1]@);
                return match parse_i64(f[0].as_str()) {
                    Some(id) => Some(HyprEvent::MonitorAdded { id, name: f[1].clone() }),
                    None => None,
                };
            }
            return None;
        }
        if same(name, "monitorremovedv2") {
            let f = split_at_most(data, ",", 3);
            let ghost views = f.deep_view();
            if f.len() >= 2 {
                assert(views[0] == f@[0]@);
                assert(views[1] == f@[1]@);
                return match parse_i64(f[0].as_str()) {
                    Some(id) => Some(HyprEvent::MonitorRemoved { id, name: f[1].clone() }),
                    None => None,
                };
            }
            return None;
        }
        if same(name, "fullscreen") {
            return Some(HyprEvent::Fullscreen { active: same(trim(data).as_str(), "1") });
        }
        if same(name, "configreloaded") {
            return Some(HyprEvent::ConfigReloaded);
        }
        if same(name, "urgent") {
            return Some(HyprEvent::Urgent { address: WindowAddress::new(data) });
        }
        None
    }
}

// ---- the pump -------------------------------------------------------------------

/// Items produced by the event pump.
#[derive(Debug, PartialEq)]
pub enum StreamItem {
    /// The event socket (re)connected. Callers should re-hydrate state.
    Connected,
    /// A parsed event.
    Event(HyprEvent),
    /// The event socket dropped; the pump will reconnect with backoff.
    Disconnected,
}

/// Two to the given power.
pub open spec fn power_of_two(n: nat) -> nat
    decreases n,
{
    if n == 0 {
        1
    } else {
        2 * power_of_two((n - 1) as nat)
    }
}

/// The reconnect delay in milliseconds: 250 doubled with each attempt, at most
/// 5000.
pub open spec fn delay_of(attempt: u32) -> nat {
    let exponent = if attempt < 16 {
        attempt as nat
    } else {
        16nat
    };
    let delay = 250 * power_of_two(exponent);
    if delay < 5000 {
        delay
    } else {
        5000
    }
}

/// Exponential reconnect backoff: 250 ms doubling to a 5 s cap.
pub fn backoff_delay(attempt: u32) -> (r: u64)
    ensures
        r == delay_of(attempt),
{
    let exponent: u32 = if attempt < 16 {
        attempt
    } else {
        16
    };
    let mut factor: u64 = 1;
    let mut i: u32 = 0;
    proof {
        reveal_with_fuel(power_of_two, 17);
    }
    while i < exponent
        invariant
            i <= exponent <= 16,
            factor == power_of_two(i as nat),
            factor <= 65536,
            power_of_two(16) == 65536,
        decreases exponent - i,
    {
        proof {
            lemma_power_monotone((i + 1) as nat, 16);
        }
        factor = factor * 2;
        i = i + 1;
    }
    let delay: u64 = 250 * factor;
    if delay < 5000 {
        delay
    } else {
        5000
    }
}

proof fn lemma_power_positive(n: nat)
    ensures
        power_of_two(n) >= 1,
    decreases n,
{
    if n > 0 {
        lemma_power_positive((n - 1) as nat);
    }
}

proof fn lemma_power_monotone(a: nat, b: nat)
    requires
        a <= b,
    ensures
        power_of_two(a) <= power_of_two(b),
    decreases b,
{
    if a < b {
        lemma_power_monotone(a, (b - 1) as nat);
        lemma_power_positive((b - 1) as nat);
    }
}

/// The delay never shrinks with the attempts, is never below 250 ms and never
/// above 5 s.
pub proof fn law_backoff_grows_and_caps(a: u32, b: u32)
    requires
        a <= b,
    ensures
        250 <= delay_of(a) <= delay_of(b) <= 5000,
{
    let x = if a < 16 {
        a as nat
    } else {
        16nat
    };
    let y = if b < 16 {
        b as nat
    } else {
        16nat
    };
    lemma_power_monotone(x, y);
    lemma_power_positive(x);
}

/// How often the event socket has failed in a row.
#[derive(Debug)]
pub struct Backoff {
    /// Attempts since the last connection.
    pub attempt: u32,
}

impl Backoff {
    /// Nothing has failed yet.
    pub fn new() -> (r: Self)
        ensures
            r.attempt == 0,
    {
        Backoff { attempt: 0 }
    }

    /// The socket connected.
    pub fn connected(&mut self)
        ensures
            final(self).attempt == 0,
    {
        self.attempt = 0;
    }

    /// The socket failed or dropped: the delay before the next attempt, in
    /// milliseconds.
    pub fn retry(&mut self) -> (r: u64)
        ensures
            final(self).attempt == (if old(self).attempt < u32::MAX {
                (old(self).attempt + 1) as u32
            } else {
                u32::MAX
            }),
            r == delay_of(final(self).attempt),
    {
        if self.attempt < u32::MAX {
            self.attempt = self.attempt + 1;
        }
        backoff_delay(self.attempt)
    }
}

// ---- laws ---------------------------------------------------------------------------------

/// Whether a text holds no comma.
pub open spec fn has_no_comma(s: Seq<char>) -> bool {
    forall|i: int| 0 <= i < s.len() ==> #[trigger] s[i] != ','
}

proof fn lemma_cut_at_comma(first: Seq<char>, rest: Seq<char>)
    requires
        has_no_comma(first),
    ensures
        cut(first + ","@ + rest, ","@) == Some((first, rest)),
        find_from(first + ","@ + rest, ","@, 0) == Some(first.len() as int),
{
    reveal_strlit(",");
    let s = first + ","@ + rest;
    let at = first.len() as int;
    lemma_find_from(s, ","@, 0);
    assert(s.subrange(at, at + 1) =~= ","@);
    match find_from(s, ","@, 0) {
        Some(i) => {
            if i < at {
                assert(s.subrange(i, i + 1)[0] == first[i]);
            }
            assert(i == at);
            assert(s.take(i) =~= first);
            assert(s.skip(i + 1) =~= rest);
        },
        None => {},
    }
}

proof fn lemma_fields_at_comma(first: Seq<char>, rest: Seq<char>, limit: nat)
    requires
        has_no_comma(first),
        limit > 1,
    ensures
        fields(first + ","@ + rest, ","@, limit) == seq![first] + fields(
            rest,
            ","@,
            (limit - 1) as nat,
        ),
{
    reveal_strlit(",");
    lemma_cut_at_comma(first, rest);
    let s = first + ","@ + rest;
    assert(s.take(first.len() as int) =~= first);
    assert(s.skip(first.len() as int + 1) =~= rest);
}

proof fn lemma_line(name: Seq<char>, data: Seq<char>)
    requires
        forall|i: int| 0 <= i < name.len() ==> #[trigger] name[i] != '>',
    ensures
        cut(name + ">>"@ + data, ">>"@) == Some((name, data)),
{
    reveal_strlit(">>");
    let s = name + ">>"@ + data;
    let at = name.len() as int;
    lemma_find_from(s, ">>"@, 0);
    assert(s.subrange(at, at + 2) =~= ">>"@);
    match find_from(s, ">>"@, 0) {
        Some(i) => {
            if i < at {
                assert(s.subrange(i, i + 2)[0] == name[i]);
            }
            assert(i == at);
            assert(s.take(i) =~= name);
            assert(s.skip(i + 2) =~= data);
        },
        None => {},
    }
}

/// A line names its event before the arrow and tells of it behind; an event
/// that is not known, or not well-formed, is kept as it is.
pub proof fn law_lines_name_their_events(name: Seq<char>, data: Seq<char>)
    requires
        forall|i: int| 0 <= i < name.len() ==> #[trigger] name[i] != '>',
    ensures
        event_of(name, data) is Some ==> line_event(name + ">>"@ + data) == event_of(name, data)->0,
        event_of(name, data) is None ==> line_event(name + ">>"@ + data) == (
        HyprEventView::Unknown { name, data }),
{
    lemma_line(name, data);
}

/// The lengths and first letters of the names of events, which tell them apart.
proof fn lemma_event_names()
    ensures
        "openwindow"@.len() == 10,
        "openwindow"@[0] == 'o',
        "closewindow"@.len() == 11,
        "closewindow"@[0] == 'c',
        "movewindowv2"@.len() == 12,
        "movewindowv2"@[0] == 'm',
        "windowtitlev2"@.len() == 13,
        "windowtitlev2"@[0] == 'w',
        "activewindowv2"@.len() == 14,
        "activewindowv2"@[0] == 'a',
        "changefloatingmode"@.len() == 18,
        "changefloatingmode"@[0] == 'c',
        "pin"@.len() == 3,
        "pin"@[0] == 'p',
        "workspacev2"@.len() == 11,
        "workspacev2"@[0] == 'w',
        "createworkspacev2"@.len() == 17,
        "createworkspacev2"@[0] == 'c',
        "destroyworkspacev2"@.len() == 18,
        "destroyworkspacev2"@[0] == 'd',
        "moveworkspacev2"@.len() == 15,
        "moveworkspacev2"@[0] == 'm',
        "renameworkspace"@.len() == 15,
        "renameworkspace"@[0] == 'r',
        "focusedmonv2"@.len() == 12,
        "focusedmonv2"@[0] == 'f',
        "monitoraddedv2"@.len() == 14,
        "monitoraddedv2"@[0] == 'm',
        "monitorremovedv2"@.len() == 16,
        "monitorremovedv2"@[0] == 'm',
        "fullscreen"@.len() == 10,
        "fullscreen"@[0] == 'f',
        "configreloaded"@.len() == 14,
        "configreloaded"@[0] == 'c',
        "urgent"@.len() == 6,
        "urgent"@[0] == 'u',
{
    reveal_strlit("openwindow");
    reveal_strlit("closewindow");
    reveal_strlit("movewindowv2");
    reveal_strlit("windowtitlev2");
    reveal_strlit("activewindowv2");
    reveal_strlit("changefloatingmode");
    reveal_strlit("pin");
    reveal_strlit("workspacev2");
    reveal_strlit("createworkspacev2");
    reveal_strlit("destroyworkspacev2");
    reveal_strlit("moveworkspacev2");
    reveal_strlit("renameworkspace");
    reveal_strlit("focusedmonv2");
    reveal_strlit("monitoraddedv2");
    reveal_strlit("monitorremovedv2");
    reveal_strlit("fullscreen");
    reveal_strlit("configreloaded");
    reveal_strlit("urgent");
}

/// The lines about windows: one that opens tells its address, its workspace,
/// its class and its title, which may hold commas; one that closes, its
/// address; one that moves, its address and the workspace; one with a new
/// title, the title; then the focus, floating, pinning and urgency.
#[verifier::rlimit(40)]
pub proof fn law_window_lines_tell_of_windows(
    address: Seq<char>,
    workspace: Seq<char>,
    class: Seq<char>,
    title: Seq<char>,
    number: Seq<char>,
)
    requires
        has_no_comma(address),
        has_no_comma(workspace),
        has_no_comma(class),
        has_no_comma(number),
    ensures
        event_of("openwindow"@, address + ","@ + (workspace + ","@ + (class + ","@ + title)))
            == Some(
            HyprEventView::OpenWindow { address: canonical(address), workspace, class, title },
        ),
        event_of("closewindow"@, address) == Some(
            HyprEventView::CloseWindow { address: canonical(address) },
        ),
        i64_value(number) matches Some(id) ==> event_of(
            "movewindowv2"@,
            address + ","@ + (number + ","@ + title),
        ) == Some(
            HyprEventView::MoveWindow {
                address: canonical(address),
                workspace_id: id,
                workspace: title,
            },
        ),
        event_of("windowtitlev2"@, address + ","@ + title) == Some(
            HyprEventView::WindowTitle { address: canonical(address), title },
        ),
        address.len() > 0 ==> event_of("activewindowv2"@, address) == Some(
            HyprEventView::ActiveWindow { address: Some(canonical(address)) },
        ),
        event_of("activewindowv2"@, seq![]) == Some(HyprEventView::ActiveWindow { address: None }),
        event_of("activewindowv2"@, ","@) == Some(HyprEventView::ActiveWindow { address: None }),
        event_of("changefloatingmode"@, address + ","@ + title) == Some(
            HyprEventView::ChangeFloatingMode {
                address: canonical(address),
                floating: trimmed(title) == "1"@,
            },
        ),
        event_of("pin"@, address + ","@ + title) == Some(
            HyprEventView::Pin { address: canonical(address), pinned: trimmed(title) == "1"@ },
        ),
        event_of("urgent"@, address) == Some(
            HyprEventView::Urgent { address: canonical(address) },
        ),
        event_of("fullscreen"@, title) == Some(
            HyprEventView::Fullscreen { active: trimmed(title) == "1"@ },
        ),
{
    lemma_event_names();
    reveal_strlit(",");
    let inner = class + ","@ + title;
    let middle = workspace + ","@ + inner;
    lemma_fields_at_comma(address, middle, 4);
    lemma_fields_at_comma(workspace, inner, 3);
    lemma_fields_at_comma(class, title, 2);
    assert(fields(title, ","@, 1) =~= seq![title]);
    let opened = fields(address + ","@ + middle, ","@, 4);
    assert(opened =~= seq![address, workspace, class, title]);
    lemma_fields_at_comma(address, number + ","@ + title, 3);
    lemma_fields_at_comma(number, title, 2);
    let moved = fields(address + ","@ + (number + ","@ + title), ","@, 3);
    assert(moved =~= seq![address, number, title]);
    lemma_cut_at_comma(address, title);
    if address.len() > 0 {
        assert(address[0] != ',');
        assert(address != ","@);
    }
}

/// The lines about workspaces and monitors tell their numbers and names, and
/// what a workspace moves to.
#[verifier::rlimit(40)]
pub proof fn law_place_lines_tell_of_places(
    number: Seq<char>,
    id: i64,
    name: Seq<char>,
    last: Seq<char>,
)
    requires
        has_no_comma(number),
        has_no_comma(name),
        i64_value(number) == Some(id),
    ensures
        event_of("workspacev2"@, number + ","@ + last) == Some(
            HyprEventView::Workspace { id, name: last },
        ),
        event_of("createworkspacev2"@, number + ","@ + last) == Some(
            HyprEventView::CreateWorkspace { id, name: last },
        ),
        event_of("destroyworkspacev2"@, number + ","@ + last) == Some(
            HyprEventView::DestroyWorkspace { id, name: last },
        ),
        event_of("renameworkspace"@, number + ","@ + last) == Some(
            HyprEventView::RenameWorkspace { id, name: last },
        ),
        event_of("moveworkspacev2"@, number + ","@ + (name + ","@ + last)) == Some(
            HyprEventView::MoveWorkspace { id, name, monitor: last },
        ),
        event_of("focusedmonv2"@, name + ","@ + number) == Some(
            HyprEventView::FocusedMonitor { monitor: name, workspace_id: id },
        ),
        event_of("monitoraddedv2"@, number + ","@ + (name + ","@ + last)) == Some(
            HyprEventView::MonitorAdded { id, name },
        ),
        event_of("monitorremovedv2"@, number + ","@ + (name + ","@ + last)) == Some(
            HyprEventView::MonitorRemoved { id, name },
        ),
        event_of("configreloaded"@, last) == Some(HyprEventView::ConfigReloaded),
{
    lemma_event_names();
    reveal_strlit(",");
    lemma_cut_at_comma(number, last);
    lemma_cut_at_comma(name, number);
    lemma_fields_at_comma(number, name + ","@ + last, 3);
    lemma_fields_at_comma(name, last, 2);
    assert(fields(last, ","@, 1) =~= seq![last]);
    let told = fields(number + ","@ + (name + ","@ + last), ","@, 3);
    assert(told =~= seq![number, name, last]);
}

/// The reconnect delay starts at a quarter of a second and doubles with each
/// attempt, up to five seconds.
pub proof fn law_backoff_doubles(attempt: u32)
    requires
        attempt < u32::MAX,
    ensures
        delay_of(0) == 250,
        delay_of((attempt + 1) as u32) == (if 2 * delay_of(attempt) < 5000 {
            2 * delay_of(attempt)
        } else {
            5000
        }),
{
    reveal_with_fuel(power_of_two, 18);
    assert(power_of_two(0) == 1);
    if attempt < 16 {
        assert(power_of_two((attempt + 1) as nat) == 2 * power_of_two(attempt as nat));
    }
    assert(power_of_two(16) == 65536);
}

} // verus!
