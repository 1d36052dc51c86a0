//! The Hyprland side of the daemon: full state dumps on (re)connect, and the
//! enrichment of opened windows with full client facts.
//!
//! Hydration ordering: the event socket connects *before* state is dumped
//! over the control socket. Events arriving during the dump wait and are
//! applied afterwards; the idempotent upserts make the replay harmless.

use vstd::prelude::*;

use crate::daemon::commands::Command;
use crate::domain::world::{MonitorInfo, TrackedWindow, WindowFacts, WorkspaceInfo};
use crate::domain::world::{
    MonitorInfoView, TrackedWindowView, WindowFactsView, WorkspaceInfoView,
};
use crate::hypr::events::HyprEvent;
use crate::hypr::model::{Client, Monitor, Workspace};
use crate::hypr::model::{ClientView, MonitorView, WorkspaceView};
use crate::numbers::render;
use crate::numbers::decimal;
use crate::text::same;

verus! {

/// The tracked-window form of a client with a resolved executable.
pub open spec fn window_of(client: ClientView, executable: Option<Seq<char>>) -> TrackedWindowView {
    TrackedWindowView {
        address: client.address,
        stable_id: client.stable_id,
        facts: WindowFactsView {
            class: client.class,
            title: client.title,
            initial_class: client.initial_class,
            initial_title: client.initial_title,
            executable,
            pid: client.pid,
            workspace_id: client.workspace.id,
            workspace: client.workspace.name,
            monitor: client.monitor,
            at: client.at,
            size: client.size,
            floating: client.floating,
            pinned: client.pinned,
            fullscreen: client.fullscreen,
        },
        assignment: None,
        assigned_by: None,
    }
}

/// Convert one Hyprland client into our tracked-window form. `executable` is
/// what its process's link (see [`executable_link`]) points to.
pub fn tracked_from_client(client: &Client, executable: Option<String>) -> (r: TrackedWindow)
    ensures
        r@ == window_of(client@, executable.deep_view()),
{
    TrackedWindow {
        address: client.address.as_str().to_owned(),
        stable_id: client.stable_id.clone(),
        facts: WindowFacts {
            class: client.class.clone(),
            title: client.title.clone(),
            initial_class: client.initial_class.clone(),
            initial_title: client.initial_title.clone(),
            executable,
            pid: client.pid,
            workspace_id: client.workspace.id,
            workspace: client.workspace.name.clone(),
            monitor: client.monitor,
            at: client.at,
            size: client.size,
            floating: client.floating,
            pinned: client.pinned,
            fullscreen: client.fullscreen,
        },
        assignment: None,
        assigned_by: None,
    }
}

/// The link that shows a process's executable; none for a process id that
/// cannot be one.
pub fn executable_link(pid: i32) -> (r: Option<String>)
    ensures
        r.deep_view() == (if pid <= 0 {
            None
        } else {
            Some("/proc/"@ + decimal(pid as nat) + "/exe"@)
        }),
{
    if pid <= 0 {
        return None;
    }
    let mut out = "/proc/".to_owned();
    out.append(render(pid as u64).as_str());
    out.append("/exe");
    Some(out)
}

/// The workspace form of what Hyprland reports.
pub open spec fn workspace_info(workspace: WorkspaceView) -> WorkspaceInfoView {
    WorkspaceInfoView { id: workspace.id, name: workspace.name, monitor: workspace.monitor }
}

/// The monitor form of what Hyprland reports.
pub open spec fn monitor_info(monitor: MonitorView) -> MonitorInfoView {
    MonitorInfoView { id: monitor.id, name: monitor.name, focused: monitor.focused }
}

/// The whole dump as a command. `executables` are those of the clients, in
/// their order.
pub fn hydration(
    clients: &Vec<Client>,
    executables: &Vec<Option<String>>,
    workspaces: &Vec<Workspace>,
    monitors: &Vec<Monitor>,
    active_window: &Option<Client>,
) -> (r: Command)
    requires
        executables.len() == clients.len(),
    ensures
        r matches Command::Hydrate { windows, workspaces: ws, monitors: ms, focused_window } && {
            &&& windows.deep_view() == Seq::new(
                clients.len() as nat,
                |i: int| window_of(clients@[i]@, executables@[i].deep_view()),
            )
            &&& ws.deep_view() == Seq::new(
                workspaces.len() as nat,
                |i: int| workspace_info(workspaces@[i]@),
            )
            &&& ms.deep_view() == Seq::new(
                monitors.len() as nat,
                |i: int| monitor_info(monitors@[i]@),
            )
            &&& focused_window.deep_view() == (match active_window {
                Some(client) => Some(client@.address),
                None => None,
            })
        },
{
    let mut windows: Vec<TrackedWindow> = Vec::new();
    let mut i: usize = 0;
    while i < clients.len()
        invariant
            i <= clients.len(),
            executables.len() == clients.len(),
            windows.len() == i,
            forall|k: int|
                0 <= k < i ==> (#[trigger] windows@[k])@ == window_of(
                    clients@[k]@,
                    executables@[k].deep_view(),
                ),
        decreases clients.len() - i,
    {
        windows.push(tracked_from_client(&clients[i], executables[i].clone()));
        i = i + 1;
    }
    let mut spaces: Vec<WorkspaceInfo> = Vec::new();
    let mut j: usize = 0;
    while j < workspaces.len()
        invariant
            j <= workspaces.len(),
            spaces.len() == j,
            forall|k: int|
                0 <= k < j ==> (#[trigger] spaces@[k])@ == workspace_info(workspaces@[k]@),
        decreases workspaces.len() - j,
    {
        spaces.push(
            WorkspaceInfo {
                id: workspaces[j].id,
                name: workspaces[j].name.clone(),
                monitor: workspaces[j].monitor.clone(),
            },
        );
        j = j + 1;
    }
    let mut screens: Vec<MonitorInfo> = Vec::new();
    let mut m: usize = 0;
    while m < monitors.len()
        invariant
            m <= monitors.len(),
            screens.len() == m,
            forall|k: int|
                0 <= k < m ==> (#[trigger] screens@[k])@ == monitor_info(monitors@[k]@),
        decreases monitors.len() - m,
    {
        screens.push(
            MonitorInfo {
                id: monitors[m].id,
                name: monitors[m].name.clone(),
                focused: monitors[m].focused,
            },
        );
        m = m + 1;
    }
    let focused_window = match active_window {
        Some(client) => Some(client.address.as_str().to_owned()),
        None => None,
    };
    proof {
        assert(windows.deep_view() =~= Seq::new(
            clients.len() as nat,
            |i: int| window_of(clients@[i]@, executables@[i].deep_view()),
        ));
        assert(spaces.deep_view() =~= Seq::new(
            workspaces.len() as nat,
            |i: int| workspace_info(workspaces@[i]@),
        ));
        assert(screens.deep_view() =~= Seq::new(
            monitors.len() as nat,
            |i: int| monitor_info(monitors@[i]@),
        ));
    }
    Command::Hydrate { windows, workspaces: spaces, monitors: screens, focused_window }
}

/// The window whose full facts are to be fetched after an event: one that
/// has just opened, since its event carries neither pid nor geometry.
pub fn enrichment_target(event: &HyprEvent) -> (r: Option<String>)
    ensures
        r.deep_view() == (match event@ {
            crate::hypr::events::HyprEventView::OpenWindow { address, .. } => Some(address),
            _ => None,
        }),
{
    match event {
        HyprEvent::OpenWindow { address, .. } => Some(address.as_str().to_owned()),
        _ => None,
    }
}

/// The first client with the address, if there is one.
pub open spec fn client_index(clients: Seq<ClientView>, address: Seq<char>, from: int) -> Option<
    int,
>
    decreases clients.len() - from,
{
    if from < 0 || from >= clients.len() {
        None
    } else if clients[from].address == address {
        Some(from)
    } else {
        client_index(clients, address, from + 1)
    }
}

/// Find the client with the address.
pub fn find_client(clients: &Vec<Client>, address: &str) -> (r: Option<usize>)
    ensures
        match (r, client_index(clients.deep_view(), address@, 0)) {
            (Some(i), Some(j)) => i == j && i < clients.len(),
            (None, None) => true,
            _ => false,
        },
{
    let ghost views = clients.deep_view();
    let mut i: usize = 0;
    while i < clients.len()
        invariant
            i <= clients.len(),
            views == clients.deep_view(),
            client_index(views, address@, 0) == client_index(views, address@, i as int),
        decreases clients.len() - i,
    {
        assert(views[i as int] == clients@[i as int]@);
        if same(clients[i].address.as_str(), address) {
            return Some(i);
        }
        i = i + 1;
    }
    None
}

/// The command that feeds a client's full facts to the state.
pub fn enrichment(client: &Client, executable: Option<String>) -> (r: Command)
    ensures
        r matches Command::WindowFacts { address, stable_id, facts } && {
            let window = window_of(client@, executable.deep_view());
            &&& address@ == window.address
            &&& stable_id.deep_view() == window.stable_id
            &&& facts@ == window.facts
        },
{
    let window = tracked_from_client(client, executable);
    Command::WindowFacts {
        address: window.address,
        stable_id: window.stable_id,
        facts: window.facts,
    }
}

// ---- laws ---------------------------------------------------------------------------------

/// A window of a dump is known by all that the compositor reports of it and by
/// the executable of its process; it comes without an assignment.
pub proof fn law_windows_are_known_as_reported(client: ClientView, executable: Option<Seq<char>>)
    ensures
        ({
            let window = window_of(client, executable);
            &&& window.address == client.address
            &&& window.stable_id == client.stable_id
            &&& window.facts.class == client.class
            &&& window.facts.title == client.title
            &&& window.facts.initial_class == client.initial_class
            &&& window.facts.initial_title == client.initial_title
            &&& window.facts.executable == executable
            &&& window.facts.pid == client.pid
            &&& window.facts.workspace_id == client.workspace.id
            &&& window.facts.workspace == client.workspace.name
            &&& window.facts.monitor == client.monitor
            &&& window.facts.at == client.at
            &&& window.facts.size == client.size
            &&& window.facts.floating == client.floating
            &&& window.facts.pinned == client.pinned
            &&& window.facts.fullscreen == client.fullscreen
            &&& window.assignment is None
            &&& window.assigned_by is None
        }),
{
}

/// Workspaces and monitors are known as the compositor reports them.
pub proof fn law_surroundings_are_known_as_reported(workspace: WorkspaceView, monitor: MonitorView)
    ensures
        workspace_info(workspace).id == workspace.id,
        workspace_info(workspace).name == workspace.name,
        workspace_info(workspace).monitor == workspace.monitor,
        monitor_info(monitor).id == monitor.id,
        monitor_info(monitor).name == monitor.name,
        monitor_info(monitor).focused == monitor.focused,
{
}

/// The client that is found for an address is the first one with it, and there
/// is one exactly if some client has it.
pub proof fn law_clients_are_found_by_address(clients: Seq<ClientView>, address: Seq<char>, from: int)
    requires
        0 <= from,
    ensures
        match client_index(clients, address, from) {
            Some(c) => from <= c < clients.len() && clients[c].address == address && forall|d: int|
                from <= d < c ==> (#[trigger] clients[d]).address != address,
            None => forall|d: int|
                from <= d < clients.len() ==> (#[trigger] clients[d]).address != address,
        },
    decreases clients.len() - from,
{
    if from < clients.len() {
        law_clients_are_found_by_address(clients, address, from + 1);
    }
}

} // verus!
