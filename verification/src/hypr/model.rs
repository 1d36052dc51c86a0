//! Typed models for Hyprland's JSON output, tolerant of schema drift.

use vstd::prelude::*;

use crate::json::Json;
use crate::json::JsonView;
use crate::pieces::trim;
use crate::pieces::trimmed;
use crate::text::{chars, lower_char, stands_at, text_range};
use crate::text::{begins, lower, lowered};

verus! {

/// `s` without any repetition of `prefix` at its front.
pub open spec fn stripped(s: Seq<char>, prefix: Seq<char>) -> Seq<char>
    decreases s.len(),
{
    if prefix.len() > 0 && begins(s, prefix) {
        stripped(s.skip(prefix.len() as int), prefix)
    } else {
        s
    }
}

/// `s` without any repetition of `prefix` at its front.
pub fn strip_all(s: &str, prefix: &str) -> (r: String)
    requires
        prefix@.len() > 0,
    ensures
        r@ == stripped(s@, prefix@),
{
    let v = chars(s);
    let p = chars(prefix);
    let mut start: usize = 0;
    proof {
        assert(s@.skip(0) =~= s@);
    }
    while stands_at(&v, &p, start)
        invariant
            v@ == s@,
            p@ == prefix@,
            p.len() > 0,
            start <= v.len(),
            stripped(s@, prefix@) == stripped(s@.skip(start as int), prefix@),
        decreases v.len() - start,
    {
        proof {
            let rest = s@.skip(start as int);
            assert(rest.take(p.len() as int) =~= s@.subrange(start as int, start + p.len()));
            assert(rest.skip(p.len() as int) =~= s@.skip(start + p.len()));
        }
        start = start + p.len();
    }
    proof {
        let rest = s@.skip(start as int);
        if begins(rest, prefix@) {
            assert(rest.take(p.len() as int) =~= s@.subrange(start as int, start + p.len()));
        }
        assert(v@.subrange(start as int, v.len() as int) =~= rest);
    }
    text_range(&v, start, v.len())
}

/// The ASCII lowercase form of a text.
pub fn to_ascii_lowercase(s: &str) -> (r: String)
    ensures
        r@ == lowered(s@),
{
    let v = chars(s);
    let mut out = String::new();
    let mut i: usize = 0;
    while i < v.len()
        invariant
            i <= v.len(),
            v@ == s@,
            out@ == lowered(v@.take(i as int)),
        decreases v.len() - i,
    {
        let ghost before = out@;
        out.push(lower_char(v[i]));
        proof {
            assert(lowered(v@.take(i + 1)) =~= before.push(lower(v@[i as int])));
        }
        i = i + 1;
    }
    proof {
        assert(v@.take(i as int) =~= s@);
    }
    out
}

/// A window address, canonicalized to lowercase `0x…` hex.
///
/// `hyprctl -j clients` reports addresses as `"0x556bf8bdd060"` while event
/// lines report them without the `0x` prefix; both normalize to the same
/// canonical form here. This is the unique per-session window key (pids are
/// shared between windows of single-process apps).
#[derive(Debug, PartialEq, Eq, Hash)]
pub struct WindowAddress(String);

/// The canonical form of an address.
pub open spec fn canonical(raw: Seq<char>) -> Seq<char> {
    "0x"@ + lowered(stripped(trimmed(raw), "0x"@))
}

impl View for WindowAddress {
    type V = Seq<char>;

    closed spec fn view(&self) -> Seq<char> {
        self.0@
    }
}

impl DeepView for WindowAddress {
    type V = Seq<char>;

    open spec fn deep_view(&self) -> Seq<char> {
        self.view()
    }
}

impl Clone for WindowAddress {
    fn clone(&self) -> (r: Self)
        ensures
            r@ == self@,
    {
        WindowAddress(self.0.clone())
    }
}

impl WindowAddress {
    /// Normalize an address from either JSON (`0x…`) or event (`…`) form.
    pub fn new(raw: &str) -> (r: Self)
        ensures
            r@ == canonical(raw@),
    {
        proof {
            reveal_strlit("0x");
        }
        let body = trim(raw);
        let hex = strip_all(body.as_str(), "0x");
        let mut out = "0x".to_owned();
        out.append(to_ascii_lowercase(hex.as_str()).as_str());
        WindowAddress(out)
    }

    /// The canonical `0x…` form.
    pub fn as_str(&self) -> (r: &str)
        ensures
            r@ == self@,
    {
        self.0.as_str()
    }

    /// The form used in dispatcher arguments, e.g. `address:0x556bf8bdd060`.
    pub fn dispatch_arg(&self) -> (r: String)
        ensures
            r@ == "address:"@ + self@,
    {
        let mut out = "address:".to_owned();
        out.append(self.0.as_str());
        out
    }
}

/// The `{id, name}` workspace reference embedded in clients and monitors.
#[derive(Debug, PartialEq)]
pub struct WorkspaceRef {
    /// Workspace id; negative for named workspaces.
    pub id: i64,
    /// Workspace name; numeric string for numeric workspaces.
    pub name: String,
}

/// What a [`WorkspaceRef`] holds.
#[verifier::ext_equal]
pub struct WorkspaceRefView {
    /// See [`WorkspaceRef::id`].
    pub id: i64,
    /// See [`WorkspaceRef::name`].
    pub name: Seq<char>,
}

impl View for WorkspaceRef {
    type V = WorkspaceRefView;

    open spec fn view(&self) -> WorkspaceRefView {
        WorkspaceRefView {
            id: self.id,
            name: self.name.deep_view(),
        }
    }
}

impl DeepView for WorkspaceRef {
    type V = WorkspaceRefView;

    open spec fn deep_view(&self) -> WorkspaceRefView {
        self.view()
    }
}

impl Clone for WorkspaceRef {
    fn clone(&self) -> (r: Self)
        ensures
            r@ == self@,
    {
        let r = WorkspaceRef {
            id: self.id,
            name: self.name.clone(),
        };
        r
    }
}

/// The fullscreen mode that a report means, which Hyprland has represented as
/// both a bool and an int across releases: the int semantics (0/1/2).
pub fn fullscreen_mode(reported: Result<u8, bool>) -> (r: u8)
    ensures
        r == (match reported {
            Ok(mode) => mode,
            Err(true) => 2,
            Err(false) => 0,
        }),
{
    match reported {
        Ok(mode) => mode,
        Err(full) => if full {
            2
        } else {
            0
        },
    }
}

/// One window, as reported by `j/clients` and `j/activewindow`.
#[derive(Debug, PartialEq)]
pub struct Client {
    /// Unique per-session window key.
    pub address: WindowAddress,
    /// Whether the surface is currently mapped.
    pub mapped: bool,
    /// Whether Hyprland considers the window hidden.
    pub hidden: bool,
    /// Top-left corner `[x, y]`.
    pub at: (i32, i32),
    /// Size `[w, h]`.
    pub size: (i32, i32),
    /// Workspace the window is on.
    pub workspace: WorkspaceRef,
    /// Whether the window floats.
    pub floating: bool,
    /// Whether the window is pinned to all workspaces.
    pub pinned: bool,
    /// Fullscreen mode: 0 = none, 1 = maximize, 2 = fullscreen.
    pub fullscreen: u8,
    /// Monitor id the window is on; -1 when unmapped.
    pub monitor: i64,
    /// Current window class.
    pub class: String,
    /// Current window title.
    pub title: String,
    /// Class at map time; survives runtime class changes.
    pub initial_class: String,
    /// Title at map time.
    pub initial_title: String,
    /// Process id; NOT unique per window.
    pub pid: i32,
    /// Whether the window runs under XWayland.
    pub xwayland: bool,
    /// Addresses of windows sharing a Hyprland tab group with this one.
    pub grouped: Vec<WindowAddress>,
    /// Position in the global focus history (0 = focused).
    pub focus_history_id: i32,
    /// Persistent per-window id; session-scoped for us.
    pub stable_id: Option<String>,
    /// Unrecognized fields, preserved for forward compatibility.
    pub extra: Vec<(String, Json)>,
}

/// What a [`Client`] holds.
#[verifier::ext_equal]
pub struct ClientView {
    /// See [`Client::address`].
    pub address: Seq<char>,
    /// See [`Client::mapped`].
    pub mapped: bool,
    /// See [`Client::hidden`].
    pub hidden: bool,
    /// See [`Client::at`].
    pub at: (i32, i32),
    /// See [`Client::size`].
    pub size: (i32, i32),
    /// See [`Client::workspace`].
    pub workspace: WorkspaceRefView,
    /// See [`Client::floating`].
    pub floating: bool,
    /// See [`Client::pinned`].
    pub pinned: bool,
    /// See [`Client::fullscreen`].
    pub fullscreen: u8,
    /// See [`Client::monitor`].
    pub monitor: i64,
    /// See [`Client::class`].
    pub class: Seq<char>,
    /// See [`Client::title`].
    pub title: Seq<char>,
    /// See [`Client::initial_class`].
    pub initial_class: Seq<char>,
    /// See [`Client::initial_title`].
    pub initial_title: Seq<char>,
    /// See [`Client::pid`].
    pub pid: i32,
    /// See [`Client::xwayland`].
    pub xwayland: bool,
    /// See [`Client::grouped`].
    pub grouped: Seq<Seq<char>>,
    /// See [`Client::focus_history_id`].
    pub focus_history_id: i32,
    /// See [`Client::stable_id`].
    pub stable_id: Option<Seq<char>>,
    /// See [`Client::extra`].
    pub extra: Seq<(Seq<char>, JsonView)>,
}

impl View for Client {
    type V = ClientView;

    open spec fn view(&self) -> ClientView {
        ClientView {
            address: self.address.deep_view(),
            mapped: self.mapped,
            hidden: self.hidden,
            at: self.at,
            size: self.size,
            workspace: self.workspace.deep_view(),
            floating: self.floating,
            pinned: self.pinned,
            fullscreen: self.fullscreen,
            monitor: self.monitor,
            class: self.class.deep_view(),
            title: self.title.deep_view(),
            initial_class: self.initial_class.deep_view(),
            initial_title: self.initial_title.deep_view(),
            pid: self.pid,
            xwayland: self.xwayland,
            grouped: self.grouped.deep_view(),
            focus_history_id: self.focus_history_id,
            stable_id: self.stable_id.deep_view(),
            extra: self.extra.deep_view(),
        }
    }
}

impl DeepView for Client {
    type V = ClientView;

    open spec fn deep_view(&self) -> ClientView {
        self.view()
    }
}

/// One workspace, as reported by `j/workspaces`.
#[derive(Debug, PartialEq)]
pub struct Workspace {
    /// Workspace id; negative for named workspaces, sparse in practice.
    pub id: i64,
    /// Workspace name.
    pub name: String,
    /// Output name the workspace is on (e.g. `DP-1`).
    pub monitor: String,
    /// Monitor id.
    pub monitor_id: i64,
    /// Number of windows on the workspace.
    pub windows: u32,
    /// Whether any window on it is fullscreen.
    pub has_fullscreen: bool,
    /// Address of the last focused window on the workspace.
    pub last_window: String,
    /// Whether the workspace is persistent.
    pub is_persistent: bool,
    /// Unrecognized fields, preserved for forward compatibility.
    pub extra: Vec<(String, Json)>,
}

/// What a [`Workspace`] holds.
#[verifier::ext_equal]
pub struct WorkspaceView {
    /// See [`Workspace::id`].
    pub id: i64,
    /// See [`Workspace::name`].
    pub name: Seq<char>,
    /// See [`Workspace::monitor`].
    pub monitor: Seq<char>,
    /// See [`Workspace::monitor_id`].
    pub monitor_id: i64,
    /// See [`Workspace::windows`].
    pub windows: u32,
    /// See [`Workspace::has_fullscreen`].
    pub has_fullscreen: bool,
    /// See [`Workspace::last_window`].
    pub last_window: Seq<char>,
    /// See [`Workspace::is_persistent`].
    pub is_persistent: bool,
    /// See [`Workspace::extra`].
    pub extra: Seq<(Seq<char>, JsonView)>,
}

impl View for Workspace {
    type V = WorkspaceView;

    open spec fn view(&self) -> WorkspaceView {
        WorkspaceView {
            id: self.id,
            name: self.name.deep_view(),
            monitor: self.monitor.deep_view(),
            monitor_id: self.monitor_id,
            windows: self.windows,
            has_fullscreen: self.has_fullscreen,
            last_window: self.last_window.deep_view(),
            is_persistent: self.is_persistent,
            extra: self.extra.deep_view(),
        }
    }
}

impl DeepView for Workspace {
    type V = WorkspaceView;

    open spec fn deep_view(&self) -> WorkspaceView {
        self.view()
    }
}

/// One monitor, as reported by `j/monitors`.
#[derive(Debug, PartialEq)]
pub struct Monitor {
    /// Monitor id.
    pub id: i64,
    /// Output name (e.g. `DP-1`).
    pub name: String,
    /// Human-readable description.
    pub description: String,
    /// Whether this monitor has pointer focus.
    pub focused: bool,
    /// The active regular workspace.
    pub active_workspace: WorkspaceRef,
    /// The active special workspace (id 0 when none).
    pub special_workspace: WorkspaceRef,
    /// Position of the monitor in layout space.
    pub x: i32,
    /// Position of the monitor in layout space.
    pub y: i32,
    /// Mode width in pixels.
    pub width: u32,
    /// Mode height in pixels.
    pub height: u32,
    /// Unrecognized fields, preserved for forward compatibility.
    pub extra: Vec<(String, Json)>,
}

/// What a [`Monitor`] holds.
#[verifier::ext_equal]
pub struct MonitorView {
    /// See [`Monitor::id`].
    pub id: i64,
    /// See [`Monitor::name`].
    pub name: Seq<char>,
    /// See [`Monitor::description`].
    pub description: Seq<char>,
    /// See [`Monitor::focused`].
    pub focused: bool,
    /// See [`Monitor::active_workspace`].
    pub active_workspace: WorkspaceRefView,
    /// See [`Monitor::special_workspace`].
    pub special_workspace: WorkspaceRefView,
    /// See [`Monitor::x`].
    pub x: i32,
    /// See [`Monitor::y`].
    pub y: i32,
    /// See [`Monitor::width`].
    pub width: u32,
    /// See [`Monitor::height`].
    pub height: u32,
    /// See [`Monitor::extra`].
    pub extra: Seq<(Seq<char>, JsonView)>,
}

impl View for Monitor {
    type V = MonitorView;

    open spec fn view(&self) -> MonitorView {
        MonitorView {
            id: self.id,
            name: self.name.deep_view(),
            description: self.description.deep_view(),
            focused: self.focused,
            active_workspace: self.active_workspace.deep_view(),
            special_workspace: self.special_workspace.deep_view(),
            x: self.x,
            y: self.y,
            width: self.width,
            height: self.height,
            extra: self.extra.deep_view(),
        }
    }
}

impl DeepView for Monitor {
    type V = MonitorView;

    open spec fn deep_view(&self) -> MonitorView {
        self.view()
    }
}

// ---- laws -----------------------------------------------------------------------

proof fn lemma_trimmed(s: Seq<char>)
    requires
        s.len() > 0,
        !crate::text::is_space(s[0]),
        !crate::text::is_space(s.last()),
    ensures
        trimmed(s) == s,
{
    assert(crate::pieces::leading_space(s) == 0);
    assert(s.skip(0) =~= s);
}

/// The form with and the form without the `0x` prefix are the same address.
pub proof fn law_both_forms_agree(hex: Seq<char>)
    requires
        hex.len() > 0,
        !crate::text::is_space(hex[0]),
        !crate::text::is_space(hex.last()),
        !begins(hex, "0x"@),
    ensures
        canonical("0x"@ + hex) == canonical(hex),
        canonical(hex) == "0x"@ + lowered(hex),
{
    reveal_strlit("0x");
    let prefixed = "0x"@ + hex;
    lemma_trimmed(hex);
    lemma_trimmed(prefixed);
    assert(prefixed.take(2) =~= "0x"@);
    assert(prefixed.skip(2) =~= hex);
    assert(stripped(prefixed, "0x"@) == stripped(hex, "0x"@));
}

/// The canonical form of an address is its own canonical form.
pub proof fn law_canonical_is_stable(hex: Seq<char>)
    requires
        hex.len() > 0,
        !crate::text::is_space(hex[0]),
        !crate::text::is_space(hex.last()),
        !begins(lowered(hex), "0x"@),
        !begins(hex, "0x"@),
    ensures
        canonical(canonical(hex)) == canonical(hex),
{
    law_both_forms_agree(hex);
    let low = lowered(hex);
    assert(low[0] == lower(hex[0]) && low.last() == lower(hex.last()));
    law_both_forms_agree(low);
    assert(lowered(low) =~= low);
}

} // verus!
