//! The request/response protocol of Hyprland's control socket.
//!
//! Protocol (what `hyprctl` speaks): connect, write the request string
//! (`j/clients`, `dispatch workspace 2`, `[[BATCH]]…`), read the reply until
//! Hyprland closes the connection. One connection per request.

use vstd::prelude::*;

use crate::hypr::error::HyprError;
use crate::hypr::error::HyprErrorView;
use crate::hypr::model::WindowAddress;
use crate::hypr::socket::HyprPaths;
use crate::json::Json;
use crate::json::JsonView;
use crate::numbers::render_signed;
use crate::numbers::decimal_int;
use crate::outside::from_utf8_lossy;
use crate::outside::utf8_text;
use crate::pieces::{join, replace_char, split, trim};
use crate::pieces::{
    all_fields, joined, law_replacing_goes_place_by_place, law_separators_divide_fields, replaced,
    trimmed,
};
use crate::text::{is_empty, same};
use crate::text::{find_from, lemma_find_from};

verus! {

/// A workspace target in dispatcher grammar.
#[derive(Debug, PartialEq, Eq)]
pub enum WsTarget {
    /// Numeric workspace id.
    Id(i64),
    /// Named workspace (`name:<name>` on the wire).
    Name(String),
    /// The previously focused workspace.
    Previous,
}

/// What a [`WsTarget`] holds.
#[verifier::ext_equal]
pub enum WsTargetView {
    /// See [`WsTarget::Id`].
    Id(i64),
    /// See [`WsTarget::Name`].
    Name(Seq<char>),
    /// See [`WsTarget::Previous`].
    Previous,
}

impl View for WsTarget {
    type V = WsTargetView;

    open spec fn view(&self) -> WsTargetView {
        match self {
            WsTarget::Id(x0) => WsTargetView::Id(*x0),
            WsTarget::Name(x0) => WsTargetView::Name(x0.deep_view()),
            WsTarget::Previous => WsTargetView::Previous,
        }
    }
}

impl DeepView for WsTarget {
    type V = WsTargetView;

    open spec fn deep_view(&self) -> WsTargetView {
        self.view()
    }
}

impl WsTargetView {
    /// The target as dispatchers take it.
    pub open spec fn text(self) -> Seq<char> {
        match self {
            WsTargetView::Id(id) => decimal_int(id as int),
            WsTargetView::Name(name) => "name:"@ + name,
            WsTargetView::Previous => "previous"@,
        }
    }
}

impl WsTarget {
    /// The target as dispatchers take it.
    pub fn text(&self) -> (r: String)
        ensures
            r@ == self@.text(),
    {
        match self {
            WsTarget::Id(id) => render_signed(*id),
            WsTarget::Name(name) => {
                let mut out = "name:".to_owned();
                out.append(name.as_str());
                out
            },
            WsTarget::Previous => "previous".to_owned(),
        }
    }
}

/// A cardinal direction for directional dispatchers (`swapwindow`,
/// `movewindow`, `movefocus`).
#[derive(Debug, Clone, Copy, PartialEq, Eq, Structural)]
pub enum MoveDir {
    /// Left.
    Left,
    /// Right.
    Right,
    /// Up.
    Up,
    /// Down.
    Down,
}

/// The letter of a direction.
pub open spec fn direction_letter(dir: MoveDir) -> Seq<char> {
    match dir {
        MoveDir::Left => "l"@,
        MoveDir::Right => "r"@,
        MoveDir::Up => "u"@,
        MoveDir::Down => "d"@,
    }
}

impl MoveDir {
    /// The letter of the direction.
    pub fn letter(&self) -> (r: &'static str)
        ensures
            r@ == direction_letter(*self),
    {
        match self {
            MoveDir::Left => "l",
            MoveDir::Right => "r",
            MoveDir::Up => "u",
            MoveDir::Down => "d",
        }
    }
}

/// A typed Hyprland dispatcher. Rendered to the wire string by [`Dispatch::render`].
#[derive(Debug, PartialEq, Eq)]
pub enum Dispatch {
    /// Focus a workspace.
    Workspace(WsTarget),
    /// Move a window to a workspace without following it.
    MoveToWorkspaceSilent {
        /// Destination workspace.
        target: WsTarget,
        /// Window to move.
        address: WindowAddress,
    },
    /// Move a window to a workspace and follow it.
    MoveToWorkspace {
        /// Destination workspace.
        target: WsTarget,
        /// Window to move.
        address: WindowAddress,
    },
    /// Focus a specific window.
    FocusWindow(WindowAddress),
    /// Ask a window's client to close (graceful, like clicking the X).
    CloseWindow(WindowAddress),
    /// Swap the focused window with its neighbor in a direction (tiled).
    SwapWindow(MoveDir),
    /// Move the focused window in a direction; toward an empty edge this
    /// re-splits the layout in that orientation (side-by-side ⇄ stacked).
    MoveWindowDir(MoveDir),
    /// Toggle the focused window's split orientation (dwindle; requires
    /// settled focus — batching it with `focuswindow` races).
    ToggleSplit,
    /// Resize the focused window to an exact size; on tiled windows this
    /// adjusts the surrounding split ratios.
    ResizeActiveExact {
        /// Width in pixels.
        w: i32,
        /// Height in pixels.
        h: i32,
    },
    /// Launch a command, optionally with exec rules like `workspace name:x silent`.
    Exec {
        /// Exec rules placed in `[…]` before the command.
        rules: Vec<String>,
        /// The command line to run.
        command: String,
    },
    /// Set a window floating.
    SetFloating(WindowAddress),
    /// Set a window tiled.
    SetTiled(WindowAddress),
    /// Move a floating window to an exact position.
    MoveWindowPixelExact {
        /// Window to move.
        address: WindowAddress,
        /// Absolute x.
        x: i32,
        /// Absolute y.
        y: i32,
    },
    /// Resize a floating window to an exact size.
    ResizeWindowPixelExact {
        /// Window to resize.
        address: WindowAddress,
        /// Width in pixels.
        w: i32,
        /// Height in pixels.
        h: i32,
    },
    /// Move a workspace to a monitor by output name.
    MoveWorkspaceToMonitor {
        /// Workspace to move.
        workspace: WsTarget,
        /// Destination output name.
        monitor: String,
    },
    /// An escape hatch for dispatchers not yet modeled.
    Raw(String),
}

/// What a [`Dispatch`] holds.
#[verifier::ext_equal]
pub enum DispatchView {
    /// See [`Dispatch::Workspace`].
    Workspace(WsTargetView),
    /// See [`Dispatch::MoveToWorkspaceSilent`].
    MoveToWorkspaceSilent {
        /// Destination workspace.
        target: WsTargetView,
        /// Window to move.
        address: Seq<char>,
    },
    /// See [`Dispatch::MoveToWorkspace`].
    MoveToWorkspace {
        /// Destination workspace.
        target: WsTargetView,
        /// Window to move.
        address: Seq<char>,
    },
    /// See [`Dispatch::FocusWindow`].
    FocusWindow(Seq<char>),
    /// See [`Dispatch::CloseWindow`].
    CloseWindow(Seq<char>),
    /// See [`Dispatch::SwapWindow`].
    SwapWindow(MoveDir),
    /// See [`Dispatch::MoveWindowDir`].
    MoveWindowDir(MoveDir),
    /// See [`Dispatch::ToggleSplit`].
    ToggleSplit,
    /// See [`Dispatch::ResizeActiveExact`].
    ResizeActiveExact {
        /// Width in pixels.
        w: i32,
        /// Height in pixels.
        h: i32,
    },
    /// See [`Dispatch::Exec`].
    Exec {
        /// Exec rules placed in `[…]` before the command.
        rules: Seq<Seq<char>>,
        /// The command line to run.
        command: Seq<char>,
    },
    /// See [`Dispatch::SetFloating`].
    SetFloating(Seq<char>),
    /// See [`Dispatch::SetTiled`].
    SetTiled(Seq<char>),
    /// See [`Dispatch::MoveWindowPixelExact`].
    MoveWindowPixelExact {
        /// Window to move.
        address: Seq<char>,
        /// Absolute x.
        x: i32,
        /// Absolute y.
        y: i32,
    },
    /// See [`Dispatch::ResizeWindowPixelExact`].
    ResizeWindowPixelExact {
        /// Window to resize.
        address: Seq<char>,
        /// Width in pixels.
        w: i32,
        /// Height in pixels.
        h: i32,
    },
    /// See [`Dispatch::MoveWorkspaceToMonitor`].
    MoveWorkspaceToMonitor {
        /// Workspace to move.
        workspace: WsTargetView,
        /// Destination output name.
        monitor: Seq<char>,
    },
    /// See [`Dispatch::Raw`].
    Raw(Seq<char>),
}

impl View for Dispatch {
    type V = DispatchView;

    open spec fn view(&self) -> DispatchView {
        match self {
            Dispatch::Workspace(x0) => DispatchView::Workspace(x0@),
            Dispatch::MoveToWorkspaceSilent { target, address } => DispatchView::MoveToWorkspaceSilent {
                target: target.deep_view(),
                address: address.deep_view(),
            },
            Dispatch::MoveToWorkspace { target, address } => DispatchView::MoveToWorkspace {
                target: target.deep_view(),
                address: address.deep_view(),
            },
            Dispatch::FocusWindow(x0) => DispatchView::FocusWindow(x0@),
            Dispatch::CloseWindow(x0) => DispatchView::CloseWindow(x0@),
            Dispatch::SwapWindow(x0) => DispatchView::SwapWindow(*x0),
            Dispatch::MoveWindowDir(x0) => DispatchView::MoveWindowDir(*x0),
            Dispatch::ToggleSplit => DispatchView::ToggleSplit,
            Dispatch::ResizeActiveExact { w, h } => DispatchView::ResizeActiveExact {
                w: *w,
                h: *h,
            },
            Dispatch::Exec { rules, command } => DispatchView::Exec {
                rules: rules.deep_view(),
                command: command.deep_view(),
            },
            Dispatch::SetFloating(x0) => DispatchView::SetFloating(x0@),
            Dispatch::SetTiled(x0) => DispatchView::SetTiled(x0@),
            Dispatch::MoveWindowPixelExact { address, x, y } => DispatchView::MoveWindowPixelExact {
                address: address.deep_view(),
                x: *x,
                y: *y,
            },
            Dispatch::ResizeWindowPixelExact { address, w, h } => DispatchView::ResizeWindowPixelExact {
                address: address.deep_view(),
                w: *w,
                h: *h,
            },
            Dispatch::MoveWorkspaceToMonitor { workspace, monitor } => DispatchView::MoveWorkspaceToMonitor {
                workspace: workspace.deep_view(),
                monitor: monitor.deep_view(),
            },
            Dispatch::Raw(x0) => DispatchView::Raw(x0@),
        }
    }
}

impl DeepView for Dispatch {
    type V = DispatchView;

    open spec fn deep_view(&self) -> DispatchView {
        self.view()
    }
}

impl DispatchView {
    /// Whether the workspace that the dispatch is about, if any, is given by
    /// name.
    pub open spec fn goes_by_name(self) -> bool {
        match self {
            DispatchView::Workspace(target) => target is Name,
            DispatchView::MoveToWorkspaceSilent { target, .. } => target is Name,
            DispatchView::MoveToWorkspace { target, .. } => target is Name,
            DispatchView::MoveWorkspaceToMonitor { workspace, .. } => workspace is Name,
            _ => true,
        }
    }

    /// The dispatcher argument string (without the `dispatch ` prefix).
    pub open spec fn rendered(self) -> Seq<char> {
        match self {
            DispatchView::Workspace(t) => "workspace "@ + t.text(),
            DispatchView::MoveToWorkspaceSilent { target, address } => "movetoworkspacesilent "@ + target.text() + ","@ + ("address:"@ + address),
            DispatchView::MoveToWorkspace { target, address } => "movetoworkspace "@ + target.text() + ","@ + ("address:"@ + address),
            DispatchView::FocusWindow(address) => "focuswindow "@ + ("address:"@ + address),
            DispatchView::CloseWindow(address) => "closewindow "@ + ("address:"@ + address),
            DispatchView::SwapWindow(dir) => "swapwindow "@ + direction_letter(dir),
            DispatchView::MoveWindowDir(dir) => "movewindow "@ + direction_letter(dir),
            DispatchView::ToggleSplit => "layoutmsg togglesplit"@,
            DispatchView::ResizeActiveExact { w, h } => "resizeactive exact "@ + decimal_int(w as int) + " "@ + decimal_int(h as int),
            DispatchView::Exec { rules, command } => if rules.len() == 0 {
                "exec "@ + command
            } else {
                "exec ["@ + joined(rules, "; "@) + "] "@ + command
            },
            DispatchView::SetFloating(address) => "setfloating "@ + ("address:"@ + address),
            DispatchView::SetTiled(address) => "settiled "@ + ("address:"@ + address),
            DispatchView::MoveWindowPixelExact { address, x, y } => "movewindowpixel exact "@ + decimal_int(x as int) + " "@ + decimal_int(y as int) + ","@ + ("address:"@ + address),
            DispatchView::ResizeWindowPixelExact { address, w, h } => "resizewindowpixel exact "@ + decimal_int(w as int) + " "@ + decimal_int(h as int) + ","@ + ("address:"@ + address),
            DispatchView::MoveWorkspaceToMonitor { workspace, monitor } => "moveworkspacetomonitor "@ + workspace.text() + " "@ + monitor,
            DispatchView::Raw(text) => text,
        }
    }
}

impl Dispatch {
    /// Render to the dispatcher argument string (without the `dispatch ` prefix).
    pub fn render(&self) -> (r: String)
        ensures
            r@ == self@.rendered(),
    {
        match self {
            Dispatch::Workspace(t) => {
                let mut out = "workspace ".to_owned();
                out.append(t.text().as_str());
                out
            },
            Dispatch::MoveToWorkspaceSilent { target, address } => {
                let mut out = "movetoworkspacesilent ".to_owned();
                out.append(target.text().as_str());
                out.append(",");
                out.append(address.dispatch_arg().as_str());
                out
            },
            Dispatch::MoveToWorkspace { target, address } => {
                let mut out = "movetoworkspace ".to_owned();
                out.append(target.text().as_str());
                out.append(",");
                out.append(address.dispatch_arg().as_str());
                out
            },
            Dispatch::FocusWindow(address) => {
                let mut out = "focuswindow ".to_owned();
                out.append(address.dispatch_arg().as_str());
                out
            },
            Dispatch::CloseWindow(address) => {
                let mut out = "closewindow ".to_owned();
                out.append(address.dispatch_arg().as_str());
                out
            },
            Dispatch::SwapWindow(dir) => {
                let mut out = "swapwindow ".to_owned();
                out.append(dir.letter());
                out
            },
            Dispatch::MoveWindowDir(dir) => {
                let mut out = "movewindow ".to_owned();
                out.append(dir.letter());
                out
            },
            Dispatch::ToggleSplit => {
                "layoutmsg togglesplit".to_owned()
            },
            Dispatch::ResizeActiveExact { w, h } => {
                let mut out = "resizeactive exact ".to_owned();
                out.append(render_signed(*w as i64).as_str());
                out.append(" ");
                out.append(render_signed(*h as i64).as_str());
                out
            },
            Dispatch::Exec { rules, command } => {
                if rules.len() == 0 {
                    let mut out = "exec ".to_owned();
                    out.append(command.as_str());
                    out
                } else {
                    let mut out = "exec [".to_owned();
                    out.append(join(rules, "; ").as_str());
                    out.append("] ");
                    out.append(command.as_str());
                    out
                }
            },
            Dispatch::SetFloating(address) => {
                let mut out = "setfloating ".to_owned();
                out.append(address.dispatch_arg().as_str());
                out
            },
            Dispatch::SetTiled(address) => {
                let mut out = "settiled ".to_owned();
                out.append(address.dispatch_arg().as_str());
                out
            },
            Dispatch::MoveWindowPixelExact { address, x, y } => {
                let mut out = "movewindowpixel exact ".to_owned();
                out.append(render_signed(*x as i64).as_str());
                out.append(" ");
                out.append(render_signed(*y as i64).as_str());
                out.append(",");
                out.append(address.dispatch_arg().as_str());
                out
            },
            Dispatch::ResizeWindowPixelExact { address, w, h } => {
                let mut out = "resizewindowpixel exact ".to_owned();
                out.append(render_signed(*w as i64).as_str());
                out.append(" ");
                out.append(render_signed(*h as i64).as_str());
                out.append(",");
                out.append(address.dispatch_arg().as_str());
                out
            },
            Dispatch::MoveWorkspaceToMonitor { workspace, monitor } => {
                let mut out = "moveworkspacetomonitor ".to_owned();
                out.append(workspace.text().as_str());
                out.append(" ");
                out.append(monitor.as_str());
                out
            },
            Dispatch::Raw(text) => {
                text.clone()
            },
        }
    }
}

/// The request for one dispatcher.
pub open spec fn dispatch_text(dispatch: DispatchView) -> Seq<char> {
    "dispatch "@ + dispatch.rendered()
}

/// The requests for several dispatchers.
pub open spec fn dispatch_texts(dispatches: Seq<DispatchView>) -> Seq<Seq<char>> {
    Seq::new(dispatches.len(), |i: int| dispatch_text(dispatches[i]))
}

/// The request for several dispatchers at once; there is none for none.
pub open spec fn batch_text(dispatches: Seq<DispatchView>) -> Option<Seq<char>> {
    if dispatches.len() == 0 {
        None
    } else {
        Some("[[BATCH]]"@ + joined(dispatch_texts(dispatches), "; "@))
    }
}

/// Whether a part of a reply says that all is well.
pub open spec fn is_fine(part: Seq<char>) -> bool {
    trimmed(part).len() == 0 || trimmed(part) == "ok"@
}

/// The parts of a reply: what stands between line breaks and semicolons.
pub open spec fn reply_parts(reply: Seq<char>) -> Seq<Seq<char>> {
    all_fields(replaced(reply, ';', "\n"@), "\n"@)
}

/// Whether a reply says that every command went well: it holds nothing but
/// `ok`s.
pub open spec fn is_ok_reply(reply: Seq<char>) -> bool {
    forall|i: int| 0 <= i < reply_parts(reply).len() ==> is_fine(#[trigger] reply_parts(reply)[i])
}

/// The request for one dispatcher.
pub fn dispatch_request(dispatch: &Dispatch) -> (r: String)
    ensures
        r@ == dispatch_text(dispatch@),
{
    let mut out = "dispatch ".to_owned();
    out.append(dispatch.render().as_str());
    out
}

/// The request for several dispatchers at once via `[[BATCH]]`; there is none
/// for none.
pub fn batch_request(dispatches: &Vec<Dispatch>) -> (r: Option<String>)
    ensures
        r.deep_view() == batch_text(dispatches.deep_view()),
{
    if dispatches.len() == 0 {
        return None;
    }
    let ghost views = dispatches.deep_view();
    let mut parts: Vec<String> = Vec::new();
    let mut i: usize = 0;
    while i < dispatches.len()
        invariant
            i <= dispatches.len(),
            views == dispatches.deep_view(),
            parts.len() == i,
            forall|k: int| 0 <= k < i ==> (#[trigger] parts@[k])@ == dispatch_text(views[k]),
        decreases dispatches.len() - i,
    {
        assert(views[i as int] == dispatches@[i as int]@);
        parts.push(dispatch_request(&dispatches[i]));
        i = i + 1;
    }
    proof {
        assert(parts.deep_view() =~= dispatch_texts(views));
    }
    let mut out = "[[BATCH]]".to_owned();
    out.append(join(&parts, "; ").as_str());
    Some(out)
}

/// Client for the Hyprland control socket.
#[derive(Debug)]
pub struct HyprCtl {
    /// The sockets it talks to.
    pub paths: HyprPaths,
}

/// The version tag in a reply to `j/version`, if there is one.
pub open spec fn tag_of(reply: JsonView) -> Option<Seq<char>> {
    match reply.member("tag"@) {
        Some(tag) => tag.as_text(),
        None => None,
    }
}

/// The version tag in a reply to `j/version`, if there is one.
pub fn version_tag(reply: &Json) -> (r: Option<String>)
    ensures
        r.deep_view() == tag_of(reply@),
{
    match reply.get("tag") {
        Some(tag) => match tag.as_str() {
            Some(text) => Some(text.to_owned()),
            None => None,
        },
        None => None,
    }
}

impl HyprCtl {
    /// Create a client for the given socket paths.
    pub fn new(paths: HyprPaths) -> (r: Self)
        ensures
            r.paths@ == paths@,
    {
        HyprCtl { paths }
    }

    /// Hyprland replies `ok` (batches: one `ok` per command) on success and an
    /// error description otherwise.
    pub fn check_text(request: &str, reply: &str) -> (r: Result<(), HyprError>)
        ensures
            r is Ok <==> is_ok_reply(reply@),
            r matches Err(error) ==> error@ == (HyprErrorView::DispatchFailed {
                request: request@,
                reply: reply@,
            }),
    {
        proof {
            reveal_strlit("\n");
        }
        let lines = replace_char(reply, ';', "\n");
        let parts = split(lines.as_str(), "\n");
        let ghost views = reply_parts(reply@);
        let mut i: usize = 0;
        while i < parts.len()
            invariant
                i <= parts.len(),
                views == parts.deep_view(),
                views == reply_parts(reply@),
                forall|k: int| 0 <= k < i ==> is_fine(#[trigger] views[k]),
            decreases parts.len() - i,
        {
            assert(views[i as int] == parts@[i as int]@);
            let part = trim(parts[i].as_str());
            if !is_empty(part.as_str()) && !same(part.as_str(), "ok") {
                assert(!is_fine(views[i as int]));
                return Err(
                    HyprError::DispatchFailed {
                        request: request.to_owned(),
                        reply: reply.to_owned(),
                    },
                );
            }
            i = i + 1;
        }
        Ok(())
    }

    /// Hyprland replies `ok` (batches: one `ok` per command) on success and an
    /// error description otherwise.
    pub fn check_ok(request: &str, reply: &[u8]) -> (r: Result<(), HyprError>)
        ensures
            r is Ok <==> is_ok_reply(utf8_text(reply@)),
            r matches Err(error) ==> error@ == (HyprErrorView::DispatchFailed {
                request: request@,
                reply: utf8_text(reply@),
            }),
    {
        let text = from_utf8_lossy(reply);
        Self::check_text(request, text.as_str())
    }
}

// ---- laws ---------------------------------------------------------------------------------

/// A workspace is named to the compositor by its name behind `name:`; a window
/// by its address behind `address:`. A window that is moved to a workspace is
/// named behind the comma.
pub proof fn law_dispatches_name_their_objects(
    name: Seq<char>,
    address: Seq<char>,
    monitor: Seq<char>,
)
    ensures
        ({
            let target = WsTargetView::Name(name);
            &&& DispatchView::Workspace(target).rendered() == "workspace name:"@ + name
            &&& DispatchView::MoveToWorkspaceSilent { target, address }.rendered()
                == "movetoworkspacesilent name:"@ + name + ",address:"@ + address
            &&& DispatchView::MoveToWorkspace { target, address }.rendered()
                == "movetoworkspace name:"@ + name + ",address:"@ + address
            &&& DispatchView::FocusWindow(address).rendered() == "focuswindow address:"@ + address
            &&& DispatchView::CloseWindow(address).rendered() == "closewindow address:"@ + address
            &&& DispatchView::SetFloating(address).rendered() == "setfloating address:"@ + address
            &&& DispatchView::SetTiled(address).rendered() == "settiled address:"@ + address
            &&& DispatchView::MoveWorkspaceToMonitor { workspace: target, monitor }.rendered()
                == "moveworkspacetomonitor name:"@ + name + " "@ + monitor
        }),
{
    reveal_strlit("name:");
    reveal_strlit("address:");
    reveal_strlit(",");
    reveal_strlit(",address:");
    reveal_strlit("workspace ");
    reveal_strlit("workspace name:");
    reveal_strlit("movetoworkspacesilent ");
    reveal_strlit("movetoworkspacesilent name:");
    reveal_strlit("movetoworkspace ");
    reveal_strlit("movetoworkspace name:");
    reveal_strlit("focuswindow ");
    reveal_strlit("focuswindow address:");
    reveal_strlit("closewindow ");
    reveal_strlit("closewindow address:");
    reveal_strlit("setfloating ");
    reveal_strlit("setfloating address:");
    reveal_strlit("settiled ");
    reveal_strlit("settiled address:");
    reveal_strlit("moveworkspacetomonitor ");
    reveal_strlit("moveworkspacetomonitor name:");
    reveal_strlit(" ");
    let target = WsTargetView::Name(name);
    assert(DispatchView::Workspace(target).rendered() =~= "workspace name:"@ + name);
    assert(DispatchView::MoveToWorkspaceSilent { target, address }.rendered()
        =~= "movetoworkspacesilent name:"@ + name + ",address:"@ + address);
    assert(DispatchView::MoveToWorkspace { target, address }.rendered()
        =~= "movetoworkspace name:"@ + name + ",address:"@ + address);
    assert(DispatchView::FocusWindow(address).rendered() =~= "focuswindow address:"@ + address);
    assert(DispatchView::CloseWindow(address).rendered() =~= "closewindow address:"@ + address);
    assert(DispatchView::SetFloating(address).rendered() =~= "setfloating address:"@ + address);
    assert(DispatchView::SetTiled(address).rendered() =~= "settiled address:"@ + address);
    assert(DispatchView::MoveWorkspaceToMonitor { workspace: target, monitor }.rendered()
        =~= "moveworkspacetomonitor name:"@ + name + " "@ + monitor);
}

/// Moving and resizing tell both numbers, across first, and the window; a
/// direction is told by its letter; a command runs under its rules, if it has
/// any, and else as it is.
pub proof fn law_dispatches_tell_their_numbers(
    address: Seq<char>,
    a: i32,
    b: i32,
    rule: Seq<char>,
    command: Seq<char>,
)
    ensures
        ({
            let pair = decimal_int(a as int) + " "@ + decimal_int(b as int);
            &&& DispatchView::MoveWindowPixelExact { address, x: a, y: b }.rendered()
                == "movewindowpixel exact "@ + pair + ",address:"@ + address
            &&& DispatchView::ResizeWindowPixelExact { address, w: a, h: b }.rendered()
                == "resizewindowpixel exact "@ + pair + ",address:"@ + address
            &&& DispatchView::ResizeActiveExact { w: a, h: b }.rendered() == "resizeactive exact "@
                + pair
            &&& DispatchView::SwapWindow(MoveDir::Left).rendered() == "swapwindow l"@
            &&& DispatchView::SwapWindow(MoveDir::Right).rendered() == "swapwindow r"@
            &&& DispatchView::MoveWindowDir(MoveDir::Up).rendered() == "movewindow u"@
            &&& DispatchView::MoveWindowDir(MoveDir::Down).rendered() == "movewindow d"@
            &&& DispatchView::Exec { rules: seq![], command }.rendered() == "exec "@ + command
            &&& DispatchView::Exec { rules: seq![rule], command }.rendered() == "exec ["@ + rule
                + "] "@ + command
        }),
{
    reveal_strlit(",");
    reveal_strlit("address:");
    reveal_strlit(",address:");
    reveal_strlit("swapwindow ");
    reveal_strlit("swapwindow l");
    reveal_strlit("swapwindow r");
    reveal_strlit("movewindow ");
    reveal_strlit("movewindow u");
    reveal_strlit("movewindow d");
    reveal_strlit("l");
    reveal_strlit("r");
    reveal_strlit("u");
    reveal_strlit("d");
    let pair = decimal_int(a as int) + " "@ + decimal_int(b as int);
    assert(DispatchView::MoveWindowPixelExact { address, x: a, y: b }.rendered()
        =~= "movewindowpixel exact "@ + pair + ",address:"@ + address);
    assert(DispatchView::ResizeWindowPixelExact { address, w: a, h: b }.rendered()
        =~= "resizewindowpixel exact "@ + pair + ",address:"@ + address);
    assert(DispatchView::ResizeActiveExact { w: a, h: b }.rendered() =~= "resizeactive exact "@
        + pair);
    assert(DispatchView::SwapWindow(MoveDir::Left).rendered() =~= "swapwindow l"@);
    assert(DispatchView::SwapWindow(MoveDir::Right).rendered() =~= "swapwindow r"@);
    assert(DispatchView::MoveWindowDir(MoveDir::Up).rendered() =~= "movewindow u"@);
    assert(DispatchView::MoveWindowDir(MoveDir::Down).rendered() =~= "movewindow d"@);
    assert(joined(seq![rule], "; "@) == rule);
}

/// A batch tells every dispatch in order, each as it would be told alone; one
/// dispatch more stands behind the others.
pub proof fn law_batches_tell_every_dispatch(
    dispatches: Seq<DispatchView>,
    more: DispatchView,
)
    ensures
        batch_text(seq![]) is None,
        batch_text(seq![more]) == Some("[[BATCH]]"@ + ("dispatch "@ + more.rendered())),
        dispatches.len() > 0 ==> batch_text(dispatches) is Some && batch_text(
            dispatches.push(more),
        ) == Some(batch_text(dispatches)->0 + "; "@ + ("dispatch "@ + more.rendered())),
{
    assert(dispatch_texts(seq![more]) =~= seq![dispatch_text(more)]);
    reveal_with_fuel(joined, 2);
    if dispatches.len() > 0 {
        let texts = dispatch_texts(dispatches);
        let longer = dispatch_texts(dispatches.push(more));
        assert(longer =~= texts.push(dispatch_text(more)));
        assert(longer.drop_last() =~= texts);
        assert("[[BATCH]]"@ + joined(longer, "; "@) =~= "[[BATCH]]"@ + joined(texts, "; "@) + "; "@
            + dispatch_text(more));
    }
}

/// One failure fails the whole reply: a reply of several parts, between line
/// breaks or semicolons, is fine exactly if each part is, and a part alone if
/// it is blank or `ok`.
pub proof fn law_one_failure_fails_the_reply(a: Seq<char>, b: Seq<char>)
    ensures
        is_ok_reply(a + seq!['\n'] + b) <==> is_ok_reply(a) && is_ok_reply(b),
        is_ok_reply(a + seq![';'] + b) <==> is_ok_reply(a) && is_ok_reply(b),
        !a.contains('\n') && !a.contains(';') ==> (is_ok_reply(a) <==> trimmed(a).len() == 0
            || trimmed(a) == "ok"@),
{
    reveal_strlit("\n");
    assert("\n"@ =~= seq!['\n']);
    lemma_divided_reply(a, '\n', b);
    lemma_divided_reply(a, ';', b);
    if !a.contains('\n') && !a.contains(';') {
        law_replacing_goes_place_by_place(a, seq![], ';', "\n"@);
        lemma_find_from(a, "\n"@, 0);
        if let Some(i) = find_from(a, "\n"@, 0) {
            assert(a.subrange(i, i + 1)[0] == a[i]);
        }
        assert(reply_parts(a) =~= seq![a]);
        if is_ok_reply(a) {
            assert(is_fine(reply_parts(a)[0]));
        }
    }
}

proof fn lemma_divided_reply(a: Seq<char>, gap: char, b: Seq<char>)
    requires
        gap == '\n' || gap == ';',
        "\n"@ == seq!['\n'],
    ensures
        is_ok_reply(a + seq![gap] + b) <==> is_ok_reply(a) && is_ok_reply(b),
{
    let line = "\n"@;
    let all = a + seq![gap] + b;
    law_replacing_goes_place_by_place(a + seq![gap], b, ';', line);
    law_replacing_goes_place_by_place(a, seq![gap], ';', line);
    if gap == '\n' {
        assert(!seq![gap].contains(';'));
        law_replacing_goes_place_by_place(seq![gap], seq![], ';', line);
    }
    assert(replaced(seq![gap], ';', line) == line);
    let x = replaced(a, ';', line);
    let y = replaced(b, ';', line);
    assert(replaced(all, ';', line) =~= x + seq!['\n'] + y);
    law_separators_divide_fields(x, '\n', y);
    let parts = reply_parts(all);
    let first = reply_parts(a);
    let second = reply_parts(b);
    assert(parts == first + second);
    if is_ok_reply(all) {
        assert forall|i: int| 0 <= i < first.len() implies is_fine(#[trigger] first[i]) by {
            assert(parts[i] == first[i]);
        }
        assert forall|i: int| 0 <= i < second.len() implies is_fine(#[trigger] second[i]) by {
            assert(parts[first.len() + i] == second[i]);
        }
    }
    if is_ok_reply(a) && is_ok_reply(b) {
        assert forall|i: int| 0 <= i < parts.len() implies is_fine(#[trigger] parts[i]) by {
            if i < first.len() {
                assert(parts[i] == first[i]);
            } else {
                assert(parts[i] == second[i - first.len()]);
            }
        }
    }
}

} // verus!
