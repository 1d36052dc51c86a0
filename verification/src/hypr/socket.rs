//! Discovery of the per-instance Hyprland socket paths.

use vstd::prelude::*;

use crate::hypr::error::HyprError;
use crate::hypr::error::HyprErrorView;
use crate::paths::join_path;
use crate::paths::joined_path;

verus! {

/// Locations of the two Hyprland IPC sockets.
///
/// All connections flow through this struct so tests can point clients at a
/// fake server instead of the live compositor.
#[derive(Debug)]
pub struct HyprPaths {
    /// Request/response socket (`.socket.sock`).
    pub ctl: String,
    /// Event stream socket (`.socket2.sock`).
    pub events: String,
}

/// What a [`HyprPaths`] holds.
pub struct HyprPathsView {
    /// See [`HyprPaths::ctl`].
    pub ctl: Seq<char>,
    /// See [`HyprPaths::events`].
    pub events: Seq<char>,
}

impl View for HyprPaths {
    type V = HyprPathsView;

    open spec fn view(&self) -> HyprPathsView {
        HyprPathsView { ctl: self.ctl@, events: self.events@ }
    }
}

impl Clone for HyprPaths {
    fn clone(&self) -> (r: Self)
        ensures
            r@ == self@,
    {
        HyprPaths { ctl: self.ctl.clone(), events: self.events.clone() }
    }
}

/// The socket paths inside an instance directory.
pub open spec fn sockets_in(dir: Seq<char>) -> HyprPathsView {
    HyprPathsView {
        ctl: joined_path(dir, ".socket.sock"@),
        events: joined_path(dir, ".socket2.sock"@),
    }
}

/// The instance directory of a Hyprland session.
pub open spec fn instance_dir(runtime_dir: Seq<char>, signature: Seq<char>) -> Seq<char> {
    joined_path(joined_path(runtime_dir, "hypr"@), signature)
}

impl HyprPaths {
    /// Explicit paths (used by tests and the fake server).
    pub fn new(ctl: String, events: String) -> (r: Self)
        ensures
            r@ == (HyprPathsView { ctl: ctl@, events: events@ }),
    {
        HyprPaths { ctl, events }
    }

    /// Paths inside an instance directory (`$XDG_RUNTIME_DIR/hypr/<signature>`).
    pub fn in_dir(dir: &str) -> (r: Self)
        ensures
            r@ == sockets_in(dir@),
    {
        HyprPaths { ctl: join_path(dir, ".socket.sock"), events: join_path(dir, ".socket2.sock") }
    }

    /// Discover the live instance from the values of `XDG_RUNTIME_DIR` and
    /// `HYPRLAND_INSTANCE_SIGNATURE`.
    pub fn from_env(runtime_dir: Option<&str>, signature: Option<&str>) -> (r: Result<
        Self,
        HyprError,
    >)
        ensures
            match r {
                Ok(paths) => runtime_dir matches Some(dir) && signature matches Some(signature)
                    && paths@ == sockets_in(instance_dir(dir@, signature@)),
                Err(error) => if runtime_dir is None {
                    error@ == HyprErrorView::MissingEnv("XDG_RUNTIME_DIR"@)
                } else {
                    signature is None && error@ == HyprErrorView::MissingEnv(
                        "HYPRLAND_INSTANCE_SIGNATURE"@,
                    )
                },
            },
    {
        let runtime_dir = match runtime_dir {
            Some(dir) => dir,
            None => {
                return Err(HyprError::MissingEnv("XDG_RUNTIME_DIR".to_owned()));
            },
        };
        let signature = match signature {
            Some(signature) => signature,
            None => {
                return Err(HyprError::MissingEnv("HYPRLAND_INSTANCE_SIGNATURE".to_owned()));
            },
        };
        let root = join_path(runtime_dir, "hypr");
        let dir = join_path(root.as_str(), signature);
        Ok(Self::in_dir(dir.as_str()))
    }
}

} // verus!
