//! What the daemon needs to start.

use vstd::prelude::*;

use crate::domain::config::Config;
use crate::hypr::socket::HyprPaths;
use crate::paths::join_path;
use crate::paths::joined_path;

verus! {

/// Everything the daemon needs to start.
#[derive(Debug)]
pub struct AppOptions {
    /// Hyprland socket paths.
    pub hypr_paths: HyprPaths,
    /// Directory for the daemon socket and lock file (created, mode 0700).
    pub runtime_dir: String,
    /// Parsed configuration.
    pub config: Config,
    /// Config directory holding `config.toml`/`rules.toml`; enables rules
    /// loading and `config.reload`. `None` disables both.
    pub config_dir: Option<String>,
    /// State directory for projects/runtime persistence. `None` disables it.
    pub state_dir: Option<String>,
}

impl AppOptions {
    /// The file that a running daemon holds locked.
    pub fn lock_path(&self) -> (r: String)
        ensures
            r@ == joined_path(self.runtime_dir@, "daemon.lock"@),
    {
        join_path(self.runtime_dir.as_str(), "daemon.lock")
    }

    /// The socket that clients connect to.
    pub fn socket_path(&self) -> (r: String)
        ensures
            r@ == joined_path(self.runtime_dir@, "daemon.sock"@),
    {
        join_path(self.runtime_dir.as_str(), "daemon.sock")
    }
}

} // verus!
