//! What is kept on disk: where it lives, which files count, and what they
//! hold.
//!
//! Layout:
//! - `~/.config/omarchy-workspaces/{config.toml, rules.toml}`
//! - `~/.local/state/omarchy-workspaces/{projects/<slug>.toml, runtime.json, logs/}`

pub mod locations;
pub mod migrations;
pub mod projects;
pub mod runtime;
