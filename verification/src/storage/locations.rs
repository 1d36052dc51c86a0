//! Canonical on-disk locations, following the XDG base directory spec and
//! Omarchy conventions. Everything else gets paths from here.
//!
//! The functions take the values of the environment variables that they
//! depend on.

use vstd::prelude::*;

use crate::paths::join_path;
use crate::paths::joined_path;
use crate::text::is_empty;
use crate::text::{begins, finishes};

verus! {

/// Application directory name used under each XDG base directory.
pub const APP_DIR: &'static str = "omarchy-workspaces";

/// The application directory under an XDG base directory: the one that the
/// variable names unless it is empty, else the fallback in the home directory.
pub open spec fn xdg_location(
    dir: Option<&str>,
    home: Option<&str>,
    home_fallback: Seq<char>,
) -> Option<Seq<char>> {
    match (dir, home) {
        (Some(dir), _) if dir@.len() > 0 => Some(joined_path(dir@, APP_DIR@)),
        (_, Some(home)) => Some(joined_path(joined_path(home@, home_fallback), APP_DIR@)),
        _ => None,
    }
}

/// The application directory under the runtime directory, if there is one.
pub open spec fn runtime_location(dir: Option<&str>) -> Option<Seq<char>> {
    match dir {
        Some(dir) if dir@.len() > 0 => Some(joined_path(dir@, APP_DIR@)),
        _ => None,
    }
}

/// A file in a directory, if there is one.
pub open spec fn file_in(dir: Option<Seq<char>>, name: Seq<char>) -> Option<Seq<char>> {
    match dir {
        Some(dir) => Some(joined_path(dir, name)),
        None => None,
    }
}

fn xdg_dir(dir: Option<&str>, home: Option<&str>, home_fallback: &str) -> (r: Option<String>)
    ensures
        r.deep_view() == xdg_location(dir, home, home_fallback@),
{
    if let Some(dir) = dir {
        if !is_empty(dir) {
            return Some(join_path(dir, APP_DIR));
        }
    }
    match home {
        Some(home) => Some(join_path(join_path(home, home_fallback).as_str(), APP_DIR)),
        None => None,
    }
}

fn file(dir: Option<String>, name: &str) -> (r: Option<String>)
    ensures
        r.deep_view() == file_in(dir.deep_view(), name@),
{
    match dir {
        Some(dir) => Some(join_path(dir.as_str(), name)),
        None => None,
    }
}

/// Config directory: `~/.config/omarchy-workspaces` (holds `config.toml`,
/// `rules.toml`), from `XDG_CONFIG_HOME` and `HOME`.
pub fn config_dir(xdg_config_home: Option<&str>, home: Option<&str>) -> (r: Option<String>)
    ensures
        r.deep_view() == xdg_location(xdg_config_home, home, ".config"@),
{
    xdg_dir(xdg_config_home, home, ".config")
}

/// State directory: `~/.local/state/omarchy-workspaces` (projects,
/// runtime.json, logs), from `XDG_STATE_HOME` and `HOME`.
pub fn state_dir(xdg_state_home: Option<&str>, home: Option<&str>) -> (r: Option<String>)
    ensures
        r.deep_view() == xdg_location(xdg_state_home, home, ".local/state"@),
{
    xdg_dir(xdg_state_home, home, ".local/state")
}

/// Runtime directory: `$XDG_RUNTIME_DIR/omarchy-workspaces` (daemon socket and
/// lock).
pub fn runtime_dir(xdg_runtime_dir: Option<&str>) -> (r: Option<String>)
    ensures
        r.deep_view() == runtime_location(xdg_runtime_dir),
{
    if let Some(dir) = xdg_runtime_dir {
        if !is_empty(dir) {
            return Some(join_path(dir, APP_DIR));
        }
    }
    None
}

/// Path of the daemon's IPC socket.
pub fn daemon_socket(xdg_runtime_dir: Option<&str>) -> (r: Option<String>)
    ensures
        r.deep_view() == file_in(runtime_location(xdg_runtime_dir), "daemon.sock"@),
{
    file(runtime_dir(xdg_runtime_dir), "daemon.sock")
}

/// Path of the daemon's config file.
pub fn config_file(xdg_config_home: Option<&str>, home: Option<&str>) -> (r: Option<String>)
    ensures
        r.deep_view() == file_in(
            xdg_location(xdg_config_home, home, ".config"@),
            "config.toml"@,
        ),
{
    file(config_dir(xdg_config_home, home), "config.toml")
}

/// Path of the rules file.
pub fn rules_file(xdg_config_home: Option<&str>, home: Option<&str>) -> (r: Option<String>)
    ensures
        r.deep_view() == file_in(xdg_location(xdg_config_home, home, ".config"@), "rules.toml"@),
{
    file(config_dir(xdg_config_home, home), "rules.toml")
}

/// A directory that the environment names comes first, whatever the home
/// directory is; an empty name counts as none. Every directory is the
/// application's own, and without a name and a home there is none.
pub proof fn law_named_directories_come_first(
    dir: Option<&str>,
    home: Option<&str>,
    other: Option<&str>,
    fallback: Seq<char>,
)
    ensures
        dir is Some && dir->0@.len() > 0 ==> {
            &&& xdg_location(dir, home, fallback) is Some
            &&& xdg_location(dir, home, fallback) == xdg_location(dir, other, fallback)
            &&& begins(xdg_location(dir, home, fallback)->0, dir->0@)
            &&& runtime_location(dir) == xdg_location(dir, home, fallback)
        },
        dir is Some && dir->0@.len() == 0 ==> {
            &&& xdg_location(dir, home, fallback) == xdg_location(None, home, fallback)
            &&& runtime_location(dir) is None
        },
        dir is None ==> {
            &&& xdg_location(dir, home, fallback) is Some <==> home is Some
            &&& runtime_location(dir) is None
        },
        xdg_location(dir, home, fallback) is Some ==> finishes(
            xdg_location(dir, home, fallback)->0,
            APP_DIR@,
        ),
{
    reveal_strlit("omarchy-workspaces");
    reveal_strlit("/");
    if begins(APP_DIR@, "/"@) {
        assert(APP_DIR@.take(1)[0] == '/');
    }
    if let Some(named) = dir {
        lemma_joined(named@, APP_DIR@);
    }
    if let Some(home) = home {
        lemma_joined(joined_path(home@, fallback), APP_DIR@);
    }
}

proof fn lemma_joined(base: Seq<char>, part: Seq<char>)
    ensures
        finishes(joined_path(base, part), part),
        !begins(part, "/"@) ==> begins(joined_path(base, part), base),
{
    let path = joined_path(base, part);
    assert(path.skip(path.len() - part.len()) =~= part);
    if !begins(part, "/"@) {
        assert(path.take(base.len() as int) =~= base);
    }
}

} // verus!
