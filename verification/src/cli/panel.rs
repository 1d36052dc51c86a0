//! `workspace panel enable|disable|status`: wire the panel into the Omarchy
//! desktop and remove it again cleanly.
//!
//! Everything written is confined to marked blocks and dedicated files so
//! `disable` can reverse it surgically: the autostart entry stands in a marked
//! block of `~/.config/hypr/autostart.conf`, the layer rules in
//! `~/.local/state/omarchy/toggles/hypr/workspace-panel.conf`.

use vstd::prelude::*;

use crate::cli::blocks::BLOCK_BEGIN;
use crate::cli::blocks::has_block;
use crate::hypr::ctl::Dispatch;
use crate::hypr::ctl::DispatchView;
use crate::paths::join_path;
use crate::paths::joined_path;
use crate::text::{finishes, holds};

verus! {

/// The layer rules of the panel.
pub const LAYER_RULES: &'static str = "# Managed by `workspace panel enable`; removed by `workspace panel disable`.\nlayerrule = blur on, match:namespace workspace-panel\nlayerrule = ignore_alpha 0.2, match:namespace workspace-panel\n";

/// The file that holds the autostart entry.
pub fn autostart_path(home: Option<&str>) -> (r: Option<String>)
    ensures
        r.deep_view() == (match home {
            Some(home) => Some(joined_path(home@, ".config/hypr/autostart.conf"@)),
            None => None,
        }),
{
    match home {
        Some(home) => Some(join_path(home, ".config/hypr/autostart.conf")),
        None => None,
    }
}

/// The file that holds the layer rules.
pub fn toggles_path(home: Option<&str>) -> (r: Option<String>)
    ensures
        r.deep_view() == (match home {
            Some(home) => Some(
                joined_path(home@, ".local/state/omarchy/toggles/hypr/workspace-panel.conf"@),
            ),
            None => None,
        }),
{
    match home {
        Some(home) => Some(
            join_path(home, ".local/state/omarchy/toggles/hypr/workspace-panel.conf"),
        ),
        None => None,
    }
}

/// The panel binary: the sibling of the running binary when there is one, else
/// the bare name.
pub fn panel_command(sibling: Option<String>) -> (r: String)
    ensures
        r@ == (match sibling {
            Some(path) => path@,
            None => "workspace-panel"@,
        }),
{
    match sibling {
        Some(path) => path,
        None => "workspace-panel".to_owned(),
    }
}

/// The autostart entry that starts the panel.
pub fn autostart_entry(command: &str) -> (r: String)
    ensures
        r@ == "exec-once = uwsm-app -- "@ + command@,
{
    let mut out = "exec-once = uwsm-app -- ".to_owned();
    out.append(command);
    out
}

/// The dispatch that starts the panel right away; there is none when it is
/// running.
pub fn start_dispatch(command: &str, running: bool) -> (r: Option<Dispatch>)
    ensures
        r.deep_view() == (if running {
            None
        } else {
            Some(DispatchView::Exec { rules: seq![], command: "uwsm-app -- "@ + command@ })
        }),
{
    if running {
        return None;
    }
    let mut line = "uwsm-app -- ".to_owned();
    line.append(command);
    let rules: Vec<String> = Vec::new();
    assert(rules.deep_view() =~= seq![]);
    Some(Dispatch::Exec { rules, command: line })
}

/// What `enable` says of the autostart entry.
pub fn autostart_note(changed: bool, path: &str) -> (r: String)
    ensures
        r@ == (if changed {
            "autostart entry added to "@ + path@
        } else {
            "autostart entry already present"@
        }),
{
    if changed {
        let mut out = "autostart entry added to ".to_owned();
        out.append(path);
        out
    } else {
        "autostart entry already present".to_owned()
    }
}

/// The lines of `workspace panel status`.
pub open spec fn panel_status(
    autostart: Option<Seq<char>>,
    rules_present: bool,
    running: bool,
) -> Seq<Seq<char>> {
    let entered = autostart matches Some(text) && holds(text, BLOCK_BEGIN@);
    seq![
        "autostart entry   "@ + (if entered {
            "present"@
        } else {
            "absent"@
        }),
        "layer rules       "@ + (if rules_present {
            "present"@
        } else {
            "absent"@
        }),
        "panel process     "@ + (if running {
            "running"@
        } else {
            "not running"@
        }),
    ]
}

fn state_line(label: &str, state: &str) -> (r: String)
    ensures
        r@ == label@ + state@,
{
    let mut out = label.to_owned();
    out.append(state);
    out
}

/// `workspace panel status`, from the text of the autostart file, whether the
/// layer rules are there and whether the panel runs.
pub fn panel_status_lines(autostart: &Option<String>, rules_present: bool, running: bool) -> (r:
    Vec<String>)
    ensures
        r.deep_view() == panel_status(autostart.deep_view(), rules_present, running),
{
    let entered = match autostart {
        Some(text) => has_block(text.as_str()),
        None => false,
    };
    let mut out: Vec<String> = Vec::new();
    out.push(
        state_line(
            "autostart entry   ",
            if entered {
                "present"
            } else {
                "absent"
            },
        ),
    );
    out.push(
        state_line(
            "layer rules       ",
            if rules_present {
                "present"
            } else {
                "absent"
            },
        ),
    );
    out.push(
        state_line(
            "panel process     ",
            if running {
                "running"
            } else {
                "not running"
            },
        ),
    );
    assert(out.deep_view() =~= panel_status(autostart.deep_view(), rules_present, running));
    out
}

/// The state of the panel is told line by line: whether the autostart file
/// holds the entry, whether the layer rules are there, and whether the panel
/// runs.
pub proof fn law_panel_status_tells_each_state(
    autostart: Option<Seq<char>>,
    rules_present: bool,
    running: bool,
)
    ensures
        ({
            let lines = panel_status(autostart, rules_present, running);
            &&& lines.len() == 3
            &&& finishes(lines[0], "present"@) <==> autostart is Some && holds(
                autostart->0,
                BLOCK_BEGIN@,
            )
            &&& finishes(lines[1], "present"@) <==> rules_present
            &&& finishes(lines[2], "not running"@) <==> !running
            &&& finishes(lines[2], "running"@)
        }),
{
    reveal_strlit("autostart entry   ");
    reveal_strlit("layer rules       ");
    reveal_strlit("panel process     ");
    reveal_strlit("present");
    reveal_strlit("absent");
    reveal_strlit("running");
    reveal_strlit("not running");
    let lines = panel_status(autostart, rules_present, running);
    lemma_ends(lines[0], "autostart entry   "@, "present"@);
    lemma_ends(lines[0], "autostart entry   "@, "absent"@);
    lemma_ends(lines[1], "layer rules       "@, "present"@);
    lemma_ends(lines[1], "layer rules       "@, "absent"@);
    lemma_ends(lines[2], "panel process     "@, "running"@);
    lemma_ends(lines[2], "panel process     "@, "not running"@);
    let n = lines[2].len() as int;
    assert(lines[2].skip(n - 7) =~= "running"@);
    if lines[0].last() == 't' && finishes(lines[0], "absent"@) {
        assert(lines[0].skip(lines[0].len() - 6)[1] == 'b');
    }
    if finishes(lines[0], "present"@) {
        assert(lines[0].skip(lines[0].len() - 7)[2] == 'e');
    }
    if finishes(lines[1], "absent"@) {
        assert(lines[1].skip(lines[1].len() - 6)[1] == 'b');
    }
    if finishes(lines[1], "present"@) {
        assert(lines[1].skip(lines[1].len() - 7)[2] == 'e');
    }
    if running && finishes(lines[2], "not running"@) {
        assert(lines[2].skip(n - 11)[0] == 'n');
        assert(lines[2][n - 11] == ' ');
    }
}

proof fn lemma_ends(line: Seq<char>, label: Seq<char>, state: Seq<char>)
    ensures
        line == label + state ==> finishes(line, state),
{
    if line == label + state {
        assert(line.skip(line.len() - state.len()) =~= state);
    }
}

} // verus!
