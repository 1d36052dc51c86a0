//! What the subcommands print, line by line.

use vstd::prelude::*;

use crate::domain::world::TrackedWindow;
use crate::domain::world::TrackedWindowView;
use crate::numbers::render;
use crate::numbers::decimal;
use crate::outside::quote;
use crate::outside::quoted;
use crate::proto::{DaemonStatus, ProjectSummary, RuleMatch, RuleReport, Snapshot};
use crate::proto::{
    DaemonStatusView, ProjectSummaryView, RuleMatchView, RuleReportView, SnapshotView,
};
use crate::text::{chars, position_from, same, text_range};
use crate::text::{begins, find_from, finishes, holds, lemma_find_from};

verus! {

// ---- columns ------------------------------------------------------------------------------

/// A text followed by spaces up to a width.
pub open spec fn padded(s: Seq<char>, width: nat) -> Seq<char>
    decreases width - s.len(),
{
    if s.len() >= width {
        s
    } else {
        padded(s.push(' '), width)
    }
}

/// A text cut to a length, with an ellipsis for what is missing.
pub open spec fn truncated(s: Seq<char>, max: nat) -> Seq<char> {
    if s.len() <= max {
        s
    } else if max == 0 {
        seq!['\u{2026}']
    } else {
        s.take(max - 1).push('\u{2026}')
    }
}

/// Pad a text with spaces up to a width.
pub fn pad(s: &str, width: usize) -> (r: String)
    ensures
        r@ == padded(s@, width as nat),
{
    let mut out = s.to_owned();
    let mut n: usize = chars(s).len();
    while n < width
        invariant
            n == out@.len(),
            padded(s@, width as nat) == padded(out@, width as nat),
        decreases width - n,
    {
        out.push(' ');
        n = n + 1;
    }
    out
}

/// Cut a text to a length, with an ellipsis for what is missing.
pub fn truncate(s: &str, max: usize) -> (r: String)
    ensures
        r@ == truncated(s@, max as nat),
{
    let v = chars(s);
    if v.len() <= max {
        return s.to_owned();
    }
    let keep: usize = if max == 0 {
        0
    } else {
        max - 1
    };
    let mut out = text_range(&v, 0, keep);
    assert(out@ =~= s@.take(keep as int));
    out.push('\u{2026}');
    assert(out@ =~= truncated(s@, max as nat));
    out
}

/// The first characters of a text.
fn first_chars(s: &str, n: usize) -> (r: String)
    ensures
        r@ == (if s@.len() <= n {
            s@
        } else {
            s@.take(n as int)
        }),
{
    let v = chars(s);
    if v.len() <= n {
        return s.to_owned();
    }
    let out = text_range(&v, 0, n);
    assert(out@ =~= s@.take(n as int));
    out
}

// ---- projects -----------------------------------------------------------------------------

/// A row of the project table.
pub open spec fn project_row(
    mark: Seq<char>,
    slug: Seq<char>,
    windows: Seq<char>,
    name: Seq<char>,
) -> Seq<char> {
    padded(mark, 2) + " "@ + padded(slug, 20) + " "@ + padded(windows, 8) + " "@ + name
}

fn project_line(mark: &str, slug: &str, windows: &str, name: &str) -> (r: String)
    ensures
        r@ == project_row(mark@, slug@, windows@, name@),
{
    let mut out = pad(mark, 2);
    out.append(" ");
    out.append(pad(slug, 20).as_str());
    out.append(" ");
    out.append(pad(windows, 8).as_str());
    out.append(" ");
    out.append(name);
    out
}

/// The row of a project.
pub open spec fn summary_row(project: ProjectSummaryView) -> Seq<char> {
    project_row(
        if project.active {
            "*"@
        } else {
            ""@
        },
        project.slug,
        decimal(project.windows as nat),
        project.name,
    )
}

/// The project table, or a hint when there are no projects.
pub open spec fn project_table(projects: Seq<ProjectSummaryView>) -> Seq<Seq<char>> {
    if projects.len() == 0 {
        seq!["no projects yet \u{2014} create one with `workspace create <name>`"@]
    } else {
        seq![project_row(""@, "SLUG"@, "WINDOWS"@, "NAME"@)] + Seq::new(
            projects.len(),
            |i: int| summary_row(projects[i]),
        )
    }
}

/// `workspace list` — project table.
pub fn list_lines(projects: &Vec<ProjectSummary>) -> (r: Vec<String>)
    ensures
        r.deep_view() == project_table(projects.deep_view()),
{
    let ghost views = projects.deep_view();
    let mut out: Vec<String> = Vec::new();
    if projects.len() == 0 {
        out.push(
            "no projects yet \u{2014} create one with `workspace create <name>`".to_owned(),
        );
        assert(out.deep_view() =~= project_table(views));
        return out;
    }
    out.push(project_line("", "SLUG", "WINDOWS", "NAME"));
    let mut i: usize = 0;
    while i < projects.len()
        invariant
            i <= projects.len(),
            views == projects.deep_view(),
            out.len() == i + 1,
            out@[0]@ == project_row(""@, "SLUG"@, "WINDOWS"@, "NAME"@),
            forall|k: int| 0 <= k < i ==> (#[trigger] out@[k + 1])@ == summary_row(views[k]),
        decreases projects.len() - i,
    {
        assert(views[i as int] == projects@[i as int]@);
        let project = &projects[i];
        let mark = if project.active {
            "*"
        } else {
            ""
        };
        out.push(
            project_line(
                mark,
                project.slug.as_str(),
                render(project.windows as u64).as_str(),
                project.name.as_str(),
            ),
        );
        i = i + 1;
    }
    proof {
        let table = project_table(views);
        assert forall|k: int| 0 <= k < out.len() implies #[trigger] out.deep_view()[k]
            == table[k] by {
            if k > 0 {
                assert(out@[(k - 1) + 1]@ == summary_row(views[k - 1]));
            }
        }
        assert(out.deep_view() =~= table);
    }
    out
}

/// What `workspace create` says.
pub open spec fn created_text(summary: ProjectSummaryView) -> Seq<char> {
    "created project '"@ + summary.name + "' ("@ + summary.slug + ") on workspace name:"@
        + summary.workspace
}

/// What `workspace create` says.
pub fn created_line(summary: &ProjectSummary) -> (r: String)
    ensures
        r@ == created_text(summary@),
{
    let mut out = "created project '".to_owned();
    out.append(summary.name.as_str());
    out.append("' (");
    out.append(summary.slug.as_str());
    out.append(") on workspace name:");
    out.append(summary.workspace.as_str());
    out
}

/// What a subcommand says that names a project by name and slug.
fn named_line(before: &str, summary: &ProjectSummary) -> (r: String)
    ensures
        r@ == before@ + " '"@ + summary@.name + "' ("@ + summary@.slug + ")"@,
{
    let mut out = before.to_owned();
    out.append(" '");
    out.append(summary.name.as_str());
    out.append("' (");
    out.append(summary.slug.as_str());
    out.append(")");
    out
}

/// What `workspace switch` says.
pub fn switched_line(summary: &ProjectSummary) -> (r: String)
    ensures
        r@ == "switched to"@ + " '"@ + summary@.name + "' ("@ + summary@.slug + ")"@,
{
    named_line("switched to", summary)
}

/// What `workspace duplicate` says.
pub fn duplicated_line(summary: &ProjectSummary) -> (r: String)
    ensures
        r@ == "duplicated as"@ + " '"@ + summary@.name + "' ("@ + summary@.slug + ")"@,
{
    named_line("duplicated as", summary)
}

/// What `workspace rename` says.
pub fn renamed_line(summary: &ProjectSummary) -> (r: String)
    ensures
        r@ == "renamed '"@ + summary@.slug + "' to '"@ + summary@.name + "'"@,
{
    let mut out = "renamed '".to_owned();
    out.append(summary.slug.as_str());
    out.append("' to '");
    out.append(summary.name.as_str());
    out.append("'");
    out
}

/// What `workspace import` says.
pub fn imported_line(summary: &ProjectSummary) -> (r: String)
    ensures
        r@ == "imported '"@ + summary@.name + "' as "@ + summary@.slug,
{
    let mut out = "imported '".to_owned();
    out.append(summary.name.as_str());
    out.append("' as ");
    out.append(summary.slug.as_str());
    out
}

/// What `workspace assign` says.
pub fn assigned_line(address: &str, project: &str) -> (r: String)
    ensures
        r@ == "assigned "@ + address@ + " to "@ + project@,
{
    let mut out = "assigned ".to_owned();
    out.append(address);
    out.append(" to ");
    out.append(project);
    out
}

/// A count with its noun, in the plural unless it is one.
pub open spec fn counted(n: u64, noun: Seq<char>) -> Seq<char> {
    decimal(n as nat) + " "@ + noun + (if n == 1 {
        ""@
    } else {
        "s"@
    })
}

fn count_line(verb: &str, name: &str, n: u64, noun: &str) -> (r: String)
    ensures
        r@ == verb@ + " '"@ + name@ + "' ("@ + counted(n, noun@) + ")"@,
{
    let mut out = verb.to_owned();
    out.append(" '");
    out.append(name);
    out.append("' (");
    let ghost before = out@;
    let mut count = render(n);
    count.append(" ");
    count.append(noun);
    if n != 1 {
        count.append("s");
    } else {
        assert(count@ + ""@ =~= count@) by {
            reveal_strlit("");
        }
    }
    assert(count@ == counted(n, noun@));
    out.append(count.as_str());
    out.append(")");
    out
}

/// What `workspace save` says.
pub fn saved_line(project: &str, slots: u64) -> (r: String)
    ensures
        r@ == "saved"@ + " '"@ + project@ + "' ("@ + counted(slots, "app slot"@) + ")"@,
{
    count_line("saved", project, slots, "app slot")
}

/// What `workspace close` says.
pub fn closed_line(project: &str, windows: u64) -> (r: String)
    ensures
        r@ == "closed"@ + " '"@ + project@ + "' ("@ + counted(windows, "window"@) + ")"@,
{
    count_line("closed", project, windows, "window")
}

/// What `workspace daemon reload` says.
pub fn reloaded_line(rules: u64) -> (r: String)
    ensures
        r@ == "reloaded ("@ + decimal(rules as nat) + " rules active)"@,
{
    let mut out = "reloaded (".to_owned();
    out.append(render(rules).as_str());
    out.append(" rules active)");
    out
}

// ---- status -------------------------------------------------------------------------------

/// The lines of the daemon summary.
pub open spec fn status_text(status: DaemonStatusView) -> Seq<Seq<char>> {
    seq!["daemon      v"@ + status.version + " (up "@ + decimal(status.uptime_s as nat) + "s)"@]
        + (match status.update_available {
        Some(update) => seq![
            "update      v"@ + update + " available \u{2014} install via pacman -Syu"@,
        ],
        None => seq![],
    }) + seq![
        "hyprland    "@ + (if status.hypr_connected {
            "connected"@
        } else {
            "DISCONNECTED"@
        }),
        match status.active_project {
            Some(slug) => "project     "@ + slug,
            None => "project     (none active)"@,
        },
        "windows     "@ + decimal(status.windows as nat),
        "projects    "@ + decimal(status.projects as nat),
    ]
}

fn labelled(label: &str, text: &str) -> (r: String)
    ensures
        r@ == label@ + text@,
{
    let mut out = label.to_owned();
    out.append(text);
    out
}

/// `workspace status` — daemon summary.
pub fn status_lines(status: &DaemonStatus) -> (r: Vec<String>)
    ensures
        r.deep_view() == status_text(status@),
{
    let mut out: Vec<String> = Vec::new();
    let mut first = labelled("daemon      v", status.version.as_str());
    first.append(" (up ");
    first.append(render(status.uptime_s).as_str());
    first.append("s)");
    out.push(first);
    if let Some(update) = &status.update_available {
        let mut line = labelled("update      v", update.as_str());
        line.append(" available \u{2014} install via pacman -Syu");
        out.push(line);
    }
    out.push(
        labelled(
            "hyprland    ",
            if status.hypr_connected {
                "connected"
            } else {
                "DISCONNECTED"
            },
        ),
    );
    match &status.active_project {
        Some(slug) => {
            out.push(labelled("project     ", slug.as_str()));
        },
        None => {
            out.push("project     (none active)".to_owned());
        },
    }
    out.push(labelled("windows     ", render(status.windows as u64).as_str()));
    out.push(labelled("projects    ", render(status.projects as u64).as_str()));
    assert(out.deep_view() =~= status_text(status@));
    out
}

// ---- windows ------------------------------------------------------------------------------

/// A row of the window table.
pub open spec fn window_row(
    address: Seq<char>,
    class: Seq<char>,
    workspace: Seq<char>,
    focus: Seq<char>,
    title: Seq<char>,
) -> Seq<char> {
    padded(address, 16) + " "@ + padded(class, 20) + " "@ + padded(workspace, 14) + " "@ + padded(
        focus,
        6,
    ) + " "@ + title
}

fn window_line(address: &str, class: &str, workspace: &str, focus: &str, title: &str) -> (r: String)
    ensures
        r@ == window_row(address@, class@, workspace@, focus@, title@),
{
    let mut out = pad(address, 16);
    out.append(" ");
    out.append(pad(class, 20).as_str());
    out.append(" ");
    out.append(pad(workspace, 14).as_str());
    out.append(" ");
    out.append(pad(focus, 6).as_str());
    out.append(" ");
    out.append(title);
    out
}

/// The row of a window.
pub open spec fn tracked_row(window: TrackedWindowView, focused: Option<Seq<char>>) -> Seq<char> {
    window_row(
        window.address,
        truncated(window.facts.class, 20),
        truncated(window.facts.workspace, 14),
        if focused == Some(window.address) {
            "*"@
        } else {
            ""@
        },
        if window.facts.title.len() <= 60 {
            window.facts.title
        } else {
            window.facts.title.take(60)
        },
    )
}

/// The window table, or a note when there are no windows.
pub open spec fn window_table(snapshot: SnapshotView) -> Seq<Seq<char>> {
    if snapshot.windows.len() == 0 {
        seq!["no windows tracked"@]
    } else {
        seq![window_row("ADDRESS"@, "CLASS"@, "WORKSPACE"@, "FOCUS"@, "TITLE"@)] + Seq::new(
            snapshot.windows.len(),
            |i: int| tracked_row(snapshot.windows[i], snapshot.focused_window),
        )
    }
}

fn tracked_line(window: &TrackedWindow, focused: &Option<String>) -> (r: String)
    ensures
        r@ == tracked_row(window@, focused.deep_view()),
{
    let mark = match focused {
        Some(address) => if same(address.as_str(), window.address.as_str()) {
            "*"
        } else {
            ""
        },
        None => "",
    };
    window_line(
        window.address.as_str(),
        truncate(window.facts.class.as_str(), 20).as_str(),
        truncate(window.facts.workspace.as_str(), 14).as_str(),
        mark,
        first_chars(window.facts.title.as_str(), 60).as_str(),
    )
}

/// `workspace windows` — tracked-window table.
pub fn windows_lines(snapshot: &Snapshot) -> (r: Vec<String>)
    ensures
        r.deep_view() == window_table(snapshot@),
{
    let ghost views = snapshot.windows.deep_view();
    let mut out: Vec<String> = Vec::new();
    if snapshot.windows.len() == 0 {
        out.push("no windows tracked".to_owned());
        assert(out.deep_view() =~= window_table(snapshot@));
        return out;
    }
    out.push(window_line("ADDRESS", "CLASS", "WORKSPACE", "FOCUS", "TITLE"));
    let mut i: usize = 0;
    while i < snapshot.windows.len()
        invariant
            i <= snapshot.windows.len(),
            views == snapshot.windows.deep_view(),
            out.len() == i + 1,
            out@[0]@ == window_row("ADDRESS"@, "CLASS"@, "WORKSPACE"@, "FOCUS"@, "TITLE"@),
            forall|k: int|
                0 <= k < i ==> (#[trigger] out@[k + 1])@ == tracked_row(
                    views[k],
                    snapshot@.focused_window,
                ),
        decreases snapshot.windows.len() - i,
    {
        assert(views[i as int] == snapshot.windows@[i as int]@);
        out.push(tracked_line(&snapshot.windows[i], &snapshot.focused_window));
        i = i + 1;
    }
    proof {
        let table = window_table(snapshot@);
        assert forall|k: int| 0 <= k < out.len() implies #[trigger] out.deep_view()[k]
            == table[k] by {
            if k > 0 {
                assert(out@[(k - 1) + 1]@ == tracked_row(views[k - 1], snapshot@.focused_window));
            }
        }
        assert(out.deep_view() =~= table);
    }
    out
}

// ---- rules --------------------------------------------------------------------------------

/// The line about one matching rule.
pub open spec fn match_text(found: RuleMatchView) -> Seq<char> {
    "  matches rule "@ + quoted(found.rule) + " -> project "@ + found.project + (match found.group {
        Some(group) => " (group "@ + group + ")"@,
        None => ""@,
    })
}

/// The lines about the rules that match a window.
pub open spec fn report_text(report: RuleReportView) -> Seq<Seq<char>> {
    seq![
        "window "@ + report.address + " (class "@ + quoted(report.class) + ", title "@ + quoted(
            report.title,
        ) + ")"@,
    ] + (if report.matches.len() == 0 {
        seq!["  no rules match"@]
    } else {
        Seq::new(report.matches.len(), |i: int| match_text(report.matches[i]))
    })
}

fn match_line(found: &RuleMatch) -> (r: String)
    ensures
        r@ == match_text(found@),
{
    let mut out = "  matches rule ".to_owned();
    out.append(quote(found.rule.as_str()).as_str());
    out.append(" -> project ");
    out.append(found.project.as_str());
    match &found.group {
        Some(group) => {
            let mut rest = labelled(" (group ", group.as_str());
            rest.append(")");
            out.append(rest.as_str());
        },
        None => {
            out.append("");
        },
    }
    out
}

/// `workspace rules test [address]` — what the rules engine would do.
pub fn rules_lines(report: &RuleReport) -> (r: Vec<String>)
    ensures
        r.deep_view() == report_text(report@),
{
    let ghost views = report.matches.deep_view();
    let mut out: Vec<String> = Vec::new();
    let mut first = labelled("window ", report.address.as_str());
    first.append(" (class ");
    first.append(quote(report.class.as_str()).as_str());
    first.append(", title ");
    first.append(quote(report.title.as_str()).as_str());
    first.append(")");
    let ghost head = first@;
    out.push(first);
    if report.matches.len() == 0 {
        out.push("  no rules match".to_owned());
        assert(out.deep_view() =~= report_text(report@));
        return out;
    }
    let mut i: usize = 0;
    while i < report.matches.len()
        invariant
            i <= report.matches.len(),
            views == report.matches.deep_view(),
            out.len() == i + 1,
            out@[0]@ == head,
            forall|k: int| 0 <= k < i ==> (#[trigger] out@[k + 1])@ == match_text(views[k]),
        decreases report.matches.len() - i,
    {
        assert(views[i as int] == report.matches@[i as int]@);
        out.push(match_line(&report.matches[i]));
        i = i + 1;
    }
    proof {
        let text = report_text(report@);
        assert forall|k: int| 0 <= k < out.len() implies #[trigger] out.deep_view()[k]
            == text[k] by {
            if k > 0 {
                assert(out@[(k - 1) + 1]@ == match_text(views[k - 1]));
            }
        }
        assert(out.deep_view() =~= text);
    }
    out
}

// ---- logs ---------------------------------------------------------------------------------

/// A line without a carriage return at its end.
pub open spec fn without_return(s: Seq<char>) -> Seq<char> {
    if s.len() > 0 && s.last() == '\r' {
        s.drop_last()
    } else {
        s
    }
}

/// The lines of a text; a line break at its end opens no further one.
pub open spec fn text_lines(s: Seq<char>) -> Seq<Seq<char>>
    decreases s.len(),
{
    match find_from(s, seq!['\n'], 0) {
        Some(i) => if 0 <= i < s.len() {
            seq![without_return(s.take(i))] + text_lines(s.skip(i + 1))
        } else {
            seq![]
        },
        None => if s.len() == 0 {
            seq![]
        } else {
            seq![s]
        },
    }
}

/// The last lines of a text.
pub open spec fn last_lines(s: Seq<char>, n: nat) -> Seq<Seq<char>> {
    let all = text_lines(s);
    if all.len() <= n {
        all
    } else {
        all.skip(all.len() - n)
    }
}

fn lines(s: &str) -> (r: Vec<String>)
    ensures
        r.deep_view() == text_lines(s@),
{
    let mut rest = chars(s);
    let mut out: Vec<String> = Vec::new();
    let mut newline: Vec<char> = Vec::new();
    newline.push('\n');
    assert(newline@ =~= seq!['\n']);
    assert(out.deep_view() + text_lines(s@) =~= text_lines(s@));
    loop
        invariant_except_break
            text_lines(s@) == out.deep_view() + text_lines(rest@),
        invariant
            newline@ == seq!['\n'],
        ensures
            text_lines(s@) == out.deep_view(),
        decreases rest.len(),
    {
        let ghost before = out.deep_view();
        match position_from(&rest, &newline, 0) {
            Some(i) => {
                let mut end: usize = i;
                if end > 0 && rest[end - 1] == '\r' {
                    end = end - 1;
                }
                let line = text_range(&rest, 0, end);
                let tail_text = text_range(&rest, i + 1, rest.len());
                proof {
                    let part = rest@.take(i as int);
                    if i > 0 {
                        assert(part.last() == rest@[i - 1]);
                        assert(part.drop_last() =~= rest@.take(i - 1));
                    }
                    assert(line@ =~= without_return(part));
                    assert(tail_text@ =~= rest@.skip(i + 1));
                }
                out.push(line);
                proof {
                    assert(out.deep_view() =~= before.push(line@));
                    assert(before + (seq![line@] + text_lines(rest@.skip(i + 1)))
                        =~= out.deep_view() + text_lines(rest@.skip(i + 1)));
                }
                rest = chars(tail_text.as_str());
            },
            None => {
                if rest.len() > 0 {
                    let line = text_range(&rest, 0, rest.len());
                    assert(line@ =~= rest@);
                    out.push(line);
                    assert(out.deep_view() =~= before.push(line@));
                    assert(before + seq![rest@] =~= out.deep_view());
                } else {
                    assert(before + text_lines(rest@) =~= before);
                }
                break;
            },
        }
    }
    out
}

/// `workspace logs` — the tail of the daemon log.
pub fn log_tail(text: &str, count: usize) -> (r: Vec<String>)
    ensures
        r.deep_view() == last_lines(text@, count as nat),
{
    let all = lines(text);
    if all.len() <= count {
        return all;
    }
    let ghost views = all.deep_view();
    let start: usize = all.len() - count;
    let mut out: Vec<String> = Vec::new();
    let mut i: usize = start;
    while i < all.len()
        invariant
            start <= i <= all.len(),
            views == all.deep_view(),
            out.len() == i - start,
            forall|k: int| 0 <= k < out.len() ==> (#[trigger] out@[k])@ == views[start + k],
        decreases all.len() - i,
    {
        assert(views[i as int] == all@[i as int]@);
        out.push(all[i].clone());
        i = i + 1;
    }
    assert(out.deep_view() =~= views.skip(start as int));
    out
}

// ---- laws ---------------------------------------------------------------------------------

/// A column begins with its text and is filled up with spaces, to its width or
/// the length of the text, whichever is greater.
pub proof fn law_columns_begin_with_their_text(s: Seq<char>, width: nat)
    ensures
        padded(s, width).len() == (if s.len() >= width {
            s.len()
        } else {
            width
        }),
        padded(s, width).take(s.len() as int) == s,
        forall|i: int| s.len() <= i < padded(s, width).len() ==> #[trigger] padded(s, width)[i] == ' ',
    decreases width - s.len(),
{
    if s.len() < width {
        let more = s.push(' ');
        law_columns_begin_with_their_text(more, width);
        let column = padded(s, width);
        assert(column.take(s.len() as int) =~= column.take(more.len() as int).take(
            s.len() as int,
        ));
        assert(more.take(s.len() as int) =~= s);
        assert(column[s.len() as int] == column.take(more.len() as int)[s.len() as int]);
    } else {
        assert(s.take(s.len() as int) =~= s);
    }
}

/// A text that fits is shown whole; of one that does not, as much as fits in
/// front of an ellipsis.
pub proof fn law_long_texts_end_in_an_ellipsis(s: Seq<char>, max: nat)
    ensures
        s.len() <= max ==> truncated(s, max) == s,
        s.len() > max > 0 ==> {
            &&& truncated(s, max).len() == max
            &&& truncated(s, max).last() == '\u{2026}'
            &&& forall|i: int| 0 <= i < max - 1 ==> #[trigger] truncated(s, max)[i] == s[i]
        },
{
}

proof fn lemma_project_row(mark: Seq<char>, slug: Seq<char>, windows: Seq<char>, name: Seq<char>)
    requires
        mark.len() <= 2,
    ensures
        ({
            let row = project_row(mark, slug, windows, name);
            &&& row.len() >= 3 + slug.len()
            &&& row.take(mark.len() as int) == mark
            &&& mark.len() == 0 ==> row[0] == ' '
            &&& row.subrange(3, 3 + slug.len() as int) == slug
            &&& holds(row, windows)
            &&& finishes(row, name)
        }),
{
    reveal_strlit(" ");
    law_columns_begin_with_their_text(mark, 2);
    law_columns_begin_with_their_text(slug, 20);
    law_columns_begin_with_their_text(windows, 8);
    let row = project_row(mark, slug, windows, name);
    let a = padded(mark, 2);
    let b = padded(slug, 20);
    let c = padded(windows, 8);
    assert(a.len() == 2);
    assert(row =~= a + (" "@ + b + " "@ + c + " "@ + name));
    assert(row.take(mark.len() as int) =~= a.take(mark.len() as int));
    assert(row.subrange(3, 3 + slug.len() as int) =~= b.take(slug.len() as int));
    let at = 4 + b.len() as int;
    assert(row.subrange(at, at + windows.len() as int) =~= c.take(windows.len() as int));
    assert(row.skip(row.len() - name.len()) =~= name);
}

/// Every project has a row of the table, in their order and behind the heading:
/// with a star exactly when it is active, its slug in the second column, the
/// number of its windows, and its name at the end. Only an empty table says
/// that there are no projects.
pub proof fn law_every_project_has_its_row(projects: Seq<ProjectSummaryView>, i: int)
    requires
        0 <= i < projects.len(),
    ensures
        project_table(projects).len() == projects.len() + 1,
        ({
            let row = project_table(projects)[i + 1];
            let project = projects[i];
            &&& row[0] == '*' <==> project.active
            &&& row.len() >= 3 + project.slug.len()
            &&& row.subrange(3, 3 + project.slug.len() as int) == project.slug
            &&& holds(row, decimal(project.windows as nat))
            &&& finishes(row, project.name)
        }),
{
    reveal_strlit("*");
    reveal_strlit("");
    let project = projects[i];
    let mark = if project.active {
        "*"@
    } else {
        ""@
    };
    lemma_project_row(mark, project.slug, decimal(project.windows as nat), project.name);
    let row = project_row(mark, project.slug, decimal(project.windows as nat), project.name);
    if project.active {
        assert(row[0] == row.take(1)[0]);
    }
}

proof fn lemma_in_the_middle(before: Seq<char>, text: Seq<char>, after: Seq<char>)
    ensures
        holds(before + text + after, text),
{
    let all = before + text + after;
    let at = before.len() as int;
    assert(all.subrange(at, at + text.len() as int) =~= text);
}

proof fn lemma_at_the_end(before: Seq<char>, text: Seq<char>)
    ensures
        finishes(before + text, text),
{
    let all = before + text;
    assert(all.skip(all.len() - text.len()) =~= text);
}

/// The summary tells the version, how long the daemon is up, a newer version
/// if there is one, whether Hyprland is connected, the active project, and how
/// many windows and projects there are.
pub proof fn law_the_summary_tells_the_status(status: DaemonStatusView)
    ensures
        ({
            let lines = status_text(status);
            let n = lines.len();
            &&& n == (if status.update_available is Some {
                6int
            } else {
                5int
            })
            &&& holds(lines[0], status.version)
            &&& holds(lines[0], decimal(status.uptime_s as nat))
            &&& status.update_available is Some ==> holds(lines[1], status.update_available->0)
            &&& finishes(lines[n - 4], "DISCONNECTED"@) <==> !status.hypr_connected
            &&& status.active_project is Some ==> finishes(
                lines[n - 3],
                status.active_project->0,
            )
            &&& finishes(lines[n - 2], decimal(status.windows as nat))
            &&& finishes(lines[n - 1], decimal(status.projects as nat))
        }),
{
    let lines = status_text(status);
    let n = lines.len();
    lemma_in_the_middle(
        "daemon      v"@,
        status.version,
        " (up "@ + decimal(status.uptime_s as nat) + "s)"@,
    );
    assert(lines[0] =~= "daemon      v"@ + status.version + (" (up "@ + decimal(
        status.uptime_s as nat,
    ) + "s)"@));
    lemma_in_the_middle(
        "daemon      v"@ + status.version + " (up "@,
        decimal(status.uptime_s as nat),
        "s)"@,
    );
    if let Some(update) = status.update_available {
        lemma_in_the_middle(
            "update      v"@,
            update,
            " available \u{2014} install via pacman -Syu"@,
        );
    }
    reveal_strlit("hyprland    ");
    reveal_strlit("DISCONNECTED");
    reveal_strlit("connected");
    if status.hypr_connected {
        assert(lines[n - 4].last() == 'd');
        if finishes(lines[n - 4], "DISCONNECTED"@) {
            let end = lines[n - 4].skip(lines[n - 4].len() - 12);
            assert(end.last() == 'D');
        }
    } else {
        lemma_at_the_end("hyprland    "@, "DISCONNECTED"@);
    }
    if let Some(slug) = status.active_project {
        lemma_at_the_end("project     "@, slug);
    }
    lemma_at_the_end("windows     "@, decimal(status.windows as nat));
    lemma_at_the_end("projects    "@, decimal(status.projects as nat));
}

proof fn lemma_window_row(
    address: Seq<char>,
    class: Seq<char>,
    workspace: Seq<char>,
    focus: Seq<char>,
    title: Seq<char>,
)
    ensures
        ({
            let row = window_row(address, class, workspace, focus, title);
            &&& begins(row, address)
            &&& holds(row, class)
            &&& holds(row, workspace)
            &&& finishes(row, title)
        }),
{
    law_columns_begin_with_their_text(address, 16);
    law_columns_begin_with_their_text(class, 20);
    law_columns_begin_with_their_text(workspace, 14);
    let row = window_row(address, class, workspace, focus, title);
    let gap = " "@;
    let a = padded(address, 16);
    let b = padded(class, 20);
    let c = padded(workspace, 14);
    let d = padded(focus, 6);
    let at = (a.len() + gap.len()) as int;
    let there = at + b.len() + gap.len();
    assert(row.take(address.len() as int) =~= a.take(address.len() as int));
    assert(row.subrange(at, at + class.len() as int) =~= b.take(class.len() as int));
    assert(row.subrange(there, there + workspace.len() as int) =~= c.take(workspace.len() as int));
    lemma_at_the_end(a + gap + b + gap + c + gap + d + gap, title);
}

/// Every window has a row of the table, in their order and behind the heading:
/// it begins with the address, shows a star exactly when the window has the
/// focus, and ends in its title, or the beginning of a long one.
pub proof fn law_every_window_has_its_row(snapshot: SnapshotView, i: int)
    requires
        0 <= i < snapshot.windows.len(),
    ensures
        window_table(snapshot).len() == snapshot.windows.len() + 1,
        ({
            let row = window_table(snapshot)[i + 1];
            let window = snapshot.windows[i];
            &&& begins(row, window.address)
            &&& window.facts.class.len() <= 20 ==> holds(row, window.facts.class)
            &&& window.facts.workspace.len() <= 14 ==> holds(row, window.facts.workspace)
            &&& window.facts.title.len() <= 60 ==> finishes(row, window.facts.title)
            &&& window.facts.title.len() > 60 ==> finishes(row, window.facts.title.take(60))
        }),
{
    let window = snapshot.windows[i];
    let row = window_table(snapshot)[i + 1];
    let class = truncated(window.facts.class, 20);
    let workspace = truncated(window.facts.workspace, 14);
    let focus = if snapshot.focused_window == Some(window.address) {
        "*"@
    } else {
        ""@
    };
    let title = if window.facts.title.len() <= 60 {
        window.facts.title
    } else {
        window.facts.title.take(60)
    };
    assert(row == window_row(window.address, class, workspace, focus, title));
    lemma_window_row(window.address, class, workspace, focus, title);
}

/// Whether a row of the window table shows the focus.
pub open spec fn shows_focus(row: Seq<char>) -> bool {
    row.len() > 53 && row[53] == '*'
}

/// The focus column of the window table has a star exactly in the row of the
/// window that has the focus, as long as the columns in front of it keep
/// their width.
pub proof fn law_the_focused_window_is_starred(snapshot: SnapshotView, i: int)
    requires
        0 <= i < snapshot.windows.len(),
        snapshot.windows[i].address.len() <= 16,
    ensures
        shows_focus(window_table(snapshot)[i + 1]) <==> snapshot.focused_window == Some(
            snapshot.windows[i].address,
        ),
{
    let window = snapshot.windows[i];
    let row = window_table(snapshot)[i + 1];
    let class = truncated(window.facts.class, 20);
    let workspace = truncated(window.facts.workspace, 14);
    let focus = if snapshot.focused_window == Some(window.address) {
        "*"@
    } else {
        ""@
    };
    let title = if window.facts.title.len() <= 60 {
        window.facts.title
    } else {
        window.facts.title.take(60)
    };
    reveal_strlit(" ");
    reveal_strlit("*");
    reveal_strlit("");
    assert(row == window_row(window.address, class, workspace, focus, title));
    law_columns_begin_with_their_text(window.address, 16);
    law_columns_begin_with_their_text(class, 20);
    law_columns_begin_with_their_text(workspace, 14);
    law_columns_begin_with_their_text(focus, 6);
    law_long_texts_end_in_an_ellipsis(window.facts.class, 20);
    law_long_texts_end_in_an_ellipsis(window.facts.workspace, 14);
    let front = padded(window.address, 16) + " "@ + padded(class, 20) + " "@ + padded(workspace, 14)
        + " "@;
    assert(front.len() == 53);
    assert(row =~= front + padded(focus, 6) + (" "@ + title));
    assert(row[53] == padded(focus, 6)[0]);
    if focus == "*"@ {
        assert(padded(focus, 6).take(1)[0] == padded(focus, 6)[0]);
    }
}

/// The last lines are the end of all lines: as many as were asked for, or all
/// of them.
pub proof fn law_last_lines_are_the_end(s: Seq<char>, n: nat)
    ensures
        last_lines(s, n).len() <= n,
        last_lines(s, n).len() == n || last_lines(s, n) == text_lines(s),
        forall|i: int|
            0 <= i < last_lines(s, n).len() ==> #[trigger] last_lines(s, n)[i] == text_lines(s)[i
                + text_lines(s).len() - last_lines(s, n).len()],
{
}

/// A text with a line break has the line in front of it and then the lines of
/// the rest; one without is a line of its own, unless it is empty.
pub proof fn law_lines_end_at_line_breaks(line: Seq<char>, rest: Seq<char>)
    requires
        !line.contains('\n'),
    ensures
        text_lines(line + seq!['\n'] + rest) == seq![
            if line.len() > 0 && line.last() == '\r' {
                line.drop_last()
            } else {
                line
            },
        ] + text_lines(rest),
        text_lines(line) == (if line.len() == 0 {
            seq![]
        } else {
            seq![line]
        }),
{
    let s = line + seq!['\n'] + rest;
    let needle = seq!['\n'];
    let at = line.len() as int;
    lemma_find_from(s, needle, 0);
    lemma_find_from(line, needle, 0);
    assert(s.subrange(at, at + 1) =~= needle);
    let found = find_from(s, needle, 0)->0;
    if found < at {
        assert(s.subrange(found, found + 1)[0] == line[found]);
    }
    if found > at {
        assert(s.subrange(at, at + needle.len()) != needle);
    }
    assert(s.take(at) =~= line);
    assert(s.skip(at + 1) =~= rest);
    if let Some(i) = find_from(line, needle, 0) {
        assert(line.subrange(i, i + 1)[0] == line[i]);
    }
}

/// A rule report tells the window, and every match in a line of its own, in
/// their order: the rule, the project and the group, if there is one. Without
/// matches that is said.
pub proof fn law_reports_tell_every_match(report: RuleReportView, i: int)
    ensures
        holds(report_text(report)[0], report.address),
        holds(report_text(report)[0], quoted(report.class)),
        holds(report_text(report)[0], quoted(report.title)),
        report.matches.len() == 0 ==> report_text(report).len() == 2,
        report.matches.len() > 0 ==> report_text(report).len() == report.matches.len() + 1,
        0 <= i < report.matches.len() ==> ({
            let line = report_text(report)[i + 1];
            let found = report.matches[i];
            &&& holds(line, quoted(found.rule))
            &&& holds(line, found.project)
            &&& found.group is Some ==> holds(line, found.group->0)
        }),
{
    let first = report_text(report)[0];
    let class = quoted(report.class);
    let title = quoted(report.title);
    let a = "window "@;
    let b = " (class "@;
    let c = ", title "@;
    let d = ")"@;
    assert(first =~= a + report.address + (b + class + c + title + d));
    lemma_in_the_middle(a, report.address, b + class + c + title + d);
    assert(first =~= (a + report.address + b) + class + (c + title + d));
    lemma_in_the_middle(a + report.address + b, class, c + title + d);
    lemma_in_the_middle(a + report.address + b + class + c, title, d);
    if 0 <= i < report.matches.len() {
        let line = report_text(report)[i + 1];
        let found = report.matches[i];
        let rule = quoted(found.rule);
        let e = "  matches rule "@;
        let f = " -> project "@;
        let end = match found.group {
            Some(group) => " (group "@ + group + ")"@,
            None => ""@,
        };
        assert(line == match_text(found));
        assert(line =~= e + rule + (f + found.project + end));
        lemma_in_the_middle(e, rule, f + found.project + end);
        lemma_in_the_middle(e + rule + f, found.project, end);
        if let Some(group) = found.group {
            let front = e + rule + f + found.project + " (group "@;
            assert(line =~= front + group + ")"@);
            lemma_in_the_middle(front, group, ")"@);
        }
    }
}

/// What is said of a new project names it, its slug and its workspace.
pub proof fn law_new_projects_are_named(summary: ProjectSummaryView)
    ensures
        holds(created_text(summary), summary.name),
        holds(created_text(summary), summary.slug),
        finishes(created_text(summary), summary.workspace),
{
    let text = created_text(summary);
    let a = "created project '"@;
    let b = "' ("@;
    let c = ") on workspace name:"@;
    assert(text =~= a + summary.name + (b + summary.slug + c + summary.workspace));
    lemma_in_the_middle(a, summary.name, b + summary.slug + c + summary.workspace);
    assert(text =~= (a + summary.name + b) + summary.slug + (c + summary.workspace));
    lemma_in_the_middle(a + summary.name + b, summary.slug, c + summary.workspace);
    lemma_at_the_end(a + summary.name + b + summary.slug + c, summary.workspace);
}

} // verus!
