//! `workspace doctor`: environment and configuration health checks.
//!
//! Works entirely without the daemon so it can diagnose why the daemon itself
//! will not start. Checks are grouped; each prints one line and the command
//! exits non-zero if any check fails outright.

use vstd::prelude::*;

use crate::daemon::requests::Loaded;
use crate::domain::config::{Config, ConfigError};
use crate::domain::config::{config_problem, ConfigErrorView};
use crate::hypr::error::HyprError;
use crate::hypr::model::Client;
use crate::hypr::model::ClientView;
use crate::numbers::render;
use crate::numbers::decimal;
use crate::text::finishes;

verus! {

/// Outcome of one check.
#[derive(Debug, Clone, Copy, PartialEq, Eq, Structural)]
pub enum Status {
    /// It passed.
    Passed,
    /// It passed, but something is worth a look.
    Warned,
    /// It failed.
    Failed,
}

/// How an outcome is shown.
pub open spec fn status_text(status: Status) -> Seq<char> {
    match status {
        Status::Passed => "  ok  "@,
        Status::Warned => " warn "@,
        Status::Failed => " FAIL "@,
    }
}

impl Status {
    /// How the outcome is shown.
    pub fn text(&self) -> (r: &'static str)
        ensures
            r@ == status_text(*self),
    {
        match self {
            Status::Passed => "  ok  ",
            Status::Warned => " warn ",
            Status::Failed => " FAIL ",
        }
    }
}

/// Outcome counters for the final summary and exit code, and the lines of the
/// report.
#[derive(Debug)]
pub struct Report {
    /// How many checks failed.
    pub failures: u32,
    /// How many checks warned.
    pub warnings: u32,
    /// One line per check.
    pub lines: Vec<String>,
}

/// What a [`Report`] holds.
#[verifier::ext_equal]
pub struct ReportView {
    /// See [`Report::failures`].
    pub failures: u32,
    /// See [`Report::warnings`].
    pub warnings: u32,
    /// See [`Report::lines`].
    pub lines: Seq<Seq<char>>,
}

impl View for Report {
    type V = ReportView;

    open spec fn view(&self) -> ReportView {
        ReportView {
            failures: self.failures,
            warnings: self.warnings,
            lines: self.lines.deep_view(),
        }
    }
}

impl ReportView {
    /// The report after one more check.
    pub open spec fn with(self, status: Status, message: Seq<char>) -> ReportView {
        ReportView {
            failures: if status is Failed {
                (self.failures + 1) as u32
            } else {
                self.failures
            },
            warnings: if status is Warned {
                (self.warnings + 1) as u32
            } else {
                self.warnings
            },
            lines: self.lines.push("["@ + status_text(status) + "] "@ + message),
        }
    }

    /// Whether a few more checks can be counted.
    pub open spec fn has_room(self) -> bool {
        self.failures < u32::MAX - 4 && self.warnings < u32::MAX - 4
    }

    /// The last line of the report.
    pub open spec fn summary(self) -> Seq<char> {
        if self.failures == 0 {
            "doctor: healthy ("@ + decimal(self.warnings as nat) + " warning"@ + (
            if self.warnings == 1 {
                ""@
            } else {
                "s"@
            }) + ")"@
        } else {
            "doctor: "@ + decimal(self.failures as nat) + " check(s) failed, "@ + decimal(
                self.warnings as nat,
            ) + " warning(s)"@
        }
    }
}

impl Default for Report {
    fn default() -> (r: Self)
        ensures
            r@ == (ReportView { failures: 0, warnings: 0, lines: seq![] }),
    {
        let r = Report { failures: 0, warnings: 0, lines: Vec::new() };
        assert(r.lines.deep_view() =~= seq![]);
        r
    }
}

impl Report {
    fn line(&mut self, status: Status, message: &str)
        ensures
            final(self)@ == (ReportView {
                lines: old(self)@.lines.push("["@ + status_text(status) + "] "@ + message@),
                ..old(self)@
            }),
    {
        let ghost before = self.lines.deep_view();
        let mut line = "[".to_owned();
        line.append(status.text());
        line.append("] ");
        line.append(message);
        self.lines.push(line);
        assert(self.lines.deep_view() =~= before.push(line@));
    }

    /// A check passed.
    pub fn ok(&mut self, message: &str)
        ensures
            final(self)@ == old(self)@.with(Status::Passed, message@),
    {
        self.line(Status::Passed, message);
    }

    /// A check passed with a warning.
    pub fn warn(&mut self, message: &str)
        requires
            old(self).warnings < u32::MAX,
        ensures
            final(self)@ == old(self)@.with(Status::Warned, message@),
    {
        self.warnings = self.warnings + 1;
        self.line(Status::Warned, message);
    }

    /// A check failed.
    pub fn fail(&mut self, message: &str)
        requires
            old(self).failures < u32::MAX,
        ensures
            final(self)@ == old(self)@.with(Status::Failed, message@),
    {
        self.failures = self.failures + 1;
        self.line(Status::Failed, message);
    }

    /// True when no check failed (warnings allowed).
    pub fn healthy(&self) -> (r: bool)
        ensures
            r == (self@.failures == 0),
    {
        self.failures == 0
    }

    /// The last line of the report.
    pub fn summary(&self) -> (r: String)
        ensures
            r@ == self@.summary(),
    {
        if self.healthy() {
            let mut out = "doctor: healthy (".to_owned();
            out.append(render(self.warnings as u64).as_str());
            out.append(" warning");
            if self.warnings != 1 {
                out.append("s");
            } else {
                assert(out@ + ""@ =~= out@) by {
                    reveal_strlit("");
                }
            }
            out.append(")");
            out
        } else {
            let mut out = "doctor: ".to_owned();
            out.append(render(self.failures as u64).as_str());
            out.append(" check(s) failed, ");
            out.append(render(self.warnings as u64).as_str());
            out.append(" warning(s)");
            out
        }
    }

    /// The process exit code.
    pub fn exit_code(&self) -> (r: u8)
        ensures
            r == (if self@.failures == 0 {
                0u8
            } else {
                1u8
            }),
    {
        if self.healthy() {
            0
        } else {
            1
        }
    }
}

// ---- checks -------------------------------------------------------------------------------

/// The pieces of a line put together.
fn line3(a: &str, b: &str, c: &str) -> (r: String)
    ensures
        r@ == a@ + b@ + c@,
{
    let mut out = a.to_owned();
    out.append(b);
    out.append(c);
    out
}

/// The report after a look at a socket of Hyprland.
pub open spec fn socket_checked(
    report: ReportView,
    label: Seq<char>,
    path: Seq<char>,
    present: bool,
) -> ReportView {
    if present {
        report.with(Status::Passed, "hyprland "@ + label + ": "@ + path)
    } else {
        report.with(Status::Failed, "hyprland "@ + label + " missing: "@ + path)
    }
}

/// Look at a socket of Hyprland.
pub fn check_socket(report: &mut Report, label: &str, path: &str, present: bool)
    requires
        old(report)@.has_room(),
    ensures
        final(report)@ == socket_checked(old(report)@, label@, path@, present),
{
    if present {
        let mut message = line3("hyprland ", label, ": ");
        message.append(path);
        report.ok(message.as_str());
    } else {
        let mut message = line3("hyprland ", label, " missing: ");
        message.append(path);
        report.fail(message.as_str());
    }
}

/// Look at what Hyprland answered to `version`: the tag if it has one. Says
/// whether to go on.
pub fn check_version(report: &mut Report, version: &Result<Option<String>, HyprError>) -> (r: bool)
    requires
        old(report)@.has_room(),
    ensures
        r == (version is Ok),
        final(report)@ == (match version {
            Ok(Some(tag)) => old(report)@.with(
                Status::Passed,
                "hyprland responds to IPC (version "@ + tag@ + ")"@,
            ),
            Ok(None) => old(report)@.with(
                Status::Passed,
                "hyprland responds to IPC (version "@ + "unknown"@ + ")"@,
            ),
            Err(error) => old(report)@.with(
                Status::Failed,
                "hyprland IPC request failed: "@ + error@.message(),
            ),
        }),
{
    match version {
        Ok(Some(tag)) => {
            report.ok(line3("hyprland responds to IPC (version ", tag.as_str(), ")").as_str());
            true
        },
        Ok(None) => {
            report.ok(line3("hyprland responds to IPC (version ", "unknown", ")").as_str());
            true
        },
        Err(error) => {
            let mut message = "hyprland IPC request failed: ".to_owned();
            message.append(error.message().as_str());
            report.fail(message.as_str());
            false
        },
    }
}

/// Whether no window reports a stable id.
pub open spec fn lacks_stable_ids(clients: Seq<ClientView>) -> bool {
    clients.len() > 0 && forall|i: int|
        0 <= i < clients.len() ==> (#[trigger] clients[i]).stable_id is None
}

/// The report after the schema probe.
pub open spec fn clients_checked(
    report: ReportView,
    clients: Result<Vec<Client>, HyprError>,
) -> ReportView {
    match clients {
        Ok(clients) => {
            let decoded = report.with(
                Status::Passed,
                "clients schema decodes ("@ + decimal(clients.len() as nat) + " windows)"@,
            );
            if lacks_stable_ids(clients.deep_view()) {
                decoded.with(
                    Status::Warned,
                    "no window reports stableId \u{2014} older Hyprland? falling back to addresses"@,
                )
            } else {
                decoded
            }
        },
        Err(error) => report.with(
            Status::Failed,
            "clients schema probe failed: "@ + error@.message(),
        ),
    }
}

/// Schema probe: make sure the clients JSON still decodes and carries the
/// fields we depend on for window identity.
pub fn check_clients(report: &mut Report, clients: &Result<Vec<Client>, HyprError>)
    requires
        old(report)@.has_room(),
    ensures
        final(report)@ == clients_checked(old(report)@, *clients),
{
    match clients {
        Ok(clients) => {
            let n: usize = clients.len();
            report.ok(
                line3("clients schema decodes (", render(n as u64).as_str(), " windows)").as_str(),
            );
            let ghost views = clients.deep_view();
            let mut none_stable = n > 0;
            let mut i: usize = 0;
            while i < clients.len()
                invariant
                    i <= clients.len(),
                    n == clients.len(),
                    views == clients.deep_view(),
                    none_stable == (n > 0 && forall|k: int|
                        0 <= k < i ==> (#[trigger] views[k]).stable_id is None),
                decreases clients.len() - i,
            {
                assert(views[i as int] == clients@[i as int]@);
                if clients[i].stable_id.is_some() {
                    none_stable = false;
                }
                i = i + 1;
            }
            if none_stable {
                report.warn(
                    "no window reports stableId \u{2014} older Hyprland? falling back to addresses",
                );
            }
        },
        Err(error) => {
            let mut message = "clients schema probe failed: ".to_owned();
            message.append(error.message().as_str());
            report.fail(message.as_str());
        },
    }
}

/// The Hyprland sockets could not be located.
pub fn check_paths(report: &mut Report, error: &HyprError)
    requires
        old(report)@.has_room(),
    ensures
        final(report)@ == old(report)@.with(Status::Failed, "hyprland: "@ + error@.message()),
{
    let mut message = "hyprland: ".to_owned();
    message.append(error.message().as_str());
    report.fail(message.as_str());
}

/// The report after a look at the configuration.
pub open spec fn config_checked(
    report: ReportView,
    path: Option<&str>,
    file: Loaded<Config>,
) -> ReportView {
    match path {
        None => report.with(
            Status::Failed,
            "config: cannot determine config directory (HOME unset)"@,
        ),
        Some(path) => match file {
            Loaded::Missing => report.with(
                Status::Passed,
                "config not present, using defaults ("@ + path@ + ")"@,
            ),
            Loaded::Unreadable(error) => report.with(
                Status::Failed,
                "config unreadable ("@ + path@ + "): "@ + error@,
            ),
            Loaded::Malformed(error) => report.with(
                Status::Failed,
                "config invalid ("@ + path@ + "): "@ + ConfigErrorView::Toml(error@).message(),
            ),
            Loaded::Ready(config) => match config_problem(config@) {
                Some(problem) => report.with(
                    Status::Failed,
                    "config invalid ("@ + path@ + "): "@ + problem.message(),
                ),
                None => report.with(Status::Passed, "config valid: "@ + path@),
            },
        },
    }
}

/// Look at the configuration.
pub fn check_config(report: &mut Report, path: Option<&str>, file: &Loaded<Config>)
    requires
        old(report)@.has_room(),
    ensures
        final(report)@ == config_checked(old(report)@, path, *file),
{
    let path = match path {
        Some(path) => path,
        None => {
            report.fail("config: cannot determine config directory (HOME unset)");
            return ;
        },
    };
    match file {
        Loaded::Missing => {
            report.ok(line3("config not present, using defaults (", path, ")").as_str());
        },
        Loaded::Unreadable(error) => {
            let mut message = line3("config unreadable (", path, "): ");
            message.append(error.as_str());
            report.fail(message.as_str());
        },
        Loaded::Malformed(error) => {
            let error = ConfigError::Toml(error.clone());
            let mut message = line3("config invalid (", path, "): ");
            message.append(error.message().as_str());
            report.fail(message.as_str());
        },
        Loaded::Ready(config) => match config.validate() {
            Ok(()) => {
                let mut message = "config valid: ".to_owned();
                message.append(path);
                report.ok(message.as_str());
            },
            Err(error) => {
                let mut message = line3("config invalid (", path, "): ");
                message.append(error.message().as_str());
                report.fail(message.as_str());
            },
        },
    }
}

/// Look at the daemon's socket.
pub fn check_daemon(report: &mut Report, socket: Option<&str>, present: bool)
    requires
        old(report)@.has_room(),
    ensures
        final(report)@ == (match socket {
            None => old(report)@.with(Status::Failed, "daemon: XDG_RUNTIME_DIR is not set"@),
            Some(socket) => if present {
                old(report)@.with(Status::Passed, "daemon socket present: "@ + socket@)
            } else {
                old(report)@.with(
                    Status::Warned,
                    "daemon not running (no socket at "@ + socket@ + ")"@,
                )
            },
        }),
{
    match socket {
        None => {
            report.fail("daemon: XDG_RUNTIME_DIR is not set");
        },
        Some(socket) => {
            if present {
                let mut message = "daemon socket present: ".to_owned();
                message.append(socket);
                report.ok(message.as_str());
            } else {
                report.warn(line3("daemon not running (no socket at ", socket, ")").as_str());
            }
        },
    }
}

/// Warnings never make a report unhealthy, and one failure always does.
pub proof fn law_only_failures_count(report: ReportView, status: Status, message: Seq<char>)
    requires
        report.failures < u32::MAX,
    ensures
        report.with(status, message).failures == 0 <==> report.failures == 0 && !(status is Failed),
{
}

/// A report tells every outcome in a line of its own behind the others, and
/// counts it where it belongs: failures as failures, warnings as warnings.
pub proof fn law_outcomes_are_counted(report: ReportView, status: Status, message: Seq<char>)
    requires
        report.has_room(),
    ensures
        report.with(status, message).lines.len() == report.lines.len() + 1,
        report.with(status, message).lines.drop_last() == report.lines,
        finishes(report.with(status, message).lines.last(), message),
        report.with(status, message).failures == report.failures + (if status is Failed {
            1int
        } else {
            0
        }),
        report.with(status, message).warnings == report.warnings + (if status is Warned {
            1int
        } else {
            0
        }),
{
    let front = "["@ + status_text(status) + "] "@;
    let line = front + message;
    assert(line.skip(line.len() - message.len()) =~= message);
    assert(report.with(status, message).lines.drop_last() =~= report.lines);
}

/// What is missing or wrong fails the report, and nothing else does: a socket
/// that is not there, windows that cannot be read, a configuration that cannot
/// be placed, read or used. Windows without a stable id are only worth a
/// warning.
pub proof fn law_problems_fail_the_report(
    report: ReportView,
    label: Seq<char>,
    path: Seq<char>,
    present: bool,
    clients: Result<Vec<Client>, HyprError>,
    place: Option<&str>,
    file: Loaded<Config>,
)
    requires
        report.has_room(),
    ensures
        socket_checked(report, label, path, present).failures == report.failures + (if present {
            0int
        } else {
            1
        }),
        finishes(socket_checked(report, label, path, present).lines.last(), path),
        clients_checked(report, clients).failures == report.failures + (if clients is Ok {
            0int
        } else {
            1
        }),
        clients_checked(report, clients).warnings > report.warnings <==> (clients matches Ok(list)
            && list.len() > 0 && forall|i: int|
            0 <= i < list.len() ==> (#[trigger] list@[i])@.stable_id is None),
        config_checked(report, place, file).failures == report.failures <==> (place is Some && (
        file is Missing || (file matches Loaded::Ready(config) && config_problem(config@) is None))),
{
    let line = socket_checked(report, label, path, present).lines.last();
    assert(line.skip(line.len() - path.len()) =~= path);
    if let Ok(list) = clients {
        let views = list.deep_view();
        if forall|i: int| 0 <= i < list.len() ==> (#[trigger] list@[i])@.stable_id is None {
            assert forall|i: int| 0 <= i < views.len() implies (
            #[trigger] views[i]).stable_id is None by {
                assert(views[i] == list@[i]@);
            }
        }
        if lacks_stable_ids(views) {
            assert forall|i: int| 0 <= i < list.len() implies (
            #[trigger] list@[i])@.stable_id is None by {
                assert(views[i] == list@[i]@);
            }
        }
    }
}

} // verus!
