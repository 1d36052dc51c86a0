//! The command line: managed blocks, reports, tables and answers.

use omarchy_workspaces::cli::blocks::{has_block, remove_block, upsert_block, BLOCK_BEGIN};
use omarchy_workspaces::cli::doctor::{
    check_clients, check_config, check_daemon, check_paths, check_socket, check_version, Report,
};
use omarchy_workspaces::cli::output::{
    assigned_line, closed_line, created_line, duplicated_line, imported_line, list_lines, log_tail,
    pad, reloaded_line, renamed_line, rules_lines, saved_line, status_lines, switched_line,
    truncate, windows_lines,
};
use omarchy_workspaces::cli::panel::{
    autostart_entry, autostart_note, autostart_path, panel_command, panel_status_lines,
    start_dispatch, toggles_path, LAYER_RULES,
};
use omarchy_workspaces::cli::replies::{counted_member, shown_member};
use omarchy_workspaces::cli::search::{exported_file, exported_line, search_lines};
use omarchy_workspaces::cli::session::{
    confirms, group_request, judge, next_request, plan_lines, project_at, read_position,
    restore_note, restoring_line, unreachable_text, GroupCmd, Incoming, RestoreNote, Verdict,
};
use omarchy_workspaces::daemon::requests::Loaded;
use omarchy_workspaces::domain::config::Config;
use omarchy_workspaces::domain::events::DomainEvent;
use omarchy_workspaces::domain::model::{LaunchSpec, Placement, Readiness, Slug, WindowIdentity};
use omarchy_workspaces::domain::restore::{AdoptStep, LaunchStep, RestorePlan};
use omarchy_workspaces::domain::world::{TrackedWindow, WindowFacts};
use omarchy_workspaces::hypr::ctl::version_tag;
use omarchy_workspaces::hypr::error::HyprError;
use omarchy_workspaces::json::Json;
use omarchy_workspaces::proto::{
    DaemonStatus, ErrorBody, ErrorCode, ProjectSummary, Reply, Request, RuleMatch, RuleReport,
    Snapshot,
};

#[test]
fn block_upsert_and_remove_are_surgical() {
    let start = "# user stuff\nexec-once = something\n";
    let (first, changed) = upsert_block(start, "exec-once = panel");
    assert!(changed);
    // Idempotent.
    let (again, changed) = upsert_block(&first, "exec-once = panel");
    assert!(!changed);
    assert_eq!(again, first);
    // Updating replaces in place.
    let (text, changed) = upsert_block(&first, "exec-once = panel-v2");
    assert!(changed);
    assert!(text.contains("exec-once = panel-v2"));
    assert!(!text.contains("exec-once = panel\n"));
    assert_eq!(text.matches(BLOCK_BEGIN).count(), 1);

    let removed = remove_block(&text).unwrap();
    assert_eq!(removed, "# user stuff\nexec-once = something\n");
    assert!(remove_block(&removed).is_none());
    assert!(has_block(&text) && !has_block(&removed));
}

#[test]
fn warnings_do_not_fail_the_report() {
    let mut report = Report::default();
    check_socket(&mut report, "socket", "/run/s", true);
    report.warn("careful");
    assert!(report.healthy());
    assert_eq!(report.exit_code(), 0);
    assert_eq!(report.summary(), "doctor: healthy (1 warning)");
    assert_eq!(report.lines[0], "[  ok  ] hyprland socket: /run/s");
    check_socket(&mut report, "socket", "/run/s", false);
    assert!(!report.healthy());
    assert_eq!(report.exit_code(), 1);
    assert_eq!(report.summary(), "doctor: 1 check(s) failed, 1 warning(s)");
}

#[test]
fn each_check_reports() {
    let mut report = Report::default();
    assert!(check_version(&mut report, &Ok(Some("v0.56".into()))));
    assert_eq!(report.lines[0], "[  ok  ] hyprland responds to IPC (version v0.56)");
    assert!(!check_version(&mut report, &Err(HyprError::Io("refused".into()))));
    assert_eq!(report.failures, 1);
    check_clients(&mut report, &Ok(vec![]));
    assert!(report.lines[2].contains("0 windows"));
    check_paths(&mut report, &HyprError::MissingEnv("XDG_RUNTIME_DIR".into()));
    assert_eq!(report.failures, 2);
    check_config(&mut report, Some("/c/config.toml"), &Loaded::Ready(Config::default()));
    check_config(&mut report, Some("/c/config.toml"), &Loaded::Malformed("line 1".into()));
    assert_eq!(report.failures, 3);
    check_daemon(&mut report, Some("/run/d.sock"), true);
    assert_eq!(report.failures, 3);
    assert_eq!(report.lines.len(), 7);
}

fn summary(slug: &str, name: &str, windows: usize, active: bool) -> ProjectSummary {
    ProjectSummary {
        slug: Slug::parse(slug).unwrap(),
        name: name.into(),
        active,
        windows,
        groups: vec![],
        workspace: slug.into(),
    }
}

#[test]
fn projects_are_listed_in_columns() {
    assert_eq!(
        list_lines(&vec![]),
        ["no projects yet \u{2014} create one with `workspace create <name>`"]
    );
    let lines = list_lines(&vec![summary("ai", "AI Research", 3, true)]);
    assert_eq!(lines[0], format!("{:<2} {:<20} {:<8} {}", "", "SLUG", "WINDOWS", "NAME"));
    assert_eq!(lines[1], format!("{:<2} {:<20} {:<8} {}", "*", "ai", 3, "AI Research"));
}

#[test]
fn subcommands_say_what_they_did() {
    let ai = summary("ai", "AI Research", 3, true);
    assert_eq!(created_line(&ai), "created project 'AI Research' (ai) on workspace name:ai");
    assert_eq!(switched_line(&ai), "switched to 'AI Research' (ai)");
    assert_eq!(duplicated_line(&ai), "duplicated as 'AI Research' (ai)");
    assert_eq!(renamed_line(&ai), "renamed 'ai' to 'AI Research'");
    assert_eq!(imported_line(&ai), "imported 'AI Research' as ai");
    assert_eq!(assigned_line("0xa", "ai"), "assigned 0xa to ai");
    assert_eq!(saved_line("ai", 1), "saved 'ai' (1 app slot)");
    assert_eq!(closed_line("ai", 2), "closed 'ai' (2 windows)");
    assert_eq!(reloaded_line(4), "reloaded (4 rules active)");
}

#[test]
fn cells_are_padded_and_cut() {
    assert_eq!(pad("ab", 4), "ab  ");
    assert_eq!(pad("abcd", 2), "abcd");
    assert_eq!(truncate("abcdef", 4), "abc\u{2026}");
    assert_eq!(truncate("abcd", 4), "abcd");
}

#[test]
fn status_is_summarised() {
    let status = DaemonStatus {
        version: "0.3.0".into(),
        uptime_s: 12,
        hypr_connected: true,
        active_project: None,
        windows: 2,
        projects: 1,
        update_available: None,
    };
    assert_eq!(
        status_lines(&status),
        [
            "daemon      v0.3.0 (up 12s)",
            "hyprland    connected",
            "project     (none active)",
            "windows     2",
            "projects    1",
        ]
    );
}

#[test]
fn windows_are_listed_with_the_focus() {
    let mut s = Snapshot {
        projects: vec![],
        windows: vec![],
        workspaces: vec![],
        monitors: vec![],
        focused_window: Some("0xa".into()),
        hypr_connected: true,
        update_available: None,
    };
    assert_eq!(windows_lines(&s), ["no windows tracked"]);
    s.windows.push(TrackedWindow {
        address: "0xa".into(),
        stable_id: None,
        facts: WindowFacts {
            class: "kitty".into(),
            title: "t".repeat(80),
            workspace: "1".into(),
            ..Default::default()
        },
        assignment: None,
        assigned_by: None,
    });
    let lines = windows_lines(&s);
    assert_eq!(
        lines[1],
        format!("{:<16} {:<20} {:<14} {:<6} {}", "0xa", "kitty", "1", "*", "t".repeat(60))
    );
}

#[test]
fn rule_reports_name_the_rules() {
    let report = RuleReport {
        address: "0xa".into(),
        class: "kitty".into(),
        title: "shell".into(),
        executable: None,
        matches: vec![RuleMatch {
            rule: "terminals".into(),
            project: Slug::parse("dev").unwrap(),
            group: None,
            stop: true,
        }],
    };
    let lines = rules_lines(&report);
    assert!(lines.iter().any(|l| l.contains("terminals") && l.contains("dev")));
}

#[test]
fn logs_show_their_end() {
    assert_eq!(log_tail("a\nb\nc\n", 2), ["b", "c"]);
    assert_eq!(log_tail("a\n", 5), ["a"]);
}

#[test]
fn responses_are_told_from_other_lines() {
    let (envelope, next) = next_request(4, Request::DaemonStatus);
    assert_eq!((envelope.id, next), (4, 5));
    assert!(matches!(judge::<Reply>(4, Incoming::Event), Verdict::Wait));
    let stale = Incoming::Response { id: 3, outcome: Ok(Reply::Reloaded { rules: 0 }) };
    assert!(matches!(judge(4, stale), Verdict::Wait));
    let own = Incoming::Response { id: 4, outcome: Ok(Reply::Reloaded { rules: 0 }) };
    assert!(matches!(judge(4, own), Verdict::Success(Reply::Reloaded { rules: 0 })));
    let failed = ErrorBody { code: ErrorCode::NotFound, message: "no such".into(), candidates: None };
    match judge::<Reply>(4, Incoming::Response { id: 4, outcome: Err(Some(failed)) }) {
        Verdict::Failure(text) => assert_eq!(text, "no such (NOT_FOUND)"),
        other => panic!("{other:?}"),
    }
    match judge::<Reply>(4, Incoming::Closed) {
        Verdict::Failure(text) => {
            assert_eq!(text, "daemon closed the connection before responding");
        }
        other => panic!("{other:?}"),
    }
    assert!(matches!(judge::<Reply>(4, Incoming::Unparseable("x".into())), Verdict::Failure(_)));
    assert!(unreachable_text("/run/d.sock").contains("(cannot connect to /run/d.sock)"));
}

#[test]
fn answers_and_positions() {
    assert!(confirms("y\n") && confirms("yes") && confirms("Y"));
    assert!(!confirms("") && !confirms("no"));
    assert_eq!(read_position("2"), Ok(2));
    assert_eq!(
        read_position("0"),
        Err("error: --index takes a 1-based number, got '0'".to_owned())
    );
    assert!(read_position("x").is_err());
    let list = vec![summary("ai", "AI", 0, false)];
    assert_eq!(project_at(&list, 1), Ok("ai".to_owned()));
    assert_eq!(
        project_at(&list, 2),
        Err("error: no project at position 2 (there are 1)".to_owned())
    );
}

fn text(s: &str) -> Json {
    Json::Text(s.to_owned())
}

fn object(members: Vec<(&str, Json)>) -> Json {
    Json::Object(members.into_iter().map(|(key, value)| (key.to_owned(), value)).collect())
}

#[test]
fn search_results_are_listed() {
    assert_eq!(search_lines(&Json::Null), ["no matches"]);
    let reply = object(vec![(
        "results",
        Json::List(vec![
            object(vec![("kind", text("project")), ("slug", text("ai")), ("label", text("AI"))]),
            object(vec![("kind", text("window")), ("label", text("shell"))]),
        ]),
    )]);
    assert_eq!(
        search_lines(&reply),
        [format!("project  {:<20} {}", "ai", "AI"), format!("window   {:<20} {}", "?", "shell")]
    );
    let exported = object(vec![("slug", text("ai")), ("toml", text("version = 1"))]);
    assert_eq!(exported_line(&exported, "/tmp/ai.toml"), "exported 'ai' to /tmp/ai.toml");
    assert_eq!(exported_file(&exported), "version = 1");
}

#[test]
fn the_panel_is_wired_into_the_desktop() {
    assert_eq!(
        autostart_path(Some("/home/me")).as_deref(),
        Some("/home/me/.config/hypr/autostart.conf")
    );
    assert_eq!(
        toggles_path(Some("/home/me")).as_deref(),
        Some("/home/me/.local/state/omarchy/toggles/hypr/workspace-panel.conf")
    );
    assert_eq!(autostart_path(None), None);
    assert_eq!(panel_command(None), "workspace-panel");
    assert_eq!(autostart_entry("workspace-panel"), "exec-once = uwsm-app -- workspace-panel");
    let start = start_dispatch("workspace-panel", false).unwrap();
    assert_eq!(start.render(), "exec uwsm-app -- workspace-panel");
    assert!(start_dispatch("workspace-panel", true).is_none());
    assert_eq!(autostart_note(true, "/a"), "autostart entry added to /a");
    let (text, _) = upsert_block("", "exec-once = x");
    assert_eq!(
        panel_status_lines(&Some(text), false, true),
        ["autostart entry   present", "layer rules       absent", "panel process     running"]
    );
    assert!(LAYER_RULES.ends_with("match:namespace workspace-panel\n"));
}

#[test]
fn group_commands_become_requests() {
    let hide = GroupCmd::Hide { project: "web".into(), group: "api".into() };
    assert!(matches!(
        group_request(hide),
        Request::GroupHide { project, group } if project == "web" && group == "api"
    ));
    let moved = GroupCmd::Move { project: "web".into(), group: "api".into(), to: "ai".into() };
    assert!(matches!(group_request(moved), Request::GroupMove { to, .. } if to == "ai"));
}

#[test]
fn plans_and_runs_are_shown() {
    let plan = RestorePlan {
        project: Slug::parse("dev").unwrap(),
        workspace: "dev".into(),
        adopt: vec![AdoptStep {
            slot_id: 1,
            label: "browser".into(),
            address: "0xf".into(),
            needs_move: true,
            placement: Placement::default(),
            group: None,
        }],
        waves: vec![vec![LaunchStep {
            slot_id: 2,
            label: "db".into(),
            spec: LaunchSpec { command: "postgres".into(), ..Default::default() },
            identity: WindowIdentity::default(),
            placement: Placement::default(),
            group: None,
            after: vec![],
            readiness: Readiness::Window,
        }]],
        extra: vec!["0xe".into()],
    };
    assert_eq!(
        plan_lines(&plan),
        [
            "plan for 'dev':",
            "  adopt   browser (0xf) -> move to project workspace",
            "  launch  [wave 1] db (postgres)",
            "  keep    0xe (no matching slot)",
        ]
    );
    assert_eq!(restoring_line(&plan), "restoring 'dev': adopting 1, launching 1");
    assert!(matches!(restore_note(&DomainEvent::ShuttingDown), RestoreNote::Nothing));
    let finished = DomainEvent::RestoreFinished {
        project: "dev".into(),
        adopted: 1,
        launched: 0,
        failed: vec!["db".into()],
    };
    match restore_note(&finished) {
        RestoreNote::Finished(text, code) => {
            assert_eq!(text, "finished with failures: 1 adopted, 0 launched, failed: db");
            assert_eq!(code, 1);
        }
        other => panic!("{other:?}"),
    }
}

#[test]
fn members_of_replies_have_stand_ins() {
    let reply = Json::Object(vec![
        ("saved".into(), Json::Text("dev".into())),
        ("slots".into(), Json::Number("3".into())),
        ("odd".into(), Json::Number("-1".into())),
    ]);
    assert_eq!(shown_member(&reply, "saved"), "dev");
    assert_eq!(shown_member(&reply, "slots"), "?");
    assert_eq!(shown_member(&reply, "none"), "?");
    assert_eq!(counted_member(&reply, "slots"), 3);
    assert_eq!(counted_member(&reply, "odd"), 0);
    assert_eq!(counted_member(&reply, "saved"), 0);
    assert_eq!(counted_member(&Json::Null, "slots"), 0);
}

#[test]
fn the_version_tag_is_picked() {
    let reply = Json::Object(vec![("tag".into(), Json::Text("v0.50.0".into()))]);
    assert_eq!(version_tag(&reply).as_deref(), Some("v0.50.0"));
    assert_eq!(version_tag(&Json::Object(vec![("tag".into(), Json::Null)])), None);
    assert_eq!(version_tag(&Json::Null), None);
}
