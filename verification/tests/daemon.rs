//! The daemon's state: hydration, events, requests and what is answered.

use omarchy_workspaces::daemon::arranging::{direction, next_step, Tile};
use omarchy_workspaces::daemon::autosave::{relevant, SaveTimer};
use omarchy_workspaces::daemon::commands::{Command, Effect};
use omarchy_workspaces::daemon::finding::rank;
use omarchy_workspaces::daemon::hydration::{
    enrichment, enrichment_target, executable_link, find_client, hydration, tracked_from_client,
};
use omarchy_workspaces::daemon::requests::{load_config, load_rules, Gathered, Loaded, Outcome};
use omarchy_workspaces::daemon::saving::Captured;
use omarchy_workspaces::daemon::server::{
    conclude, is_blank, refuse_document, refuse_line, respond, sort_out, wants, ActorAnswer,
    Admission,
};
use omarchy_workspaces::daemon::state::StateActor;
use omarchy_workspaces::daemon::updates::{
    check_interval, is_newer, release_version, tag_version, update_for, Updates,
};
use omarchy_workspaces::domain::config::{Autosave, Config, RuleAction};
use omarchy_workspaces::domain::events::DomainEvent;
use omarchy_workspaces::domain::model::{
    AppSlot, LaunchSpec, Placement, Project, ProjectId, Slug, WindowIdentity,
};
use omarchy_workspaces::domain::rules::{
    MatcherRegistry, MatcherSpec, RuleSet, RuleSpec, RulesFile,
};
use omarchy_workspaces::domain::world::AssignmentSource;
use omarchy_workspaces::hypr::ctl::{Dispatch, MoveDir};
use omarchy_workspaces::hypr::error::HyprError;
use omarchy_workspaces::hypr::events::HyprEvent;
use omarchy_workspaces::hypr::model::{Client, Monitor, WindowAddress, Workspace, WorkspaceRef};
use omarchy_workspaces::json::Json;
use omarchy_workspaces::proto::{
    DaemonStatus, ErrorBody, ErrorCode, GroupOperation, Hit, HitKind, Reply, Request,
    RequestEnvelope, Snapshot, PROTOCOL_VERSION,
};
use omarchy_workspaces::storage::runtime::{RuntimeAssignment, RuntimeState};

fn client(address: &str, class: &str, title: &str, pid: i32, stable_id: &str) -> Client {
    Client {
        address: WindowAddress::new(address),
        mapped: true,
        hidden: false,
        at: (0, 26),
        size: (3440, 1414),
        workspace: WorkspaceRef { id: 1, name: "1".into() },
        floating: false,
        pinned: false,
        fullscreen: 0,
        monitor: 0,
        class: class.into(),
        title: title.into(),
        initial_class: class.into(),
        initial_title: title.into(),
        pid,
        xwayland: false,
        grouped: vec![],
        focus_history_id: 0,
        stable_id: Some(stable_id.into()),
        extra: vec![],
    }
}

fn firefox() -> Client {
    client("0xaaa1", "firefox", "Mozilla Firefox", 4242, "abc123")
}

fn workspaces() -> Vec<Workspace> {
    vec![Workspace {
        id: 1,
        name: "1".into(),
        monitor: "DP-1".into(),
        monitor_id: 0,
        windows: 1,
        has_fullscreen: false,
        last_window: "0xaaa1".into(),
        is_persistent: false,
        extra: vec![("tiledLayout".into(), Json::Text("dwindle".into()))],
    }]
}

fn monitors() -> Vec<Monitor> {
    vec![Monitor {
        id: 0,
        name: "DP-1".into(),
        description: "test".into(),
        focused: true,
        active_workspace: WorkspaceRef { id: 1, name: "1".into() },
        special_workspace: WorkspaceRef { id: 0, name: "".into() },
        x: 0,
        y: 0,
        width: 3440,
        height: 1440,
        extra: vec![("scale".into(), Json::Number("1.5".into()))],
    }]
}

fn start(config: Config, rules: RuleSet) -> StateActor {
    StateActor::start(config, rules, None, "0.3.0".into(), vec![])
}

/// A daemon that has connected and taken the dump of one firefox window.
fn boot() -> StateActor {
    let mut actor = start(Config::default(), RuleSet::default());
    actor.handle(Command::HyprConnection(true));
    actor.handle(hydration(&vec![firefox()], &vec![None], &workspaces(), &monitors(), &None));
    actor.outbox.clear();
    actor
}

fn hypr(actor: &mut StateActor, line: &str) -> Vec<String> {
    match actor.handle(Command::Hypr(HyprEvent::parse(line))) {
        Effect::Tell(dispatches) => dispatches.iter().map(|d| d.render()).collect(),
        _ => vec![],
    }
}

fn nothing() -> Gathered {
    Gathered {
        config: Loaded::Missing,
        rules: Loaded::Missing,
        captured: vec![],
        imported: Err("nothing to import".into()),
    }
}

fn ask(actor: &mut StateActor, request: Request) -> Outcome {
    ask_with(actor, request, nothing())
}

fn ask_with(actor: &mut StateActor, request: Request, gathered: Gathered) -> Outcome {
    let command = Command::Request { request, id: ProjectId::new(), uptime: 7, gathered };
    match actor.handle(command) {
        Effect::Answer(outcome) => outcome,
        _ => panic!("a request is answered"),
    }
}

fn reply(actor: &mut StateActor, request: Request) -> Reply {
    match ask(actor, request) {
        Outcome::Reply(Ok(reply)) => reply,
        Outcome::DispatchThen { result, .. } | Outcome::Restore { result, .. } => result,
        Outcome::Reply(Err(error)) => panic!("request failed: {error:?}"),
    }
}

fn error(actor: &mut StateActor, request: Request) -> ErrorBody {
    match ask(actor, request) {
        Outcome::Reply(Err(error)) => error,
        other => panic!("{other:?}"),
    }
}

fn status(actor: &mut StateActor) -> DaemonStatus {
    match reply(actor, Request::DaemonStatus) {
        Reply::Status(status) => status,
        other => panic!("{other:?}"),
    }
}

fn snapshot(actor: &mut StateActor) -> Snapshot {
    match reply(actor, Request::StateSnapshot) {
        Reply::Snapshot(snapshot) => snapshot,
        other => panic!("{other:?}"),
    }
}

fn events(actor: &mut StateActor) -> Vec<DomainEvent> {
    actor.outbox.drain(..).map(|envelope| envelope.data).collect()
}

#[test]
fn hydrates_tracks_and_pushes_events() {
    let mut actor = boot();
    // Hydration from the dump: the pre-existing firefox window is tracked,
    // with workspace and stable id intact.
    let s = snapshot(&mut actor);
    assert!(s.hypr_connected && s.windows.len() == 1);
    assert_eq!(s.windows[0].address, "0xaaa1");
    assert_eq!(s.windows[0].facts.class, "firefox");
    assert_eq!(s.windows[0].stable_id.as_deref(), Some("abc123"));
    assert_eq!(s.workspaces.len(), 1);
    assert_eq!(s.monitors[0].name, "DP-1");

    hypr(&mut actor, "openwindow>>bbb2,1,kitty,shell");
    assert!(actor.outbox[0].seq > 0);
    assert_eq!(
        events(&mut actor)[0],
        DomainEvent::WindowOpened {
            address: "0xbbb2".into(),
            class: "kitty".into(),
            title: "shell".into(),
            workspace: "1".into(),
        }
    );

    // Enrichment lands: floating + geometry from the follow-up clients fetch.
    let mut second = client("0xbbb2", "kitty", "shell", 555, "def456");
    second.at = (10, 30);
    second.size = (800, 600);
    second.floating = true;
    let event = HyprEvent::parse("openwindow>>bbb2,1,kitty,shell");
    let target = enrichment_target(&event).unwrap();
    let clients = vec![firefox(), second];
    let found = find_client(&clients, &target).unwrap();
    actor.handle(enrichment(&clients[found], None));
    let s = snapshot(&mut actor);
    assert_eq!(s.windows.len(), 2);
    assert!(s
        .windows
        .iter()
        .any(|w| w.address == "0xbbb2" && w.facts.floating && w.facts.pid == 555));
    assert!(s.windows.iter().any(|w| w.stable_id.as_deref() == Some("def456")));

    // Close it again; tracked state and events follow.
    events(&mut actor);
    hypr(&mut actor, "closewindow>>bbb2");
    assert_eq!(
        events(&mut actor)[0],
        DomainEvent::WindowClosed { address: "0xbbb2".into() }
    );
    assert_eq!(snapshot(&mut actor).windows.len(), 1);

    // Status reflects reality.
    let status = status(&mut actor);
    assert_eq!(status.windows, 1);
    assert!(status.hypr_connected);
    assert_eq!((status.version.as_str(), status.uptime_s), ("0.3.0", 7));
}

#[test]
fn topic_filtering_and_focus_events() {
    let mut actor = boot();
    let topics = vec!["workspaces".to_owned()];

    // A window-topic event must NOT arrive; a workspace one must.
    hypr(&mut actor, "activewindowv2>>aaa1");
    hypr(&mut actor, "workspacev2>>2,2");
    let wanted: Vec<DomainEvent> =
        events(&mut actor).into_iter().filter(|event| wants(&topics, event)).collect();
    assert_eq!(wanted[0], DomainEvent::WorkspaceChanged { id: 2, name: "2".into() });

    // Focus landed in the snapshot even though the event was filtered out.
    assert_eq!(snapshot(&mut actor).focused_window.as_deref(), Some("0xaaa1"));
}

#[test]
fn project_lifecycle_and_switching() {
    let mut actor = boot();

    // Create two projects.
    let create = Request::ProjectCreate { name: "Web Development".into(), slug: None };
    match reply(&mut actor, create) {
        Reply::Project(created) => {
            assert_eq!(created.slug.as_str(), "web-development");
            assert_eq!(created.workspace, "web-development");
        }
        other => panic!("{other:?}"),
    }
    reply(&mut actor, Request::ProjectCreate { name: "AI Research".into(), slug: Some("ai".into()) });

    match reply(&mut actor, Request::ProjectList) {
        Reply::Projects(list) => assert_eq!(list.len(), 2),
        other => panic!("{other:?}"),
    }

    // Duplicate slug is refused.
    let raw =
        error(&mut actor, Request::ProjectCreate { name: "Другой".into(), slug: Some("ai".into()) });
    assert_eq!(raw.code.text(), "CONFLICT");

    // Fuzzy switch by unique prefix issues the right dispatch.
    match ask(&mut actor, Request::ProjectSwitch { project: "web".into() }) {
        Outcome::DispatchThen { dispatches, result: Reply::Project(switched) } => {
            assert_eq!(switched.slug.as_str(), "web-development");
            let rendered: Vec<String> = dispatches.iter().map(|d| d.render()).collect();
            assert!(rendered.contains(&"workspace name:web-development".to_string()));
        }
        other => panic!("{other:?}"),
    }

    // Unknown project is a NOT_FOUND with candidates.
    let raw = error(&mut actor, Request::ProjectSwitch { project: "zzz".into() });
    assert_eq!(raw.code.text(), "NOT_FOUND");
    assert!(raw.candidates.is_some());

    // Manual window assignment moves the window silently.
    let assign =
        Request::WindowAssign { address: "0xaaa1".into(), project: "ai".into(), group: None };
    match ask(&mut actor, assign) {
        Outcome::DispatchThen { dispatches, result: Reply::Assigned { project, .. } } => {
            assert_eq!(project.as_str(), "ai");
            let rendered: Vec<String> = dispatches.iter().map(|d| d.render()).collect();
            assert!(rendered
                .contains(&"movetoworkspacesilent name:ai,address:0xaaa1".to_string()));
        }
        other => panic!("{other:?}"),
    }
    let s = snapshot(&mut actor);
    assert!(s.projects.iter().any(|p| p.slug.as_str() == "ai" && p.windows == 1));
    assert!(s.windows[0].assignment.is_some());

    // Status reflects the active project.
    let status = status(&mut actor);
    assert_eq!(status.active_project.unwrap().as_str(), "web-development");
    assert_eq!(status.projects, 2);

    // Deleting the assigned project clears assignments.
    reply(&mut actor, Request::ProjectDelete { slug: "ai".into() });
    let s = snapshot(&mut actor);
    assert_eq!(s.projects.len(), 1);
    assert!(s.windows[0].assignment.is_none());
}

#[test]
fn workspace_events_track_active_project() {
    let mut actor = boot();
    reply(&mut actor, Request::ProjectCreate { name: "Gaming".into(), slug: None });

    // The user focuses the project workspace by hand (keybind/waybar):
    // active_project follows.
    hypr(&mut actor, "workspacev2>>-100,gaming");
    assert_eq!(status(&mut actor).active_project.unwrap().as_str(), "gaming");

    // Focusing a numeric workspace deactivates the project.
    hypr(&mut actor, "workspacev2>>1,1");
    assert!(status(&mut actor).active_project.is_none());
}

#[test]
fn refused_requests_leave_everything_as_it_was() {
    let mut actor = boot();
    let before = snapshot(&mut actor);
    let seq = actor.seq;
    let bad = Request::ProjectCreate { name: "x".into(), slug: Some("Not A Slug".into()) };
    assert_eq!(error(&mut actor, bad).code, ErrorCode::BadRequest);
    let unknown = Request::ProjectDelete { slug: "nope".into() };
    assert_eq!(error(&mut actor, unknown).code, ErrorCode::NotFound);
    let lost = Request::WindowAssign { address: "0xdead".into(), project: "x".into(), group: None };
    assert_eq!(error(&mut actor, lost).code, ErrorCode::NotFound);
    assert_eq!(snapshot(&mut actor), before);
    assert_eq!(actor.seq, seq);
    assert!(actor.outbox.is_empty());
}

#[test]
fn ambiguous_queries_name_the_candidates() {
    let mut actor = boot();
    for name in ["Web Design", "Web Development"] {
        reply(&mut actor, Request::ProjectCreate { name: name.into(), slug: None });
    }
    let raw = error(&mut actor, Request::ProjectSwitch { project: "web".into() });
    assert_eq!(raw.code, ErrorCode::Ambiguous);
    assert_eq!(raw.candidates.unwrap().len(), 2);
}

fn kitty_rules() -> RulesFile {
    RulesFile {
        version: None,
        rules: vec![RuleSpec {
            name: "terminals".into(),
            priority: 0,
            project: "dev".into(),
            group: None,
            stop: true,
            matchers: vec![(
                "class".into(),
                MatcherSpec { equals: Some("kitty".into()), ..Default::default() },
            )],
        }],
    }
}

#[test]
fn rules_place_new_windows_and_never_override() {
    let rules = match RuleSet::compile(&kitty_rules(), &MatcherRegistry::builtin()) {
        Ok(rules) => rules,
        Err(errors) => panic!("{errors:?}"),
    };
    let mut actor = start(Config::default(), rules);
    actor.handle(Command::HyprConnection(true));
    reply(&mut actor, Request::ProjectCreate { name: "Dev".into(), slug: None });
    reply(&mut actor, Request::ProjectCreate { name: "Other".into(), slug: None });

    hypr(&mut actor, "openwindow>>bbb2,1,kitty,shell");
    let window = client("0xbbb2", "kitty", "shell", 5, "s");
    match actor.handle(enrichment(&window, None)) {
        Effect::Tell(told) => {
            let rendered: Vec<String> = told.iter().map(|d| d.render()).collect();
            assert_eq!(rendered, ["movetoworkspacesilent name:dev,address:0xbbb2"]);
        }
        _ => panic!("the window is moved"),
    }
    assert!(events(&mut actor).contains(&DomainEvent::RuleMatched {
        rule: "terminals".into(),
        address: "0xbbb2".into(),
        project: "dev".into(),
    }));

    // A manual assignment stands when the window's facts arrive again.
    let assign =
        Request::WindowAssign { address: "0xbbb2".into(), project: "other".into(), group: None };
    reply(&mut actor, assign);
    assert!(matches!(actor.handle(enrichment(&window, None)), Effect::Nothing));
    let other = actor.projects[1].id;
    assert_eq!(actor.world.windows.get("0xbbb2").unwrap().assignment, Some((other, None)));
}

#[test]
fn rules_may_only_assign() {
    let mut config = Config::default();
    config.general.rule_action = RuleAction::Assign;
    let rules = match RuleSet::compile(&kitty_rules(), &MatcherRegistry::builtin()) {
        Ok(rules) => rules,
        Err(errors) => panic!("{errors:?}"),
    };
    let mut actor = start(config, rules);
    reply(&mut actor, Request::ProjectCreate { name: "Dev".into(), slug: None });
    hypr(&mut actor, "openwindow>>bbb2,1,kitty,shell");
    let window = client("0xbbb2", "kitty", "shell", 5, "s");
    assert!(matches!(actor.handle(enrichment(&window, None)), Effect::Nothing));
    assert!(actor.world.windows.get("0xbbb2").unwrap().assignment.is_some());
}

#[test]
fn events_are_numbered_without_gaps() {
    let mut actor = boot();
    let first = actor.seq + 1;
    hypr(&mut actor, "activewindowv2>>aaa1");
    hypr(&mut actor, "windowtitlev2>>aaa1,New");
    hypr(&mut actor, "workspacev2>>2,2");
    let seqs: Vec<u64> = actor.outbox.iter().map(|e| e.seq).collect();
    let want: Vec<u64> = (first..first + seqs.len() as u64).collect();
    assert_eq!(seqs, want);
    assert!(actor.outbox.iter().all(|e| e.v == PROTOCOL_VERSION));
}

#[test]
fn shutdown_and_updates_are_announced() {
    let mut actor = boot();
    actor.handle(Command::UpdateAvailable("0.4.0".into()));
    assert_eq!(status(&mut actor).update_available.as_deref(), Some("0.4.0"));
    assert!(events(&mut actor).contains(&DomainEvent::UpdateAvailable { version: "0.4.0".into() }));
    assert!(matches!(actor.handle(Command::Shutdown), Effect::Stop));
    assert!(events(&mut actor).contains(&DomainEvent::ShuttingDown));
}

#[test]
fn the_state_to_keep_lists_assigned_windows() {
    let mut actor = boot();
    reply(&mut actor, Request::ProjectCreate { name: "Dev".into(), slug: None });
    let assign =
        Request::WindowAssign { address: "0xaaa1".into(), project: "dev".into(), group: None };
    reply(&mut actor, assign);
    match actor.handle(Command::Persist) {
        Effect::Save(state) => {
            assert_eq!(state.assignments.len(), 1);
            assert_eq!(state.assignments[0].0, "abc123");
            assert_eq!(state.assignments[0].1.project.as_str(), "dev");
            assert_eq!(state.assignments[0].1.source, "manual");
        }
        _ => panic!("the state is kept"),
    }
}

#[test]
fn reloading_reports_what_is_wrong() {
    let registry = MatcherRegistry::builtin();
    assert!(load_rules("r.toml", &Loaded::Missing, &registry).is_ok());
    assert!(load_rules("r.toml", &Loaded::Malformed("line 1".into()), &registry).is_err());
    let mut bad = kitty_rules();
    bad.rules[0].project = "Not A Slug".into();
    match load_rules("r.toml", &Loaded::Ready(bad), &registry) {
        Err(text) => assert!(text.contains("invalid slug")),
        Ok(_) => panic!("a bad slug is refused"),
    }
    match load_rules("r.toml", &Loaded::Ready(kitty_rules()), &registry) {
        Ok(rules) => assert_eq!(rules.len(), 1),
        Err(text) => panic!("{text}"),
    }
    assert!(load_config("c.toml", Loaded::Missing).is_ok());
    assert!(load_config("c.toml", Loaded::Unreadable("denied".into())).is_err());
    let mut config = Config::default();
    config.launcher.default_timeout_ms = 0;
    assert!(load_config("c.toml", Loaded::Ready(config)).is_err());
}

#[test]
fn windows_are_described_from_the_dump() {
    let window = tracked_from_client(&firefox(), Some("/usr/lib/firefox".into()));
    assert_eq!(window.facts.executable.as_deref(), Some("/usr/lib/firefox"));
    assert_eq!((window.facts.at, window.facts.size), ((0, 26), (3440, 1414)));
    assert_eq!(window.assignment, None);
    assert_eq!(executable_link(42).as_deref(), Some("/proc/42/exe"));
    assert_eq!(executable_link(0), None);
    assert_eq!(enrichment_target(&HyprEvent::ConfigReloaded), None);
    assert_eq!(find_client(&vec![firefox()], "0xdead"), None);
}

#[test]
fn a_project_kept_from_before_is_known() {
    let project = Project::with_id(ProjectId(9), "Web Dev").unwrap();
    let mut actor = StateActor::start(
        Config::default(),
        RuleSet::default(),
        None,
        "0.3.0".into(),
        vec![project],
    );
    match reply(&mut actor, Request::ProjectList) {
        Reply::Projects(list) => assert_eq!(list[0].slug.as_str(), "web-dev"),
        other => panic!("{other:?}"),
    }
    match ask(&mut actor, Request::ProjectSwitch { project: "web-dev".into() }) {
        Outcome::DispatchThen { dispatches, .. } => {
            assert_eq!(dispatches.len(), 1);
            assert!(matches!(dispatches[0], Dispatch::Workspace(_)));
        }
        other => panic!("{other:?}"),
    }
}

#[test]
fn a_workspace_of_the_user_is_not_claimed() {
    let mut actor = boot();
    hypr(&mut actor, "createworkspacev2>>-7,gaming");
    let create = Request::ProjectCreate { name: "Gaming".into(), slug: None };
    assert_eq!(error(&mut actor, create).code, ErrorCode::Conflict);
    hypr(&mut actor, "destroyworkspacev2>>-7,gaming");
    reply(&mut actor, Request::ProjectCreate { name: "Gaming".into(), slug: None });
    assert_eq!(actor.projects.len(), 1);
}

#[test]
fn deleting_the_active_project_deactivates_it() {
    let mut actor = boot();
    reply(&mut actor, Request::ProjectCreate { name: "Gaming".into(), slug: None });
    reply(&mut actor, Request::ProjectSwitch { project: "gam".into() });
    assert!(status(&mut actor).active_project.is_some());
    // A prefix is enough to switch but never to delete.
    assert_eq!(
        error(&mut actor, Request::ProjectDelete { slug: "gam".into() }).code,
        ErrorCode::NotFound
    );
    events(&mut actor);
    reply(&mut actor, Request::ProjectDelete { slug: "gaming".into() });
    assert!(status(&mut actor).active_project.is_none());
    assert_eq!(
        events(&mut actor),
        [
            DomainEvent::ProjectSwitched { slug: None },
            DomainEvent::ProjectDeleted { slug: "gaming".into() }
        ]
    );
}

#[test]
fn compositor_events_keep_assignments() {
    let mut actor = boot();
    reply(&mut actor, Request::ProjectCreate { name: "Dev".into(), slug: None });
    let assign =
        Request::WindowAssign { address: "0xaaa1".into(), project: "dev".into(), group: None };
    reply(&mut actor, assign);
    let before = actor.world.windows.get("0xaaa1").unwrap().assignment.clone();
    for line in [
        "openwindow>>aaa1,1,firefox,again",
        "windowtitlev2>>aaa1,New",
        "movewindowv2>>aaa1,2,2",
        "changefloatingmode>>aaa1,1",
        "pin>>aaa1,1",
        "fullscreen>>1",
    ] {
        hypr(&mut actor, line);
        assert_eq!(actor.world.windows.get("0xaaa1").unwrap().assignment, before, "{line}");
    }
    assert!(before.is_some());
}

#[test]
fn renaming_keeps_the_slug() {
    let mut actor = boot();
    reply(&mut actor, Request::ProjectCreate { name: "Dev".into(), slug: None });
    let rename = Request::ProjectRename { slug: "dev".into(), name: "Development".into() };
    match reply(&mut actor, rename) {
        Reply::Project(summary) => {
            assert_eq!((summary.slug.as_str(), summary.name.as_str()), ("dev", "Development"));
        }
        other => panic!("{other:?}"),
    }
    let unknown = Request::ProjectRename { slug: "nope".into(), name: "x".into() };
    assert_eq!(error(&mut actor, unknown).code, ErrorCode::NotFound);
}

#[test]
fn groups_must_exist() {
    let mut actor = boot();
    reply(&mut actor, Request::ProjectCreate { name: "Dev".into(), slug: None });
    let assign = |group: &str| Request::WindowAssign {
        address: "0xaaa1".into(),
        project: "dev".into(),
        group: Some(group.into()),
    };
    assert_eq!(error(&mut actor, assign("api")).code, ErrorCode::NotFound);
    assert_eq!(error(&mut actor, assign("Not A Slug")).code, ErrorCode::BadRequest);
}

#[test]
fn rules_are_tested_on_the_focused_window() {
    let mut actor = boot();
    let test = || Request::RulesTest { address: None };
    assert_eq!(error(&mut actor, test()).code, ErrorCode::BadRequest);
    hypr(&mut actor, "activewindowv2>>aaa1");
    match reply(&mut actor, test()) {
        Reply::Rules(report) => {
            assert_eq!(report.class, "firefox");
            assert!(report.matches.is_empty());
        }
        other => panic!("{other:?}"),
    }
    let reload = error(&mut actor, Request::ConfigReload);
    assert_eq!(reload.code, ErrorCode::BadRequest);
}

#[test]
fn error_codes_have_their_names() {
    let names: Vec<&str> = [
        ErrorCode::BadRequest,
        ErrorCode::UnknownMethod,
        ErrorCode::UnsupportedVersion,
        ErrorCode::NotFound,
        ErrorCode::Conflict,
        ErrorCode::Ambiguous,
        ErrorCode::Hyprland,
        ErrorCode::Internal,
    ]
    .iter()
    .map(|code| code.text())
    .collect();
    assert_eq!(
        names,
        [
            "BAD_REQUEST",
            "UNKNOWN_METHOD",
            "UNSUPPORTED_VERSION",
            "NOT_FOUND",
            "CONFLICT",
            "AMBIGUOUS",
            "HYPRLAND",
            "INTERNAL"
        ]
    );
}

// ---- autosave --------------------------------------------------------------------------------

#[test]
fn saves_wait_for_quiet_but_not_for_ever() {
    let settings = Autosave { enabled: true, debounce_ms: 2000, interval_s: 60 };
    let created = DomainEvent::ProjectCreated { slug: "a".into(), name: "A".into() };
    assert!(relevant(&created));
    assert!(!relevant(&DomainEvent::ShuttingDown));
    let mut timer = SaveTimer::idle();
    assert!(!timer.is_due(1_000_000));
    timer.on_event(&settings, &created, 1_000);
    assert!(!timer.is_due(2_999));
    assert!(timer.is_due(3_000));
    // Steady changes cannot put the save off beyond the interval.
    let mut now = 1_000;
    while now < 61_000 {
        timer.on_event(&settings, &created, now);
        now += 1_000;
    }
    assert!(timer.is_due(61_000));
    timer.on_saved();
    assert!(!timer.is_due(u64::MAX));
}

// ---- updates ---------------------------------------------------------------------------------

#[test]
fn version_comparison() {
    assert!(is_newer("0.2.0", "0.3.0"));
    assert!(is_newer("0.2.0", "0.2.1"));
    assert!(is_newer("0.9.9", "1.0.0"));
    assert!(is_newer("0.2.0", "0.2.0.1"));
    assert!(is_newer("0.2", "v0.2.1"));
    assert!(!is_newer("0.2.0", "0.2.0"));
    assert!(!is_newer("0.3.0", "0.2.9"));
    assert!(!is_newer("1.0.0", "0.9.9"));
    // Malformed tags never announce an update.
    assert!(!is_newer("0.2.0", "garbage"));
    assert!(!is_newer("0.2.0", ""));
}

#[test]
fn malformed_segments_count_as_zero() {
    assert!(!is_newer("0.2.0", "1garbage"));
    assert!(!is_newer("0.2.0", "0.2.1-rc1"));
    assert!(!is_newer("0.2.0", "99999999999999999999999.0"));
    assert!(is_newer("0.2.x", "0.2.1"));
}

#[test]
fn newer_than_newer_is_newer() {
    assert!(is_newer("0.1", "0.2") && is_newer("0.2", "0.10") && is_newer("0.1", "0.10"));
    assert!(!is_newer("0.10", "0.2"));
}

#[test]
fn releases_are_read_and_announced_when_newer() {
    assert_eq!(release_version(br#"{"tag_name": "v0.4.0"}"#).as_deref(), Some("0.4.0"));
    assert_eq!(release_version(b"rate limited"), None);
    assert_eq!(tag_version(&Json::Null), None);
    assert_eq!(update_for("0.3.0", Some("0.4.0".into())).as_deref(), Some("0.4.0"));
    assert_eq!(update_for("0.4.0", Some("0.4.0".into())), None);
    assert_eq!(update_for("0.4.0", None), None);
    assert!(check_interval(&Updates { check: true, interval_hours: 24 }) >= 3600);
}

// ---- the socket ------------------------------------------------------------------------------

#[test]
fn lines_that_are_no_requests_are_refused() {
    assert!(is_blank("  \t"));
    assert!(!is_blank("{}"));
    let bad = refuse_line(b"not json");
    assert_eq!(bad.id, 0);
    match bad.outcome {
        Err(error) => assert_eq!(error.code, ErrorCode::BadRequest),
        Ok(_) => panic!("a line that is not JSON is refused"),
    }
    let unknown = refuse_line(br#"{"v": 1, "id": 7, "method": "no.such"}"#);
    assert_eq!(unknown.id, 7);
    match unknown.outcome {
        Err(error) => assert_eq!(error.code, ErrorCode::UnknownMethod),
        Ok(_) => panic!("an unknown method is refused"),
    }
    assert_eq!(refuse_document(&None).id, 0);
}

#[test]
fn requests_of_another_version_are_refused() {
    match sort_out(RequestEnvelope { v: 99, id: 3, request: Request::DaemonStatus }) {
        Admission::Answer(response) => {
            assert_eq!(response.id, 3);
            match response.outcome {
                Err(error) => assert_eq!(error.code, ErrorCode::UnsupportedVersion),
                Ok(_) => panic!("the version is refused"),
            }
        }
        other => panic!("{other:?}"),
    }
    let envelope = RequestEnvelope { v: PROTOCOL_VERSION, id: 4, request: Request::DaemonStatus };
    assert!(matches!(sort_out(envelope), Admission::Forward { id: 4, .. }));
    let subscribe = Request::Subscribe { topics: Some(vec!["windows".into()]) };
    match sort_out(RequestEnvelope { v: PROTOCOL_VERSION, id: 5, request: subscribe }) {
        Admission::Subscribe { topics, .. } => assert_eq!(topics, ["windows"]),
        other => panic!("{other:?}"),
    }
}

#[test]
fn every_answer_carries_its_id() {
    for answer in [ActorAnswer::ShuttingDown, ActorAnswer::Dropped] {
        let response = respond(8, answer);
        assert_eq!((response.v, response.id), (PROTOCOL_VERSION, 8));
        assert!(response.outcome.is_err());
    }
    let done = respond(9, ActorAnswer::Answered(Ok(Reply::Reloaded { rules: 2 })));
    assert!(done.outcome.is_ok());
}

#[test]
fn a_refused_dispatch_fails_the_request() {
    let failed = HyprError::DispatchFailed { request: "r".into(), reply: "no".into() };
    match conclude(Reply::Reloaded { rules: 1 }, Err(failed)) {
        Err(error) => assert_eq!(error.code, ErrorCode::Hyprland),
        Ok(_) => panic!("the failure is reported"),
    }
    assert!(conclude(Reply::Reloaded { rules: 1 }, Ok(())).is_ok());
}

fn dev_with_a_terminal() -> StateActor {
    let mut actor = boot();
    reply(&mut actor, Request::ProjectCreate { name: "Dev".into(), slug: None });
    actor.projects[0].apps.push(AppSlot {
        slot_id: 7,
        name: Some("browser".into()),
        identity: WindowIdentity { class: Some("firefox".into()), ..Default::default() },
        launch: Some(LaunchSpec { command: "firefox".into(), ..Default::default() }),
        group: None,
        placement: Placement::default(),
    });
    actor.projects[0].apps.push(AppSlot {
        slot_id: 8,
        name: Some("terminal".into()),
        identity: WindowIdentity { class: Some("kitty".into()), ..Default::default() },
        launch: Some(LaunchSpec { command: "kitty".into(), ..Default::default() }),
        group: None,
        placement: Placement::default(),
    });
    actor
}

#[test]
fn restoring_adopts_and_launches() {
    let mut actor = dev_with_a_terminal();
    let dry = Request::ProjectRestore { project: Some("dev".into()), dry_run: true };
    let planned = match reply(&mut actor, dry) {
        Reply::Plan(plan) => plan,
        other => panic!("{other:?}"),
    };
    assert_eq!(planned.adopt.len(), 1);
    assert_eq!(planned.adopt[0].address, "0xaaa1");
    assert_eq!(planned.waves.len(), 1);
    assert_eq!(planned.waves[0][0].label, "terminal");

    let run = Request::ProjectRestore { project: Some("dev".into()), dry_run: false };
    match ask(&mut actor, run) {
        Outcome::Restore { project, plan, result: Reply::Started(shown) } => {
            assert_eq!(project, actor.projects[0].id);
            assert_eq!(plan, planned);
            assert_eq!(shown, planned);
        }
        other => panic!("{other:?}"),
    }
}

#[test]
fn restoring_needs_a_project() {
    let mut actor = dev_with_a_terminal();
    let run = || Request::ProjectRestore { project: None, dry_run: true };
    assert_eq!(error(&mut actor, run()).code, ErrorCode::BadRequest);
    reply(&mut actor, Request::ProjectSwitch { project: "dev".into() });
    assert!(matches!(reply(&mut actor, run()), Reply::Plan(_)));
    actor.projects[0].apps[0].launch.as_mut().unwrap().after = vec!["terminal".into()];
    actor.projects[0].apps[1].launch.as_mut().unwrap().after = vec!["browser".into()];
    assert_eq!(error(&mut actor, run()).code, ErrorCode::BadRequest);
}

#[test]
fn windows_of_other_projects_are_left_alone() {
    let mut actor = dev_with_a_terminal();
    reply(&mut actor, Request::ProjectCreate { name: "Other".into(), slug: None });
    let assign = Request::WindowAssign {
        address: "0xaaa1".into(),
        project: "other".into(),
        group: None,
    };
    reply(&mut actor, assign);
    let dry = Request::ProjectRestore { project: Some("dev".into()), dry_run: true };
    match reply(&mut actor, dry) {
        Reply::Plan(plan) => {
            assert!(plan.adopt.is_empty());
            assert_eq!(plan.launch_count(), 2);
        }
        other => panic!("{other:?}"),
    }
}

#[test]
fn exports_hold_the_whole_project() {
    let mut actor = dev_with_a_terminal();
    let export = |project: &str| Request::ProjectExport { project: project.into() };
    match reply(&mut actor, export("de")) {
        Reply::Exported(file) => {
            assert_eq!(file.version, 1);
            assert_eq!(file.project.slug.as_str(), "dev");
            assert_eq!(file.project.id, actor.projects[0].id);
            assert_eq!(file.project.apps.len(), 2);
        }
        other => panic!("{other:?}"),
    }
    assert_eq!(actor.projects.len(), 1);
    assert_eq!(error(&mut actor, export("zzz")).code, ErrorCode::NotFound);
}

#[test]
fn duplicates_copy_the_slots() {
    let mut actor = dev_with_a_terminal();
    let copy = |name: &str| Request::ProjectDuplicate { project: "dev".into(), name: name.into() };
    match reply(&mut actor, copy("Dev Two")) {
        Reply::Project(summary) => assert_eq!(summary.slug.as_str(), "dev-two"),
        other => panic!("{other:?}"),
    }
    assert_eq!(actor.projects.len(), 2);
    assert_eq!(actor.projects[1].apps.len(), 2);
    assert_ne!(actor.projects[1].id, actor.projects[0].id);
    assert_eq!(error(&mut actor, copy("Dev")).code, ErrorCode::Conflict);
    assert_eq!(error(&mut actor, copy("!!!")).code, ErrorCode::BadRequest);
}

fn saved(actor: &mut StateActor) -> RuntimeState {
    match actor.handle(Command::Persist) {
        Effect::Save(state) => state,
        _ => panic!("the snapshot is saved"),
    }
}

#[test]
fn a_restart_keeps_assignments() {
    let mut actor = boot();
    reply(&mut actor, Request::ProjectCreate { name: "Dev".into(), slug: None });
    let assign = Request::WindowAssign {
        address: "0xaaa1".into(),
        project: "dev".into(),
        group: None,
    };
    ask(&mut actor, assign);
    ask(&mut actor, Request::ProjectSwitch { project: "dev".into() });
    let snapshot = saved(&mut actor);
    assert_eq!(snapshot.assignments[0].0, "abc123");

    let mut restarted = boot();
    restarted.projects = actor.projects.clone();
    restarted.handle(Command::Recover(snapshot));
    let window = restarted.world.windows.get("0xaaa1").unwrap();
    assert_eq!(window.assignment, Some((actor.projects[0].id, None)));
    assert_eq!(window.assigned_by, Some(AssignmentSource::Manual));
    assert_eq!(restarted.world.active_project, Some(actor.projects[0].id));
    assert!(restarted.outbox.is_empty());
}

#[test]
fn recovery_leaves_other_windows_alone() {
    let entry = |source: &str| RuntimeAssignment {
        project: Slug::parse("dev").unwrap(),
        group: None,
        source: source.into(),
    };
    let recorded = |key: &str, source: &str| RuntimeState {
        active_project: Some(Slug::parse("gone").unwrap()),
        assignments: vec![(key.into(), entry(source))],
    };
    // No such project, no such window.
    let mut actor = boot();
    actor.handle(Command::Recover(recorded("abc123", "manual")));
    assert_eq!(actor.world.windows.get("0xaaa1").unwrap().assignment, None);
    reply(&mut actor, Request::ProjectCreate { name: "Dev".into(), slug: None });
    actor.handle(Command::Recover(recorded("0xaaa1", "manual")));
    assert_eq!(actor.world.windows.get("0xaaa1").unwrap().assignment, None);
    assert_eq!(actor.world.active_project, None);
    // A rule's name is an origin; an assignment that is there stays.
    actor.handle(Command::Recover(recorded("abc123", "browsers")));
    let origin = AssignmentSource::Rule("browsers".into());
    assert_eq!(actor.world.windows.get("0xaaa1").unwrap().assigned_by, Some(origin.clone()));
    actor.handle(Command::Recover(recorded("abc123", "restore")));
    assert_eq!(actor.world.windows.get("0xaaa1").unwrap().assigned_by, Some(origin));
}

fn groups_of(actor: &StateActor) -> Vec<(String, bool)> {
    actor.projects[0].groups.iter().map(|g| (g.slug.as_str().to_owned(), g.hidden)).collect()
}

fn dev_with_backend() -> StateActor {
    let mut actor = boot();
    reply(&mut actor, Request::ProjectCreate { name: "Dev".into(), slug: None });
    let create =
        Request::GroupCreate { project: "dev".into(), name: "Back End".into(), slug: None };
    match reply(&mut actor, create) {
        Reply::Group { operation, project, group, windows } => {
            assert_eq!(operation, GroupOperation::Created);
            assert_eq!((project.as_str(), group.as_str(), windows), ("dev", "back-end", 0));
        }
        other => panic!("{other:?}"),
    }
    actor.outbox.clear();
    actor
}

fn dispatched(actor: &mut StateActor, request: Request) -> Vec<String> {
    match ask(actor, request) {
        Outcome::DispatchThen { dispatches, .. } => dispatches.iter().map(|d| d.render()).collect(),
        other => panic!("{other:?}"),
    }
}

#[test]
fn groups_are_created_once() {
    let mut actor = dev_with_backend();
    let create = |name: &str, slug: Option<&str>| Request::GroupCreate {
        project: "dev".into(),
        name: name.into(),
        slug: slug.map(Into::into),
    };
    assert_eq!(error(&mut actor, create("Back end", None)).code, ErrorCode::Conflict);
    assert_eq!(error(&mut actor, create("x", Some("No"))).code, ErrorCode::BadRequest);
    assert_eq!(error(&mut actor, create("!!!", None)).code, ErrorCode::BadRequest);
    let elsewhere =
        Request::GroupCreate { project: "zzz".into(), name: "a".into(), slug: None };
    assert_eq!(error(&mut actor, elsewhere).code, ErrorCode::NotFound);
    assert_eq!(groups_of(&actor), [("back-end".to_owned(), false)]);
    assert!(actor.outbox.is_empty());
}

#[test]
fn hidden_groups_are_parked_and_come_back() {
    let mut actor = dev_with_backend();
    let (project, group) = ("dev".to_owned(), "back-end".to_owned());
    let add = Request::GroupAdd {
        project: project.clone(),
        group: group.clone(),
        address: "0xaaa1".into(),
    };
    assert_eq!(
        dispatched(&mut actor, add),
        ["movetoworkspacesilent name:dev,address:0xaaa1"]
    );
    assert!(matches!(&actor.outbox[0].data, DomainEvent::GroupChanged { project, group }
        if project == "dev" && group == "back-end"));
    assert_eq!(actor.outbox[0].data.topic(), "projects");
    assert_eq!(actor.outbox[0].data.name(), "group.changed");
    let hide = Request::GroupHide { project: project.clone(), group: group.clone() };
    assert_eq!(
        dispatched(&mut actor, hide),
        ["movetoworkspacesilent name:dev:back-end,address:0xaaa1"]
    );
    assert_eq!(groups_of(&actor), [("back-end".to_owned(), true)]);
    let focus = || Request::GroupFocus { project: "dev".into(), group: "back-end".into() };
    assert_eq!(
        dispatched(&mut actor, focus()),
        ["workspace name:dev:back-end", "focuswindow address:0xaaa1"]
    );
    let show = Request::GroupShow { project: project.clone(), group: group.clone() };
    assert_eq!(
        dispatched(&mut actor, show),
        ["movetoworkspacesilent name:dev,address:0xaaa1"]
    );
    assert_eq!(groups_of(&actor), [("back-end".to_owned(), false)]);
    let remove = || Request::GroupRemove {
        project: "dev".into(),
        group: "back-end".into(),
        address: "0xaaa1".into(),
    };
    assert!(dispatched(&mut actor, remove()).is_empty());
    let window = actor.world.windows.get("0xaaa1").unwrap();
    assert_eq!(window.assignment, Some((actor.projects[0].id, None)));
    assert_eq!(error(&mut actor, remove()).code, ErrorCode::NotFound);
    assert_eq!(dispatched(&mut actor, focus()), ["workspace name:dev"]);
    let unknown = Request::GroupHide { project: "dev".into(), group: "nope".into() };
    assert_eq!(error(&mut actor, unknown).message, "project 'dev' has no group 'nope'");
}

#[test]
fn groups_move_with_slots_and_windows() {
    let mut actor = dev_with_backend();
    reply(&mut actor, Request::ProjectCreate { name: "Ops".into(), slug: None });
    let backend = Slug::parse("back-end").unwrap();
    for (slot_id, group) in [(1, Some(backend.clone())), (2, None)] {
        actor.projects[0].apps.push(AppSlot {
            slot_id,
            name: None,
            identity: WindowIdentity::default(),
            launch: None,
            group,
            placement: Placement::default(),
        });
    }
    let add = Request::GroupAdd {
        project: "dev".into(),
        group: "back-end".into(),
        address: "0xaaa1".into(),
    };
    dispatched(&mut actor, add);
    let go = || Request::GroupMove {
        project: "dev".into(),
        group: "back-end".into(),
        to: "ops".into(),
    };
    assert_eq!(
        dispatched(&mut actor, go()),
        ["movetoworkspacesilent name:ops,address:0xaaa1"]
    );
    assert!(actor.projects[0].groups.is_empty());
    assert_eq!(actor.projects[0].apps.iter().map(|s| s.slot_id).collect::<Vec<_>>(), [2]);
    assert_eq!(actor.projects[1].apps.iter().map(|s| s.slot_id).collect::<Vec<_>>(), [1]);
    let window = actor.world.windows.get("0xaaa1").unwrap();
    assert_eq!(window.assignment, Some((actor.projects[1].id, Some(backend))));
    assert_eq!(error(&mut actor, go()).code, ErrorCode::NotFound);
    let same = Request::GroupMove {
        project: "ops".into(),
        group: "back-end".into(),
        to: "ops".into(),
    };
    assert_eq!(error(&mut actor, same).code, ErrorCode::Conflict);
}

#[test]
fn group_operations_have_their_names() {
    let names: Vec<&str> = [
        GroupOperation::Created,
        GroupOperation::Added,
        GroupOperation::Removed,
        GroupOperation::Hidden,
        GroupOperation::Shown,
        GroupOperation::Focused,
        GroupOperation::Moved,
    ]
    .iter()
    .map(|operation| operation.text())
    .collect();
    assert_eq!(names, ["created", "added", "removed", "hidden", "shown", "focused", "moved"]);
}

#[test]
fn search_finds_projects_and_windows() {
    let mut actor = boot();
    reply(&mut actor, Request::ProjectCreate { name: "Fire Drill".into(), slug: None });
    match reply(&mut actor, Request::Search { query: "fire".into() }) {
        Reply::Found(hits) => {
            let keys: Vec<&str> = hits.iter().map(|hit| hit.key.as_str()).collect();
            assert_eq!(hits.len(), 2, "{hits:?}");
            assert!(keys.contains(&"fire-drill") && keys.contains(&"0xaaa1"));
            assert!(hits[0].score >= hits[1].score);
            for hit in &hits {
                match hit.kind {
                    HitKind::Project => assert_eq!(hit.label, "Fire Drill"),
                    HitKind::Window => assert_eq!(hit.label, "Mozilla Firefox"),
                }
            }
        }
        other => panic!("{other:?}"),
    }
    match reply(&mut actor, Request::Search { query: "zzzqqq".into() }) {
        Reply::Found(hits) => assert!(hits.is_empty()),
        other => panic!("{other:?}"),
    }
}

#[test]
fn hits_are_ranked_and_ties_keep_their_order() {
    let hit = |key: &str, score: u32| Hit {
        kind: HitKind::Window,
        key: key.into(),
        label: "".into(),
        score,
    };
    let hits = vec![hit("a", 5), hit("b", 9), hit("c", 5), hit("d", 1)];
    let keys: Vec<String> = rank(&hits).into_iter().map(|hit| hit.key).collect();
    assert_eq!(keys, ["b", "a", "c", "d"]);
}

fn import(actor: &mut StateActor, imported: Result<Project, String>, force: bool) -> Outcome {
    let request = Request::ProjectImport { toml: "".into(), force };
    ask_with(actor, request, Gathered { imported, ..nothing() })
}

#[test]
fn imports_take_a_free_slug() {
    let mut actor = dev_with_a_terminal();
    let project = actor.projects[0].clone();
    for expected in ["dev-1", "dev-2"] {
        match import(&mut actor, Ok(project.clone()), false) {
            Outcome::Reply(Ok(Reply::Project(summary))) => {
                assert_eq!(summary.slug.as_str(), expected)
            }
            other => panic!("{other:?}"),
        }
    }
    assert_eq!(actor.projects[1].apps.len(), 2);
    assert_ne!(actor.projects[1].id, actor.projects[0].id);
    match import(&mut actor, Err("broken".into()), false) {
        Outcome::Reply(Err(error)) => {
            assert_eq!((error.code, error.message.as_str()), (ErrorCode::BadRequest, "broken"))
        }
        other => panic!("{other:?}"),
    }
    assert_eq!(actor.projects.len(), 3);
}

#[test]
fn forced_imports_replace_the_project() {
    let mut actor = dev_with_a_terminal();
    let id = actor.projects[0].id;
    let mut project = actor.projects[0].clone();
    project.id = ProjectId::new();
    project.name = "Other".into();
    project.apps.clear();
    match import(&mut actor, Ok(project), true) {
        Outcome::Reply(Ok(Reply::Project(summary))) => assert_eq!(summary.name, "Other"),
        other => panic!("{other:?}"),
    }
    assert_eq!(actor.projects.len(), 1);
    assert_eq!(actor.projects[0].id, id);
    assert!(actor.projects[0].apps.is_empty());
}

#[test]
fn saving_turns_windows_into_slots() {
    let mut actor = dev_with_a_terminal();
    actor.projects[0].apps[0].launch.as_mut().unwrap().after = vec!["terminal".into()];
    actor.projects[0].apps.push(AppSlot {
        slot_id: 9,
        name: Some("db".into()),
        identity: WindowIdentity::default(),
        launch: Some(LaunchSpec { command: "db".into(), service: true, ..Default::default() }),
        group: None,
        placement: Placement::default(),
    });
    let assign = Request::WindowAssign {
        address: "0xaaa1".into(),
        project: "dev".into(),
        group: None,
    };
    ask(&mut actor, assign);
    let query = Some("dev".to_owned());
    let (name, windows) = actor.save_targets(&query).unwrap();
    assert_eq!((name.as_str(), windows.len()), ("Dev", 1));
    let captured = vec![Captured {
        address: "0xaaa1".into(),
        slot_id: 77,
        launch: Some(LaunchSpec { command: "/usr/bin/firefox".into(), ..Default::default() }),
    }];
    let request = Request::ProjectSave { project: query };
    match ask_with(&mut actor, request, Gathered { captured, ..nothing() }) {
        Outcome::Reply(Ok(Reply::Saved { project, slots })) => {
            assert_eq!((project.as_str(), slots), ("dev", 2))
        }
        other => panic!("{other:?}"),
    }
    let apps = &actor.projects[0].apps;
    assert_eq!(apps[0].slot_id, 9);
    // The window satisfied the browser's slot, which stays what it was.
    assert_eq!((apps[1].slot_id, apps[1].name.as_deref()), (7, Some("browser")));
    let launch = apps[1].launch.as_ref().unwrap();
    assert_eq!(launch.command, "/usr/bin/firefox");
    assert_eq!(launch.after, ["terminal"]);
    assert_eq!(apps[1].identity.class.as_deref(), Some("firefox"));
    assert_eq!(apps[1].placement.monitor.as_deref(), Some("DP-1"));
    assert_eq!(
        error(&mut actor, Request::ProjectSave { project: None }).code,
        ErrorCode::BadRequest
    );
}

#[test]
fn windows_on_the_workspace_are_saved_too() {
    let mut actor = boot();
    reply(&mut actor, Request::ProjectCreate { name: "Dev".into(), slug: None });
    hypr(&mut actor, "movewindowv2>>aaa1,-1337,dev");
    let (_, windows) = actor.save_targets(&Some("dev".into())).unwrap();
    assert_eq!(windows.len(), 1);
    let captured = vec![Captured { address: "0xaaa1".into(), slot_id: 77, launch: None }];
    let request = Request::ProjectSave { project: Some("dev".into()) };
    ask_with(&mut actor, request, Gathered { captured, ..nothing() });
    assert_eq!(actor.projects[0].apps[0].slot_id, 77);
    assert_eq!(actor.projects[0].apps[0].launch, None);
}

fn tile(position: (i32, i32), size: (i32, i32)) -> Tile {
    Tile {
        address: "0xaaa1".into(),
        placement: Placement {
            position: Some(position),
            size: Some(size),
            ..Default::default()
        },
    }
}

fn steps(tiles: &Vec<Tile>, clients: &Vec<Client>) -> Vec<Vec<String>> {
    let mut out = vec![];
    while let Some(dispatches) = next_step(tiles, clients, out.len()) {
        out.push(dispatches.iter().map(|d| d.render()).collect());
    }
    out
}

#[test]
fn tiled_windows_are_swapped_split_and_resized() {
    let mut client = firefox();
    client.at = (0, 0);
    client.size = (800, 600);
    client.floating = false;
    let clients = vec![client];
    let focus = "focuswindow address:0xaaa1".to_owned();
    assert_eq!(
        steps(&vec![tile((1000, 100), (900, 600))], &clients),
        [
            vec![focus.clone(), "swapwindow r".into()],
            vec![focus.clone(), "swapwindow r".into()],
            vec![focus.clone(), "movewindow r".into()],
            vec![focus.clone(), "resizeactive exact 900 600".into()],
            vec![],
        ]
    );
    // Close enough, and of the right size.
    assert_eq!(steps(&vec![tile((10, 10), (800, 600))], &clients), vec![Vec::<String>::new(); 5]);
    // A window that is gone is left out; without windows there is nothing to do.
    assert_eq!(steps(&vec![tile((1000, 100), (9, 9))], &vec![]), vec![Vec::<String>::new(); 5]);
    assert!(steps(&vec![], &clients).is_empty());
    let placement = tile((0, 2000), (100, 100)).placement;
    assert_eq!(direction(&placement, (0, 0)), Some(MoveDir::Down));
    assert_eq!(direction(&placement, (0, 4000)), Some(MoveDir::Up));
    assert_eq!(direction(&placement, (0, 2050)), None);
}

#[test]
fn fullscreen_is_applied_again() {
    let mut client = firefox();
    client.fullscreen = 0;
    let mut wanted = tile(client.at, client.size);
    wanted.placement.fullscreen = 2;
    let tiles = vec![wanted];
    let mut clients = vec![client];
    let passes = steps(&tiles, &clients);
    assert_eq!(passes[4], ["focuswindow address:0xaaa1", "fullscreenstate 2 -1"]);
    clients[0].fullscreen = 2;
    assert!(steps(&tiles, &clients)[4].is_empty());
}

#[test]
fn restored_windows_are_arranged() {
    let mut actor = dev_with_a_terminal();
    actor.projects[0].apps[0].placement.fullscreen = 1;
    let id = actor.projects[0].id;
    let correlate = Command::CorrelateRestore {
        address: "0xaaa1".into(),
        slot_id: 7,
        project_id: id,
        group: None,
    };
    actor.handle(correlate);
    match actor.handle(Command::Arrange(id)) {
        Effect::Arrange(tiles) => {
            assert_eq!(tiles.len(), 1);
            assert_eq!((tiles[0].address.as_str(), tiles[0].placement.fullscreen), ("0xaaa1", 1));
        }
        _ => panic!("the windows are arranged"),
    }
    match actor.handle(Command::Arrange(ProjectId::new())) {
        Effect::Arrange(tiles) => assert!(tiles.is_empty()),
        _ => panic!("nothing is arranged"),
    }
}

#[test]
fn closing_asks_every_window_to_close() {
    let mut actor = boot();
    reply(&mut actor, Request::ProjectCreate { name: "Dev".into(), slug: None });
    hypr(&mut actor, "movewindowv2>>aaa1,-1337,dev");
    let close = |project: Option<&str>| Request::ProjectClose { project: project.map(Into::into) };
    match ask(&mut actor, close(Some("dev"))) {
        Outcome::DispatchThen { dispatches, result: Reply::Closed { project, windows } } => {
            assert_eq!((project.as_str(), windows), ("dev", 1));
            assert_eq!(dispatches[0].render(), "closewindow address:0xaaa1");
        }
        other => panic!("{other:?}"),
    }
    assert_eq!(error(&mut actor, close(None)).code, ErrorCode::BadRequest);
}

#[test]
fn captures_are_previews() {
    let mut actor = dev_with_a_terminal();
    hypr(&mut actor, "movewindowv2>>aaa1,-1337,dev");
    let captured = vec![Captured { address: "0xaaa1".into(), slot_id: 77, launch: None }];
    let request = Request::ProjectCapture { project: Some("dev".into()) };
    match ask_with(&mut actor, request, Gathered { captured, ..nothing() }) {
        Outcome::Reply(Ok(Reply::Preview { project, apps })) => {
            assert_eq!(project.as_str(), "dev");
            assert_eq!((apps.len(), apps[0].slot_id), (1, 7));
        }
        other => panic!("{other:?}"),
    }
    assert_eq!(actor.projects[0].apps.len(), 2);
    match reply(&mut actor, Request::ProjectGet { project: "dev".into() }) {
        Reply::Details(project) => assert_eq!(project.apps.len(), 2),
        other => panic!("{other:?}"),
    }
}

#[test]
fn projects_are_listed_in_their_new_order() {
    let mut actor = boot();
    for name in ["Alpha", "Beta", "Gamma"] {
        reply(&mut actor, Request::ProjectCreate { name: name.into(), slug: None });
    }
    let reorder = |order: &[&str]| Request::ProjectReorder {
        order: order.iter().map(|slug| slug.to_string()).collect(),
    };
    match reply(&mut actor, reorder(&["gamma", "alpha", "beta"])) {
        Reply::Reordered { projects } => assert_eq!(projects, 3),
        other => panic!("{other:?}"),
    }
    match reply(&mut actor, Request::ProjectList) {
        Reply::Projects(list) => {
            let slugs: Vec<&str> = list.iter().map(|p| p.slug.as_str()).collect();
            assert_eq!(slugs, ["gamma", "alpha", "beta"]);
        }
        other => panic!("{other:?}"),
    }
    for order in [&["gamma", "alpha"][..], &["gamma", "gamma", "beta"][..], &["a", "b", "c"][..]] {
        assert_eq!(error(&mut actor, reorder(order)).code, ErrorCode::BadRequest);
    }
}

#[test]
fn launch_settings_are_edited() {
    let mut actor = dev_with_a_terminal();
    actor.projects[0].apps[0].launch.as_mut().unwrap().args =
        vec!["--profile-directory=Old".into(), "x".into()];
    let update = |slot_id: &str, command: &str, workdir: &str, profile: Option<&str>| {
        Request::SlotUpdate {
            project: "dev".into(),
            slot_id: slot_id.into(),
            command: Some(command.into()),
            workdir: Some(workdir.into()),
            profile: profile.map(Into::into),
        }
    };
    let id = "00000000-0000-0000-0000-000000000007";
    match reply(&mut actor, update(id, "chromium --new-window", "/tmp", Some("Work"))) {
        Reply::SlotUpdated { project, slot_id } => {
            assert_eq!((project.as_str(), slot_id.as_str()), ("dev", id))
        }
        other => panic!("{other:?}"),
    }
    let launch = actor.projects[0].apps[0].launch.clone().unwrap();
    assert_eq!(launch.command, "chromium --new-window");
    assert_eq!(launch.args, ["--profile-directory=Work"]);
    assert_eq!(launch.workdir.as_deref(), Some("/tmp"));
    reply(&mut actor, update(id, "chromium", "", None));
    let launch = actor.projects[0].apps[0].launch.clone().unwrap();
    assert_eq!(launch.args, ["--profile-directory=Work"]);
    assert_eq!(launch.workdir, None);
    reply(&mut actor, update(id, "chromium", "", Some("")));
    assert!(actor.projects[0].apps[0].launch.clone().unwrap().args.is_empty());
    reply(&mut actor, update(id, "", "", None));
    assert_eq!(actor.projects[0].apps[0].launch, None);
    assert_eq!(error(&mut actor, update("nope", "x", "", None)).code, ErrorCode::NotFound);
}
