//! Running a restore plan: command lines, waves, windows and steps.

use omarchy_workspaces::daemon::launcher::{
    adoption_dispatches, after_probe, build_shell_command, expand_home, first_action, next_action,
    placement_dispatches, progress, shell_quote, ProbeVerdict, RestoreRun, StepAction, StepPhase,
};
use omarchy_workspaces::domain::events::DomainEvent;
use omarchy_workspaces::domain::model::{
    LaunchSpec, Placement, Readiness, Slug, WindowIdentity,
};
use omarchy_workspaces::domain::restore::{AdoptStep, LaunchStep, RestorePlan};

#[test]
fn shell_command_building() {
    let spec = LaunchSpec {
        command: "wezterm".into(),
        args: vec!["start".into(), "--cwd".into(), "/tmp/it's here".into()],
        env: vec![("RUST_LOG".to_string(), "debug".to_string())],
        workdir: Some("~/Projects/api".into()),
        ..Default::default()
    };
    let home = "/home/me".to_owned();
    let cmd = build_shell_command(&spec, &Some(home.clone()));
    assert_eq!(
        cmd,
        format!(
            "cd '{home}/Projects/api' && RUST_LOG='debug' wezterm 'start' '--cwd' '/tmp/it'\\''s here'"
        )
    );
}

#[test]
fn quoting_and_home() {
    assert_eq!(shell_quote(""), "''");
    assert_eq!(shell_quote("a'b"), "'a'\\''b'");
    assert_eq!(expand_home("~/x", &Some("/h".into())), "/h/x");
    assert_eq!(expand_home("~/x", &None), "~/x");
    assert_eq!(expand_home("/x", &Some("/h".into())), "/x");
}

fn step(label: &str, after: &[&str], readiness: Readiness) -> LaunchStep {
    LaunchStep {
        slot_id: 1,
        label: label.to_owned(),
        spec: LaunchSpec { command: label.to_owned(), ..Default::default() },
        identity: WindowIdentity { class: Some(label.to_owned()), ..Default::default() },
        placement: Placement::default(),
        group: None,
        after: after.iter().map(|s| s.to_string()).collect(),
        readiness,
    }
}

fn plan(adopt: Vec<AdoptStep>, waves: Vec<Vec<LaunchStep>>) -> RestorePlan {
    RestorePlan {
        project: Slug::parse("dev").unwrap(),
        workspace: "dev".into(),
        adopt,
        waves,
        extra: vec![],
    }
}

fn opened(address: &str, class: &str) -> DomainEvent {
    DomainEvent::WindowOpened {
        address: address.into(),
        class: class.into(),
        title: "".into(),
        workspace: "dev".into(),
    }
}

#[test]
fn a_failure_skips_what_depends_on_it() {
    let first = vec![step("db", &[], Readiness::Window)];
    let second = vec![step("api", &["db"], Readiness::Window), step("web", &[], Readiness::Window)];
    let third = vec![step("ui", &["api"], Readiness::Window)];
    let plan = plan(vec![], vec![]);
    let mut run = RestoreRun::start(&plan);
    assert_eq!(run.start_wave(&first), [true]);
    run.step_done("db", false);
    assert_eq!(run.start_wave(&second), [false, true]);
    run.step_done("web", true);
    assert_eq!(run.start_wave(&third), [false]);
    assert_eq!(
        run.finish(&plan),
        DomainEvent::RestoreFinished {
            project: "dev".into(),
            adopted: 0,
            launched: 1,
            failed: vec!["db".into(), "api".into(), "ui".into()],
        }
    );
}

#[test]
fn a_window_satisfies_one_slot() {
    let mut run = RestoreRun::start(&plan(vec![], vec![]));
    let identity = WindowIdentity { class: Some("Kitty".into()), ..Default::default() };
    assert_eq!(run.claim_window(&identity, &opened("0x1", "mpv")), None);
    assert_eq!(run.claim_window(&identity, &opened("0x1", "kitty")).as_deref(), Some("0x1"));
    assert_eq!(run.claim_window(&identity, &opened("0x1", "kitty")), None);
    assert_eq!(run.claim_window(&identity, &DomainEvent::ShuttingDown), None);
}

#[test]
fn adopted_windows_are_moved_and_placed() {
    let adopt = AdoptStep {
        slot_id: 1,
        label: "browser".into(),
        address: "0xf".into(),
        needs_move: true,
        placement: Placement {
            floating: true,
            position: Some((10, 20)),
            size: Some((800, 600)),
            ..Default::default()
        },
        group: None,
    };
    let rendered: Vec<String> =
        adoption_dispatches(&plan(vec![adopt], vec![])).iter().map(|d| d.render()).collect();
    assert_eq!(rendered[0], "movetoworkspacesilent name:dev,address:0xf");
    assert!(rendered.contains(&"setfloating address:0xf".to_owned()));
    assert!(rendered.contains(&"resizewindowpixel exact 800 600,address:0xf".to_owned()));
    assert!(rendered.contains(&"movewindowpixel exact 10 20,address:0xf".to_owned()));
    assert!(placement_dispatches("0xf", &Placement::default()).is_empty());
}

#[test]
fn a_window_app_launches_onto_its_workspace() {
    let (state, action) = first_action(&step("kitty", &[], Readiness::Window), "dev", &None);
    assert_eq!(state, "launching");
    match action {
        StepAction::Tell(dispatch) => {
            assert_eq!(dispatch.render(), "exec [workspace name:dev silent] kitty");
        }
        other => panic!("{other:?}"),
    }
    let mut service = step("postgres", &[], Readiness::Delay);
    service.spec.service = true;
    assert!(matches!(first_action(&service, "dev", &None).1, StepAction::Spawn(cmd) if cmd == "postgres"));
}

#[test]
fn steps_go_from_launch_to_ready() {
    let window = step("kitty", &[], Readiness::Window);
    let (phase, note, action) = next_action(StepPhase::Launching, &window, true, 15_000);
    assert_eq!((phase, note), (StepPhase::Waiting, None));
    assert!(matches!(action, StepAction::AwaitWindow { timeout_ms: 15_000 }));
    let (phase, note, action) = next_action(phase, &window, true, 15_000);
    assert_eq!((phase, note), (StepPhase::Done(true), Some("ready")));
    assert!(matches!(action, StepAction::Finish(true)));
    let (phase, note, _) = next_action(StepPhase::Waiting, &window, false, 15_000);
    assert_eq!((phase, note), (StepPhase::Done(false), Some("timeout")));
    let (phase, note, _) = next_action(StepPhase::Launching, &window, false, 15_000);
    assert_eq!((phase, note), (StepPhase::Done(false), Some("failed")));
}

#[test]
fn probes_repeat_until_the_deadline() {
    assert_eq!(after_probe(true, 0, 500, 1_000), ProbeVerdict::Ready);
    assert_eq!(after_probe(false, 0, 500, 1_000), ProbeVerdict::Again);
    assert_eq!(after_probe(false, 5_000, 500, 1_000), ProbeVerdict::TimedOut);
}

#[test]
fn progress_names_the_slot() {
    assert_eq!(
        progress(&plan(vec![], vec![]), "api", "ready", 1, 2),
        DomainEvent::RestoreProgress {
            project: "dev".into(),
            slot: "api".into(),
            state: "ready".into(),
            completed: 1,
            total: 2,
        }
    );
}

#[test]
fn services_await_no_window() {
    let mut service = step("postgres", &[], Readiness::Window);
    service.spec.service = true;
    let (phase, note, action) = next_action(StepPhase::Launching, &service, true, 15_000);
    assert_eq!((phase, note), (StepPhase::Done(true), Some("ready")));
    assert!(matches!(action, StepAction::Finish(true)));
}

#[test]
fn classes_are_compared_without_case() {
    let mut run = RestoreRun::start(&plan(vec![], vec![]));
    let identity = WindowIdentity { class: Some("ÉDITEUR".into()), ..Default::default() };
    assert_eq!(run.claim_window(&identity, &opened("0x1", "éditeur")).as_deref(), Some("0x1"));
}
