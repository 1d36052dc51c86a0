//! Launch order, reconciliation with live windows and restore plans.

use omarchy_workspaces::domain::launch::{waves, LaunchPlanError};
use omarchy_workspaces::domain::model::{
    AppSlot, LaunchSpec, Placement, Project, ProjectId, Slug, WindowIdentity,
};
use omarchy_workspaces::domain::restore::{identity_score, plan, reconcile, weigh, PlanError};
use omarchy_workspaces::domain::world::{TrackedWindow, WindowFacts};

fn slot(name: &str, class: &str, after: &[&str]) -> AppSlot {
    AppSlot {
        slot_id: ProjectId::new().0,
        name: Some(name.to_owned()),
        identity: WindowIdentity {
            class: Some(class.to_owned()),
            ..Default::default()
        },
        launch: Some(LaunchSpec {
            command: class.to_owned(),
            after: after.iter().map(|s| s.to_string()).collect(),
            ..Default::default()
        }),
        group: None,
        placement: Placement::default(),
    }
}

fn plain(name: &str, after: &[&str]) -> AppSlot {
    let mut slot = slot(name, name, after);
    slot.identity = WindowIdentity::default();
    slot
}

fn labels(slots: &[AppSlot], waves: &[Vec<u128>]) -> Vec<Vec<String>> {
    waves
        .iter()
        .map(|wave| {
            wave.iter()
                .map(|id| slots.iter().find(|s| s.slot_id == *id).unwrap().label())
                .collect()
        })
        .collect()
}

#[test]
fn chains_and_parallel_waves() {
    // postgres -> docker -> cursor -> browser, with terminal independent.
    let slots = vec![
        plain("browser", &["cursor"]),
        plain("postgres", &[]),
        plain("docker", &["postgres"]),
        plain("cursor", &["docker"]),
        plain("terminal", &[]),
    ];
    let refs: Vec<&AppSlot> = slots.iter().collect();
    let waves = waves(&refs).unwrap();
    assert_eq!(
        labels(&slots, &waves),
        vec![
            vec!["postgres".to_string(), "terminal".to_string()],
            vec!["docker".to_string()],
            vec!["cursor".to_string()],
            vec!["browser".to_string()],
        ]
    );
}

#[test]
fn cycle_is_an_error_naming_the_slots() {
    let slots = [plain("a", &["b"]), plain("b", &["a"]), plain("free", &[])];
    let refs: Vec<&AppSlot> = slots.iter().collect();
    let err = waves(&refs).unwrap_err();
    match err {
        LaunchPlanError::Cycle { slots } => {
            assert!(slots.contains('a') && slots.contains('b'));
        }
        other => panic!("{other:?}"),
    }
}

#[test]
fn unknown_dependency_and_duplicate_name() {
    let slots = [plain("a", &["ghost"])];
    let refs: Vec<&AppSlot> = slots.iter().collect();
    assert_eq!(
        waves(&refs).unwrap_err(),
        LaunchPlanError::UnknownDependency {
            slot: "a".into(),
            dependency: "ghost".into()
        }
    );

    let slots = [plain("dup", &[]), plain("dup", &[])];
    let refs: Vec<&AppSlot> = slots.iter().collect();
    assert!(matches!(
        waves(&refs).unwrap_err(),
        LaunchPlanError::DuplicateName { .. }
    ));
}

#[test]
fn launch_errors_say_what_is_wrong() {
    let unknown = LaunchPlanError::UnknownDependency { slot: "a".into(), dependency: "b".into() };
    assert!(unknown.message().contains("\"a\"") && unknown.message().contains("\"b\""));
    let cycle = LaunchPlanError::Cycle { slots: "a, b".into() };
    assert!(cycle.message().contains("a, b"));
    assert_eq!(PlanError::Launch(cycle).message(), LaunchPlanError::Cycle { slots: "a, b".into() }.message());
}

#[test]
fn no_slots_make_no_waves() {
    assert_eq!(waves(&[]).unwrap(), Vec::<Vec<u128>>::new());
}

#[test]
fn a_slot_that_waits_for_itself_is_a_cycle() {
    let slots = [plain("a", &["a"])];
    let refs: Vec<&AppSlot> = slots.iter().collect();
    assert!(matches!(waves(&refs), Err(LaunchPlanError::Cycle { .. })));
}

fn window(address: &str, class: &str, exe: Option<&str>) -> TrackedWindow {
    TrackedWindow {
        address: address.to_owned(),
        stable_id: None,
        facts: WindowFacts {
            class: class.to_owned(),
            initial_class: class.to_owned(),
            executable: exe.map(Into::into),
            workspace: "1".to_owned(),
            ..Default::default()
        },
        assignment: None,
        assigned_by: None,
    }
}

fn project(slots: Vec<AppSlot>) -> Project {
    let mut p = Project::new("Test").unwrap();
    p.slug = Slug::parse("test").unwrap();
    p.apps = slots;
    p
}

#[test]
fn scoring_thresholds() {
    let identity = WindowIdentity {
        class: Some("firefox".into()),
        ..Default::default()
    };
    assert_eq!(
        identity_score(&identity, &window("0xa", "Firefox", None)),
        Some(50)
    );
    assert_eq!(
        identity_score(&identity, &window("0xa", "kitty", None)),
        None
    );

    // Title alone can never claim a slot (10 < 50).
    let weak = WindowIdentity {
        title_pattern: Some(".*".into()),
        ..Default::default()
    };
    assert_eq!(identity_score(&weak, &window("0xa", "any", None)), None);

    // Executable outranks everything.
    let by_exe = WindowIdentity {
        executable: Some("/usr/bin/kitty".into()),
        ..Default::default()
    };
    assert_eq!(
        identity_score(&by_exe, &window("0xa", "x", Some("/usr/bin/kitty"))),
        Some(100)
    );
}

#[test]
fn paths_are_compared_by_their_components() {
    let by_exe = WindowIdentity { executable: Some("/usr/bin/kitty".into()), ..Default::default() };
    assert_eq!(identity_score(&by_exe, &window("0xa", "x", Some("/usr//bin/./kitty"))), Some(100));
    assert_eq!(identity_score(&by_exe, &window("0xa", "x", Some("/usr/bin/fish"))), None);
    assert_eq!(identity_score(&by_exe, &window("0xa", "x", None)), None);
}

#[test]
fn signals_add_up() {
    let identity = WindowIdentity {
        class: Some("code".into()),
        initial_class: Some("code".into()),
        executable: Some("/usr/lib/code".into()),
        title_pattern: Some(" - api - ".into()),
    };
    let mut live = window("0xa", "Code", Some("/usr/lib/code"));
    live.facts.title = "main.rs - api - Visual Studio Code".to_owned();
    assert_eq!(identity_score(&identity, &live), weigh(&identity, &live, true, true));
    let full = identity_score(&identity, &live).unwrap();
    live.facts.title = "elsewhere".to_owned();
    assert_eq!(identity_score(&identity, &live), Some(full - 10));
}

#[test]
fn greedy_matching_each_window_claims_one_slot() {
    // Two identical terminal slots, one live terminal: one matched, one missing.
    let p = project(vec![slot("t1", "kitty", &[]), slot("t2", "kitty", &[])]);
    let w = window("0xa", "kitty", None);
    let r = reconcile(&p, &[&w]);
    assert_eq!(r.matched.len(), 1);
    assert_eq!(r.missing.len(), 1);
}

#[test]
fn reconciliation_accounts_for_every_slot_and_window() {
    let p = project(vec![slot("t1", "kitty", &[]), slot("b", "firefox", &[])]);
    let a = window("0xa", "kitty", None);
    let mut b = window("0xb", "mpv", None);
    b.assignment = Some((p.id, None));
    let r = reconcile(&p, &[&a, &b]);
    assert_eq!(r.matched, vec![(p.apps[0].slot_id, "0xa".to_owned())]);
    assert_eq!(r.missing, vec![p.apps[1].slot_id]);
    assert_eq!(r.extra, vec!["0xb".to_owned()]);
}

#[test]
fn plan_adopts_and_launches_in_waves() {
    let mut slots = vec![
        slot("postgres", "pg", &[]),
        slot("editor", "code", &["postgres"]),
        slot("browser", "firefox", &["editor"]),
    ];
    slots[0].launch.as_mut().unwrap().service = true;
    let p = project(slots);
    // firefox already runs; pg and code are missing.
    let firefox = window("0xf", "firefox", None);
    let plan = plan(&p, &[&firefox], "").unwrap();

    assert_eq!(plan.workspace, "test");
    assert_eq!(plan.adopt.len(), 1);
    assert_eq!(plan.adopt[0].label, "browser");
    assert!(plan.adopt[0].needs_move); // it sits on workspace "1"
    assert_eq!(plan.launch_count(), 2);
    assert_eq!(plan.waves.len(), 2);
    assert_eq!(plan.waves[0][0].label, "postgres");
    assert_eq!(plan.waves[1][0].label, "editor");
}

#[test]
fn a_running_dependency_counts_as_met() {
    let p = project(vec![slot("db", "pg", &[]), slot("api", "code", &["db"])]);
    let db = window("0xd", "pg", None);
    let plan = plan(&p, &[&db], "").unwrap();
    assert_eq!(plan.waves.len(), 1);
    assert_eq!(plan.waves[0][0].label, "api");
}

#[test]
fn plans_carry_the_launch_error() {
    let p = project(vec![slot("a", "x", &["b"]), slot("b", "y", &["a"])]);
    match plan(&p, &[], "") {
        Err(PlanError::Launch(LaunchPlanError::Cycle { .. })) => {}
        other => panic!("{other:?}"),
    }
}

#[test]
fn slots_without_a_launch_are_left_out_of_the_plan() {
    let mut adopt_only = slot("notes", "obsidian", &[]);
    adopt_only.launch = None;
    let p = project(vec![adopt_only, slot("db", "pg", &[])]);
    let plan = plan(&p, &[], "ws:").unwrap();
    assert_eq!(plan.workspace, "ws:test");
    assert_eq!(plan.launch_count(), 1);
    assert_eq!(plan.waves[0][0].label, "db");
}

#[test]
fn the_best_fitting_window_is_taken_first() {
    let mut exact = slot("exact", "kitty", &[]);
    exact.identity.executable = Some("/usr/bin/kitty".into());
    let p = project(vec![slot("loose", "kitty", &[]), exact]);
    let a = window("0xa", "kitty", Some("/usr/bin/kitty"));
    let r = reconcile(&p, &[&a]);
    assert_eq!(r.matched, vec![(p.apps[1].slot_id, "0xa".to_owned())]);
    assert_eq!(r.missing, vec![p.apps[0].slot_id]);
}

#[test]
fn duplicate_names_are_quoted_in_the_message() {
    let error = LaunchPlanError::DuplicateName { name: "dup".into() };
    assert!(error.message().contains("\"dup\""));
}

#[test]
fn services_are_never_matched_to_a_window() {
    let mut db = slot("db", "pg", &[]);
    db.launch.as_mut().unwrap().service = true;
    let id = db.slot_id;
    let r = reconcile(&project(vec![db]), &[&window("0xa", "pg", None)]);
    assert!(r.matched.is_empty());
    assert_eq!(r.missing, vec![id]);
}

#[test]
fn scores_fall_along_the_matches() {
    let mut exact = slot("exact", "kitty", &[]);
    exact.identity.executable = Some("/usr/bin/kitty".into());
    let p = project(vec![slot("a", "mpv", &[]), exact, slot("b", "kitty", &[])]);
    let (w1, w2, w3) = (
        window("0x1", "kitty", None),
        window("0x2", "mpv", None),
        window("0x3", "kitty", Some("/usr/bin/kitty")),
    );
    let r = reconcile(&p, &[&w1, &w2, &w3]);
    let addresses: Vec<&str> = r.matched.iter().map(|(_, a)| a.as_str()).collect();
    assert_eq!(addresses, ["0x3", "0x2", "0x1"]);
}

#[test]
fn each_missing_slot_is_launched_once() {
    let p = project(vec![
        slot("db", "pg", &[]),
        slot("api", "api", &["db"]),
        slot("web", "web", &["db", "api"]),
    ]);
    let running = window("0x1", "api", None);
    let plan = plan(&p, &[&running], "").unwrap();
    let labels: Vec<Vec<&str>> =
        plan.waves.iter().map(|w| w.iter().map(|s| s.label.as_str()).collect()).collect();
    assert_eq!(labels, [vec!["db"], vec!["web"]]);
    assert_eq!(plan.adopt.len(), 1);
    assert!(plan.adopt[0].needs_move);
}
