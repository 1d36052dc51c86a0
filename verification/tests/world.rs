//! The world model: idempotent updates, hydration and release.

use omarchy_workspaces::domain::model::{ProjectId, Slug};
use omarchy_workspaces::domain::world::{
    AssignmentSource, MonitorInfo, TrackedWindow, WindowFacts, World,
};

fn facts(class: &str) -> WindowFacts {
    WindowFacts {
        class: class.to_owned(),
        ..Default::default()
    }
}

#[test]
fn upserts_are_idempotent() {
    let mut world = World::default();
    world.upsert_window("0xa", Some("s1".into()), facts("firefox"));
    world.upsert_window("0xa", None, facts("firefox"));
    assert_eq!(world.windows.len(), 1);
    // A later upsert without stable_id must not erase the known one.
    assert_eq!(world.windows.get("0xa").unwrap().stable_id.as_deref(), Some("s1"));

    // Events for unknown windows are no-ops, not errors.
    world.remove_window("0xdead");
    world.set_title("0xdead", "gone");
    world.set_floating("0xdead", true);
    world.set_window_workspace("0xdead", 1, "1");
    assert_eq!(world.windows.len(), 1);
}

#[test]
fn hydrate_preserves_assignments() {
    let mut world = World::default();
    world.upsert_window("0xa", None, facts("firefox"));
    let project = ProjectId::new();
    world.assign("0xa", project, None, AssignmentSource::Manual);

    // Re-hydration (e.g. after reconnect) replaces facts but keeps our
    // annotations for windows that still exist.
    world.hydrate(
        vec![
            TrackedWindow {
                address: "0xa".into(),
                stable_id: None,
                facts: facts("firefox"),
                assignment: None,
                assigned_by: None,
            },
            TrackedWindow {
                address: "0xb".into(),
                stable_id: None,
                facts: facts("kitty"),
                assignment: None,
                assigned_by: None,
            },
        ],
        vec![],
        vec![],
        Some("0xb".into()),
    );
    assert_eq!(world.windows.len(), 2);
    assert_eq!(world.windows.get("0xa").unwrap().assignment, Some((project, None)));
    assert_eq!(world.windows.get("0xb").unwrap().assignment, None);
    assert_eq!(world.focused_window.as_deref(), Some("0xb"));
}

#[test]
fn focus_clears_when_window_closes() {
    let mut world = World::default();
    world.upsert_window("0xa", None, facts("firefox"));
    world.set_focus(Some("0xa".into()));
    world.remove_window("0xa");
    assert_eq!(world.focused_window, None);
}

#[test]
fn workspace_lifecycle() {
    let mut world = World::default();
    world.upsert_workspace(-1337, "web-dev", "DP-1");
    world.rename_workspace(-1337, "webdev");
    assert_eq!(world.workspaces.get(-1337).unwrap().name, "webdev");
    world.remove_workspace(-1337);
    world.remove_workspace(-1337); // replay-safe
    assert!(world.workspaces.is_empty());
}

#[test]
fn releasing_a_project_touches_its_windows_only() {
    let mut world = World::default();
    let (a, b) = (ProjectId(1), ProjectId(2));
    world.upsert_window("0xa", None, facts("x"));
    world.upsert_window("0xb", None, facts("y"));
    world.assign("0xa", a, Some(Slug::parse("api").unwrap()), AssignmentSource::Rule("r".into()));
    world.assign("0xb", b, None, AssignmentSource::Manual);
    assert_eq!(world.windows.count_assigned(a), 1);
    world.windows.clear_assignments(a);
    assert_eq!(world.windows.count_assigned(a), 0);
    assert_eq!(world.windows.get("0xa").unwrap().assigned_by, None);
    assert_eq!(world.windows.get("0xb").unwrap().assignment, Some((b, None)));
}

#[test]
fn windows_are_listed_by_address() {
    let mut world = World::default();
    for address in ["0xc", "0xa", "0xb"] {
        world.upsert_window(address, None, facts("x"));
    }
    let order: Vec<String> = world.windows.sorted().into_iter().map(|w| w.address).collect();
    assert_eq!(order, ["0xa", "0xb", "0xc"]);
}

#[test]
fn one_monitor_has_the_focus() {
    let mut world = World::default();
    world.monitors.push(MonitorInfo { id: 0, name: "DP-1".into(), focused: true });
    world.add_monitor(1, "DP-2".into());
    world.focus_monitor("DP-2");
    let focused: Vec<bool> = world.monitors.iter().map(|m| m.focused).collect();
    assert_eq!(focused, [false, true]);
    world.remove_monitor(0);
    assert_eq!(world.monitors.len(), 1);
    assert_eq!(world.monitors[0].name, "DP-2");
}

#[test]
fn fullscreen_goes_to_the_focused_window() {
    let mut world = World::default();
    world.upsert_window("0xa", None, facts("x"));
    world.upsert_window("0xb", None, facts("y"));
    world.set_focus(Some("0xb".into()));
    world.set_fullscreen(true);
    assert_eq!(world.windows.get("0xa").unwrap().facts.fullscreen, 0);
    assert!(world.windows.get("0xb").unwrap().facts.fullscreen > 0);
    world.set_fullscreen(false);
    assert_eq!(world.windows.get("0xb").unwrap().facts.fullscreen, 0);
}

#[test]
fn updates_of_two_windows_commute_and_replay_is_harmless() {
    let mut one = World::default();
    one.upsert_window("0xa", None, facts("x"));
    one.upsert_window("0xb", None, facts("y"));
    let mut two = World::default();
    two.upsert_window("0xb", None, facts("y"));
    two.upsert_window("0xa", None, facts("x"));
    assert_eq!(one.windows.sorted(), two.windows.sorted());

    one.set_title("0xa", "new");
    let before = one.windows.sorted();
    one.set_title("0xa", "new");
    assert_eq!(one.windows.sorted(), before);
    one.remove_window("0xa");
    one.remove_window("0xa");
    assert_eq!(one.windows.len(), 1);
}
