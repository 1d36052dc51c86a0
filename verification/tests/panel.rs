//! The side panel: colors, connection, rail and settings form.

use omarchy_workspaces::domain::events::DomainEvent;
use omarchy_workspaces::domain::model::Slug;
use omarchy_workspaces::json::Json;
use omarchy_workspaces::panel::client::{snapshot_updates, Connection, Pending, UiRequest, UiUpdate};
use omarchy_workspaces::panel::rail::{
    entered_name, initial_letters, initials_of, move_row, press_delete, row_state, row_subtitle,
    Hover, HoverEvent, RowOrder, RowState,
};
use omarchy_workspaces::panel::settings::{
    apply_capture, command_line, is_browser, populate, profile_argument, quote_argument,
    save_requests, Filled,
};
use omarchy_workspaces::panel::theme::{
    color_definitions, colors_file, is_hex_color, omarchy_current_dir, theme_colors, ThemeColors,
};
use omarchy_workspaces::proto::{ProjectSummary, Request, Snapshot};

fn no_colors() -> ThemeColors {
    ThemeColors {
        background: None,
        foreground: None,
        accent: None,
        color1: None,
        color2: None,
        color3: None,
    }
}

#[test]
fn fallback_definitions_are_valid_css() {
    // Even with no theme present the definitions must contain all names.
    let css = color_definitions(&no_colors());
    for name in [
        "panel_bg",
        "panel_fg",
        "panel_accent",
        "panel_danger",
        "panel_viewing",
        "panel_open",
    ] {
        assert!(css.contains(name), "{css}");
    }
}

#[test]
fn hex_validation() {
    assert!(is_hex_color("#7aa2f7"));
    assert!(is_hex_color("#7aa2f7ff"));
    assert!(!is_hex_color("7aa2f7"));
    assert!(!is_hex_color("#zzz"));
    assert!(!is_hex_color("#7aa2f7; } * { background: red"));
}

#[test]
fn theme_colors_replace_the_fallbacks() {
    let mut colors = no_colors();
    colors.accent = Some("#123456".into());
    colors.color1 = Some("red; } * {".into());
    let css = color_definitions(&colors);
    assert!(css.contains("@define-color panel_accent #123456;"));
    assert!(!css.contains("red"));
    assert_eq!(
        omarchy_current_dir(Some("/home/me")).as_deref(),
        Some("/home/me/.config/omarchy/current")
    );
    assert_eq!(
        colors_file(Some("/home/me")).as_deref(),
        Some("/home/me/.config/omarchy/current/theme/colors.toml")
    );
    assert_eq!(colors_file(None), None);
}

fn project(slug: &str, windows: usize, active: bool) -> ProjectSummary {
    ProjectSummary {
        slug: Slug::parse(slug).unwrap(),
        name: slug.into(),
        active,
        windows,
        groups: vec![],
        workspace: slug.into(),
    }
}

#[test]
fn a_connection_subscribes_and_fetches() {
    let (mut connection, subscribe, fetch) = Connection::open();
    assert!(matches!(subscribe.request, Request::Subscribe { topics: Some(t) } if t.len() == 3));
    assert!(matches!(fetch.request, Request::StateSnapshot));
    // A change while the first snapshot is on its way fetches no second one.
    let event = DomainEvent::ProjectDeleted { slug: "a".into() };
    assert!(connection.on_event(&event).is_none());
    assert_eq!(connection.on_response(fetch.id), Some(Pending::Snapshot));
    assert_eq!(connection.on_response(fetch.id), None);
    let again = connection.on_event(&event).unwrap();
    assert!(again.id > fetch.id);
    let noise = DomainEvent::WindowFocused { address: None };
    assert!(connection.on_event(&noise).is_none());
}

#[test]
fn replies_reach_the_question_they_answer() {
    let (mut connection, _, _) = Connection::open();
    let get = connection.on_ui(UiRequest::Get("a".into()));
    let capture = connection.on_ui(UiRequest::Capture("a".into()));
    let switch = connection.on_ui(UiRequest::Switch("a".into()));
    assert_eq!(connection.on_response(capture.id), Some(Pending::Capture));
    assert_eq!(connection.on_response(get.id), Some(Pending::Details));
    assert_eq!(connection.on_response(switch.id), None);
    assert!(matches!(switch.request, Request::ProjectSwitch { project } if project == "a"));
}

#[test]
fn snapshots_update_list_and_notice() {
    let snapshot = Snapshot {
        projects: vec![project("a", 1, true)],
        windows: vec![],
        workspaces: vec![],
        monitors: vec![],
        focused_window: None,
        hypr_connected: true,
        update_available: Some("0.4.0".into()),
    };
    match snapshot_updates(snapshot) {
        (UiUpdate::UpdateAvailable(version), UiUpdate::Projects(list)) => {
            assert_eq!(list.len(), 1);
            assert_eq!(version.as_deref(), Some("0.4.0"));
        }
        other => panic!("{other:?}"),
    }
}

#[test]
fn the_rail_expands_on_hover_and_stays_for_a_drag() {
    let mut hover = Hover::start();
    hover.on(HoverEvent::Enter);
    assert!(!hover.expanded);
    hover.on(HoverEvent::Fired);
    assert!(hover.expanded);
    hover.on(HoverEvent::DragBegin);
    hover.on(HoverEvent::Leave);
    hover.on(HoverEvent::Fired);
    assert!(hover.expanded);
    hover.on(HoverEvent::DragEnd);
    hover.on(HoverEvent::Fired);
    assert!(!hover.expanded);
}

#[test]
fn rows_show_initials_state_and_count() {
    assert_eq!(initials_of("web development kit"), "wd");
    assert_eq!(initial_letters("élan vital"), "ÉV");
    assert_eq!(initial_letters("straße"), "S");
    assert_eq!(initial_letters("  "), "");
    assert_eq!(row_state(&project("a", 2, true)), RowState::Viewing);
    assert_eq!(row_state(&project("a", 2, false)), RowState::Open);
    assert_eq!(row_state(&project("a", 0, false)), RowState::Idle);
    assert_eq!(row_subtitle(&project("a", 1, false)), "1 window");
    assert_eq!(row_subtitle(&project("a", 0, false)), "0 windows");
    assert_eq!(entered_name("  Web  ").as_deref(), Some("Web"));
    assert_eq!(entered_name("   "), None);
}

#[test]
fn deleting_takes_two_presses() {
    let (armed, request) = press_delete(false, "a");
    assert!(armed && request.is_none());
    let (_, request) = press_delete(armed, "a");
    assert!(matches!(request, Some(UiRequest::Delete(slug)) if slug == "a"));
}

fn order(slugs: &[&str]) -> Vec<String> {
    slugs.iter().map(|s| s.to_string()).collect()
}

#[test]
fn rows_move_while_dragged_and_snap_back_when_cancelled() {
    let mut visual = order(&["a", "b", "c"]);
    assert_eq!(move_row(&mut visual, "a", 2), Some((0, 2)));
    assert_eq!(visual, ["b", "c", "a"]);
    assert_eq!(move_row(&mut visual, "zz", 0), None);

    let projects = vec![project("a", 0, false), project("b", 0, false), project("c", 0, false)];
    let mut rows = RowOrder::start();
    rows.on_projects(&projects);
    rows.on_drag_begin("c");
    assert_eq!(rows.on_hover(0), Some((2, 0)));
    assert_eq!(rows.visual, ["c", "a", "b"]);
    rows.on_drag_end();
    assert_eq!(rows.visual, ["a", "b", "c"]);

    rows.on_drag_begin("c");
    rows.on_hover(0);
    match rows.on_drop() {
        UiRequest::Reorder(order) => assert_eq!(order, ["c", "a", "b"]),
        other => panic!("{other:?}"),
    }
    rows.on_drag_end();
    assert_eq!(rows.visual, ["c", "a", "b"]);
}

// ---- settings --------------------------------------------------------------------------------

fn text(s: &str) -> Json {
    Json::Text(s.to_owned())
}

fn object(members: Vec<(&str, Json)>) -> Json {
    Json::Object(members.into_iter().map(|(key, value)| (key.to_owned(), value)).collect())
}

fn launch(command: &str, args: &[&str], workdir: Option<&str>) -> Json {
    let mut members = vec![
        ("command", text(command)),
        ("args", Json::List(args.iter().map(|a| text(a)).collect())),
    ];
    if let Some(dir) = workdir {
        members.push(("workdir", text(dir)));
    }
    object(members)
}

fn app(slot_id: &str, class: &str, launch: Option<Json>) -> Json {
    let mut members = vec![
        ("slot_id", text(slot_id)),
        ("identity", object(vec![("class", text(class)), ("executable", text("/usr/bin/x"))])),
    ];
    if let Some(launch) = launch {
        members.push(("launch", launch));
    }
    object(members)
}

#[test]
fn command_lines_quote_what_a_shell_would_read() {
    assert_eq!(quote_argument("--flag=a/b"), "--flag=a/b");
    assert_eq!(quote_argument("a b"), "'a b'");
    assert_eq!(quote_argument(""), "''");
    let spec = launch("chromium", &["--profile-directory=Work", "https://x.example/?a=1&b=2"], None);
    assert_eq!(command_line(&spec), "chromium 'https://x.example/?a=1&b=2'");
    assert_eq!(profile_argument(&spec).as_deref(), Some("Work"));
    assert_eq!(command_line(&Json::Null), "");
    assert!(is_browser("Chromium") && is_browser("google-chrome") && !is_browser("kitty"));
}

#[test]
fn the_form_shows_the_saved_slots() {
    let reply = object(vec![
        ("slug", text("web")),
        (
            "apps",
            Json::List(vec![
                app("s1", "chromium", Some(launch("chromium", &["--profile-directory=Work"], Some("/srv")))),
                app("s2", "kitty", None),
                object(vec![("identity", Json::Null)]),
            ]),
        ),
    ]);
    let rows = match populate(&reply, "web") {
        Filled::Rows(rows) => rows,
        other => panic!("{other:?}"),
    };
    assert_eq!(rows.len(), 2);
    assert_eq!((rows[0].command.as_str(), rows[0].workdir.as_str()), ("chromium", "/srv"));
    assert_eq!(rows[0].profile.as_deref(), Some("Work"));
    // A slot without a launch spec restores by its executable.
    assert_eq!(rows[1].command, "/usr/bin/x");
    assert_eq!(rows[1].profile, None);
    assert!(matches!(populate(&reply, "other"), Filled::OtherProject));
    assert!(matches!(populate(&object(vec![("slug", text("web"))]), "web"), Filled::NoApps));

    let capture = object(vec![
        ("project", text("web")),
        (
            "apps",
            Json::List(vec![
                app("n1", "Kitty", Some(launch("kitty", &["--hold"], Some("/tmp")))),
                app("n2", "kitty", Some(launch("other", &[], None))),
            ]),
        ),
    ]);
    let rows = match apply_capture(&rows, &capture, "web") {
        Filled::Rows(rows) => rows,
        other => panic!("{other:?}"),
    };
    assert_eq!(rows[0].command, "chromium");
    assert_eq!((rows[1].command.as_str(), rows[1].workdir.as_str()), ("kitty --hold", "/tmp"));
    assert_eq!(rows[1].slot_id, "s2");
    assert!(matches!(apply_capture(&rows, &capture, "other"), Filled::OtherProject));

    let requests = save_requests("web", &rows);
    assert_eq!(requests.len(), 2);
    assert!(matches!(
        &requests[1],
        UiRequest::UpdateSlot { slot_id, command, .. } if slot_id == "s2" && command == "kitty --hold"
    ));
}

#[test]
fn theme_files_are_read() {
    let text = "background = \"#000000\"\nforeground = 7\naccent = \"red\"\ncolor1 = \"#ff0000\"\n";
    let colors = theme_colors(Some(text));
    assert_eq!(colors.background.as_deref(), Some("#000000"));
    assert_eq!(colors.foreground, None);
    assert_eq!(colors.accent.as_deref(), Some("red"));
    let css = color_definitions(&colors);
    assert!(css.starts_with("@define-color panel_bg #000000;\n@define-color panel_fg #a9b1d6;\n"));
    assert!(css.contains("@define-color panel_accent #7aa2f7;\n"));
    assert!(css.contains("@define-color panel_danger #ff0000;\n"));
    assert_eq!(color_definitions(&theme_colors(Some("not toml ["))), color_definitions(&no_colors()));
    assert_eq!(color_definitions(&theme_colors(None)), color_definitions(&no_colors()));
}
