//! Reading launch commands, profiles, folders and browser tabs back from
//! running programs.

use omarchy_workspaces::daemon::capture::{
    browser_config, browser_profile, captured_launch, captured_title_pattern, children_path,
    chromium_profile, chromium_profile_in, cmdline_path, cwd_path, only_child, percent_decode,
    process_workdir, split_cmdline, vscode_class, vscode_folder, vscode_folder_matching,
    vscode_title_folder, CaptureHints,
};
use omarchy_workspaces::daemon::snss::{
    is_launchable, match_window, newest_session, normalize_title, open_windows,
    strip_browser_suffix, window_tabs,
};
use omarchy_workspaces::domain::world::WindowFacts;
use omarchy_workspaces::json::Json;

fn text(s: &str) -> Json {
    Json::Text(s.to_owned())
}

fn object(members: Vec<(&str, Json)>) -> Json {
    Json::Object(members.into_iter().map(|(key, value)| (key.to_owned(), value)).collect())
}

#[test]
fn vscode_title_parsing() {
    assert_eq!(
        vscode_title_folder("Welcome - omarchy-workspaces - Visual Studio Code"),
        Some("omarchy-workspaces".to_owned())
    );
    assert_eq!(
        vscode_title_folder("● main.rs - Harksoft - Visual Studio Code"),
        Some("Harksoft".to_owned())
    );
    // No folder open, or not a VS Code title.
    assert_eq!(vscode_title_folder("Untitled-1 - Visual Studio Code"), None);
    assert_eq!(vscode_title_folder("New Tab - Chromium"), None);
}

#[test]
fn cmdline_splitting_handles_chromium_rewrite() {
    // Normal NUL-separated argv.
    assert_eq!(
        split_cmdline(b"/usr/bin/kitty\0--single-instance\0"),
        Some(vec!["/usr/bin/kitty".into(), "--single-instance".into()])
    );
    // Chromium-style: one giant space-separated "argument".
    assert_eq!(
        split_cmdline(b"/usr/lib/chromium/chromium --ozone-platform=wayland\0"),
        Some(vec![
            "/usr/lib/chromium/chromium".into(),
            "--ozone-platform=wayland".into()
        ])
    );
    assert_eq!(split_cmdline(b""), None);
}

#[test]
fn ill_formed_bytes_are_replaced() {
    assert_eq!(split_cmdline(b"a\xff\0b\0"), Some(vec!["a\u{fffd}".into(), "b".into()]));
}

#[test]
fn title_pattern_pins_vscode_windows_to_their_folder() {
    let facts = |class: &str, title: &str| WindowFacts {
        class: class.to_owned(),
        title: title.to_owned(),
        ..Default::default()
    };
    assert_eq!(
        captured_title_pattern(&facts("code", "● main.rs - Harksoft - Visual Studio Code")),
        Some(" - Harksoft - ".to_owned())
    );
    // Regex metacharacters in folder names are escaped.
    assert_eq!(
        captured_title_pattern(&facts("code", "a - my (v2) app - Visual Studio Code")),
        Some(r" - my \(v2\) app - ".to_owned())
    );
    // Not VS Code, or no folder: no pattern.
    assert_eq!(
        captured_title_pattern(&facts("chromium", "Docs - Chromium")),
        None
    );
    assert_eq!(
        captured_title_pattern(&facts("code", "Untitled-1 - Visual Studio Code")),
        None
    );
}

#[test]
fn vscode_folder_lookup_matches_basename() {
    let storage = object(vec![(
        "windowsState",
        object(vec![
            (
                "lastActiveWindow",
                object(vec![("folder", text("file:///home/u/Projects/omarchy-workspaces"))]),
            ),
            (
                "openedWindows",
                Json::List(vec![
                    object(vec![("folder", text("file:///home/u/Harksoft"))]),
                    object(vec![("folder", text("file:///home/u/My%20Site"))]),
                ]),
            ),
        ]),
    )]);
    assert_eq!(
        vscode_folder_matching(&storage, "Harksoft"),
        Some("/home/u/Harksoft".to_owned())
    );
    assert_eq!(
        vscode_folder_matching(&storage, "My Site"),
        Some("/home/u/My Site".to_owned())
    );
    assert_eq!(vscode_folder_matching(&storage, "elsewhere"), None);
}

#[test]
fn chromium_profile_prefers_project_name_match() {
    let local_state = object(vec![(
        "profile",
        object(vec![
            (
                "info_cache",
                object(vec![
                    ("Default", object(vec![("name", text("Work"))])),
                    ("Profile 4", object(vec![("name", text("American Review Center"))])),
                ]),
            ),
            ("last_active_profiles", Json::List(vec![text("Default"), text("Profile 4")])),
        ]),
    )]);
    assert_eq!(
        chromium_profile(&local_state, "American Review Center"),
        Some("Profile 4".to_owned())
    );
    // No name match, several active: ambiguous, stay unset.
    assert_eq!(chromium_profile(&local_state, "Testing"), None);

    let single = object(vec![(
        "profile",
        object(vec![
            ("info_cache", object(vec![("Default", object(vec![("name", text("Work"))]))])),
            ("last_active_profiles", Json::List(vec![text("Default")])),
        ]),
    )]);
    assert_eq!(
        chromium_profile(&single, "Testing"),
        Some("Default".to_owned())
    );
}

#[test]
fn documents_are_read_from_bytes() {
    let state = br#"{"profile": {"info_cache": {"Profile 4": {"name": "api"}}}}"#;
    assert_eq!(chromium_profile_in(state, "API"), Some("Profile 4".to_owned()));
    assert_eq!(chromium_profile_in(b"not json", "API"), None);
    let storage = br#"{"windowsState": {"openedWindows": [{"folder": "file:///srv/api"}]}}"#;
    assert_eq!(
        vscode_folder("main.rs - api - Visual Studio Code", &vec![None, Some(storage.to_vec())]),
        Some("/srv/api".to_owned())
    );
    assert_eq!(vscode_folder("main.rs - api - Visual Studio Code", &vec![None]), None);
}

#[test]
fn percent_escapes_are_decoded() {
    assert_eq!(percent_decode("/a%20b"), "/a b");
    assert_eq!(percent_decode("100%"), "100%");
    assert_eq!(percent_decode("%zz"), "%zz");
}

#[test]
fn process_files_are_named_by_pid() {
    assert_eq!(cmdline_path(42).as_deref(), Some("/proc/42/cmdline"));
    assert_eq!(cwd_path(42).as_deref(), Some("/proc/42/cwd"));
    assert_eq!(children_path(42).as_deref(), Some("/proc/42/task/42/children"));
    assert_eq!(cmdline_path(0), None);
    assert_eq!(only_child("17 "), Some(17));
    assert_eq!(only_child("17 18 "), None);
    assert_eq!(process_workdir(Some("/b".into()), Some("/a".into())).as_deref(), Some("/b"));
    assert_eq!(process_workdir(None, Some("/a".into())).as_deref(), Some("/a"));
}

#[test]
fn programs_are_told_apart_by_class() {
    assert!(vscode_class("code"));
    assert!(!vscode_class("kitty"));
    assert!(browser_config("chromium").is_some());
    assert!(browser_config("firefox").is_none());
    let args = vec!["--profile-directory=Profile 1".to_owned()];
    assert_eq!(browser_profile(&args, Some("Default".into())).as_deref(), Some("Profile 1"));
    assert_eq!(browser_profile(&vec![], Some("Default".into())).as_deref(), Some("Default"));
}

#[test]
fn nothing_to_read_means_no_launch() {
    let hints = CaptureHints { disk_profile: None, tabs: None, folder: None };
    assert!(captured_launch(&WindowFacts::default(), None, None, hints).is_none());
}

#[test]
fn a_plain_program_is_captured_as_it_runs() {
    let facts = WindowFacts { class: "kitty".into(), ..Default::default() };
    let hints = CaptureHints { disk_profile: None, tabs: None, folder: None };
    let argv = vec!["/usr/bin/kitty".to_owned(), "--hold".to_owned()];
    let launch = captured_launch(&facts, Some(argv), Some("/srv".into()), hints).unwrap();
    assert_eq!(launch.command, "/usr/bin/kitty");
    assert_eq!(launch.args, ["--hold"]);
    assert_eq!(launch.workdir.as_deref(), Some("/srv"));
}

// ---- browser sessions ----------------------------------------------------------------------

const SET_TAB_WINDOW: u8 = 0;
const SET_TAB_INDEX_IN_WINDOW: u8 = 2;
const UPDATE_TAB_NAVIGATION: u8 = 6;
const SET_SELECTED_NAVIGATION_INDEX: u8 = 7;
const SET_SELECTED_TAB_IN_INDEX: u8 = 8;
const TAB_CLOSED: u8 = 16;
const WINDOW_CLOSED: u8 = 17;

fn command(id: u8, payload: &[u8]) -> Vec<u8> {
    let size = (payload.len() + 1) as u16;
    let mut out = size.to_le_bytes().to_vec();
    out.push(id);
    out.extend_from_slice(payload);
    out
}

fn pair(a: i32, b: i32) -> Vec<u8> {
    let mut out = a.to_le_bytes().to_vec();
    out.extend_from_slice(&b.to_le_bytes());
    out
}

fn navigation(tab: i32, index: i32, url: &str, title: &str) -> Vec<u8> {
    let mut body = pair(tab, index);
    body.extend_from_slice(&(url.len() as i32).to_le_bytes());
    body.extend_from_slice(url.as_bytes());
    body.resize(body.len().next_multiple_of(4), 0);
    let units: Vec<u16> = title.encode_utf16().collect();
    body.extend_from_slice(&(units.len() as i32).to_le_bytes());
    for unit in &units {
        body.extend_from_slice(&unit.to_le_bytes());
    }
    body.resize(body.len().next_multiple_of(4), 0);
    let mut pickled = (body.len() as u32).to_le_bytes().to_vec();
    pickled.extend_from_slice(&body);
    pickled
}

fn session(commands: &[Vec<u8>]) -> Vec<u8> {
    let mut data = b"SNSS".to_vec();
    data.extend_from_slice(&3i32.to_le_bytes());
    for c in commands {
        data.extend_from_slice(c);
    }
    data
}

fn two_window_session() -> Vec<u8> {
    session(&[
        command(SET_TAB_WINDOW, &pair(1, 10)),
        command(SET_TAB_WINDOW, &pair(1, 11)),
        command(SET_TAB_WINDOW, &pair(2, 20)),
        command(SET_TAB_INDEX_IN_WINDOW, &pair(10, 0)),
        command(SET_TAB_INDEX_IN_WINDOW, &pair(11, 1)),
        command(UPDATE_TAB_NAVIGATION, &navigation(10, 0, "https://old.example", "Old")),
        command(UPDATE_TAB_NAVIGATION, &navigation(10, 1, "https://docs.example", "Docs")),
        command(UPDATE_TAB_NAVIGATION, &navigation(11, 0, "https://mail.example", "Mail")),
        command(UPDATE_TAB_NAVIGATION, &navigation(20, 0, "https://gone.example", "Gone")),
        command(SET_SELECTED_NAVIGATION_INDEX, &pair(10, 1)),
        command(SET_SELECTED_TAB_IN_INDEX, &pair(1, 0)),
        command(WINDOW_CLOSED, &2i32.to_le_bytes()),
    ])
}

#[test]
fn replays_open_windows_and_tabs() {
    let windows = open_windows(&two_window_session());
    assert_eq!(windows.len(), 1);
    assert_eq!(windows[0].0, 1);
    let window = &windows[0].1;
    // Tab 10 shows its *selected* navigation (Docs, not Old).
    assert_eq!(
        window.tabs,
        vec![
            (0, "https://docs.example".into(), "Docs".into()),
            (1, "https://mail.example".into(), "Mail".into()),
        ]
    );
    assert_eq!(window.selected_index, Some(0));
}

#[test]
fn title_matching_survives_unread_prefix_and_suffix() {
    let windows = open_windows(&two_window_session());
    let tabs = |title: &str| match_window(&windows, title).map(|w| w.tabs.len());
    assert_eq!(tabs("Docs - Chromium"), Some(2));
    assert_eq!(tabs("(7) Docs - Chromium"), Some(2)); // unread drift
    assert_eq!(tabs("Mail - Chromium"), Some(2)); // background tab still matches
    // Single open window: matched even when the title finds nothing.
    assert_eq!(tabs("Something Else - Chromium"), Some(2));
}

#[test]
fn ambiguous_title_with_multiple_windows_matches_nothing() {
    let commands = vec![
        command(SET_TAB_WINDOW, &pair(1, 10)),
        command(SET_TAB_WINDOW, &pair(2, 20)),
        command(UPDATE_TAB_NAVIGATION, &navigation(10, 0, "https://a.example", "A")),
        command(UPDATE_TAB_NAVIGATION, &navigation(20, 0, "https://b.example", "B")),
    ];
    let windows = open_windows(&session(&commands));
    assert_eq!(windows.len(), 2);
    assert!(match_window(&windows, "Nope - Chromium").is_none());
    assert_eq!(
        match_window(&windows, "B - Chromium").map(|w| w.tabs[0].1.as_str()),
        Some("https://b.example")
    );
}

#[test]
fn non_launchable_urls_are_dropped() {
    assert!(is_launchable("https://example.com"));
    assert!(!is_launchable("chrome://newtab/"));
    assert!(!is_launchable("devtools://devtools/bundled/"));
}

#[test]
fn garbage_input_yields_nothing() {
    assert!(open_windows(b"not a session").is_empty());
    assert!(open_windows(&[]).is_empty());
    // Truncated command record.
    let mut data = b"SNSS".to_vec();
    data.extend_from_slice(&3i32.to_le_bytes());
    data.extend_from_slice(&99u16.to_le_bytes());
    data.push(6);
    assert!(open_windows(&data).is_empty());
}

#[test]
fn tabs_to_relaunch_are_those_of_the_window() {
    assert_eq!(
        window_tabs(&two_window_session(), "Docs - Chromium"),
        Some(vec!["https://docs.example".to_owned(), "https://mail.example".to_owned()])
    );
    assert_eq!(window_tabs(b"not a session", "Docs - Chromium"), None);
}

#[test]
fn titles_beyond_the_basic_plane_are_read() {
    let data = session(&[
        command(SET_TAB_WINDOW, &pair(1, 10)),
        command(UPDATE_TAB_NAVIGATION, &navigation(10, 0, "https://x.example", "\u{1f980} Rust")),
    ]);
    assert_eq!(open_windows(&data)[0].1.tabs[0].2, "\u{1f980} Rust");
}

#[test]
fn a_closed_tab_is_gone() {
    let data = session(&[
        command(SET_TAB_WINDOW, &pair(1, 10)),
        command(SET_TAB_WINDOW, &pair(1, 11)),
        command(UPDATE_TAB_NAVIGATION, &navigation(10, 0, "https://a.example", "A")),
        command(UPDATE_TAB_NAVIGATION, &navigation(11, 0, "https://b.example", "B")),
        command(TAB_CLOSED, &10i32.to_le_bytes()),
    ]);
    let windows = open_windows(&data);
    assert_eq!(windows[0].1.tabs.len(), 1);
    assert_eq!(windows[0].1.tabs[0].1, "https://b.example");
}

#[test]
fn titles_are_compared_without_suffix_and_counter() {
    assert_eq!(strip_browser_suffix("Docs - Chromium"), "Docs");
    assert_eq!(normalize_title("(7) Docs"), "Docs");
    assert_eq!(normalize_title("(x) Docs"), "(x) Docs");
}

#[test]
fn the_newest_session_file_is_read() {
    let entries = vec![
        ("Session_1".to_owned(), 5),
        ("Tabs_9".to_owned(), 9),
        ("Session_2".to_owned(), 7),
    ];
    assert_eq!(newest_session(&entries), Some(2));
    assert_eq!(newest_session(&vec![]), None);
}

#[test]
fn two_windows_with_the_title_are_not_guessed_between() {
    let commands = |first: &str, second: &str| {
        session(&[
            command(SET_TAB_WINDOW, &pair(1, 10)),
            command(SET_TAB_WINDOW, &pair(1, 11)),
            command(SET_TAB_WINDOW, &pair(2, 20)),
            command(SET_TAB_WINDOW, &pair(2, 21)),
            command(SET_TAB_INDEX_IN_WINDOW, &pair(11, 1)),
            command(SET_TAB_INDEX_IN_WINDOW, &pair(21, 1)),
            command(UPDATE_TAB_NAVIGATION, &navigation(10, 0, "https://a.example", first)),
            command(UPDATE_TAB_NAVIGATION, &navigation(11, 0, "https://c.example", "Docs")),
            command(UPDATE_TAB_NAVIGATION, &navigation(20, 0, "https://b.example", second)),
            command(UPDATE_TAB_NAVIGATION, &navigation(21, 0, "https://d.example", "Docs")),
            command(SET_SELECTED_TAB_IN_INDEX, &pair(1, 0)),
            command(SET_SELECTED_TAB_IN_INDEX, &pair(2, 0)),
        ])
    };
    // Both show it, one shows it, none shows it and both list it.
    assert_eq!(window_tabs(&commands("Docs", "Docs"), "Docs - Chromium"), None);
    assert_eq!(
        window_tabs(&commands("Mail", "Docs"), "Docs - Chromium"),
        Some(vec!["https://b.example".to_owned(), "https://d.example".to_owned()])
    );
    assert_eq!(window_tabs(&commands("Mail", "News"), "Docs - Chromium"), None);
}

#[test]
fn what_is_cut_off_or_unknown_changes_nothing() {
    let whole = two_window_session();
    let mut cut = whole.clone();
    cut.extend_from_slice(&99u16.to_le_bytes());
    cut.push(WINDOW_CLOSED);
    let mut unknown = whole.clone();
    unknown.extend_from_slice(&command(200, &pair(1, 10)));
    unknown.extend_from_slice(&command(TAB_CLOSED, &[10]));
    for data in [cut, unknown] {
        assert_eq!(open_windows(&data)[0].1.tabs, open_windows(&whole)[0].1.tabs);
    }
}
