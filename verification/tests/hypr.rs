//! Hyprland's sockets: addresses, events, dispatches and their errors.

use omarchy_workspaces::hypr::ctl::{
    batch_request, dispatch_request, Dispatch, HyprCtl, MoveDir, WsTarget,
};
use omarchy_workspaces::hypr::error::HyprError;
use omarchy_workspaces::hypr::events::{backoff_delay, Backoff, HyprEvent};
use omarchy_workspaces::hypr::model::{fullscreen_mode, WindowAddress};
use omarchy_workspaces::hypr::socket::HyprPaths;

fn addr(s: &str) -> WindowAddress {
    WindowAddress::new(s)
}

#[test]
fn dispatch_rendering() {
    let cases = [
        (
            Dispatch::Workspace(WsTarget::Name("web-dev".into())),
            "workspace name:web-dev",
        ),
        (Dispatch::Workspace(WsTarget::Id(3)), "workspace 3"),
        (
            Dispatch::Workspace(WsTarget::Previous),
            "workspace previous",
        ),
        (
            Dispatch::MoveToWorkspaceSilent {
                target: WsTarget::Name("web-dev:backend".into()),
                address: addr("0x556bf8bdd060"),
            },
            "movetoworkspacesilent name:web-dev:backend,address:0x556bf8bdd060",
        ),
        (
            Dispatch::FocusWindow(addr("0x556bf8bdd060")),
            "focuswindow address:0x556bf8bdd060",
        ),
        (
            Dispatch::Exec {
                rules: vec!["workspace name:web-dev silent".into()],
                command: "firefox".into(),
            },
            "exec [workspace name:web-dev silent] firefox",
        ),
        (
            Dispatch::Exec {
                rules: vec![],
                command: "kitty".into(),
            },
            "exec kitty",
        ),
        (
            Dispatch::MoveWindowPixelExact {
                address: addr("0x556bf8bdd060"),
                x: 100,
                y: 200,
            },
            "movewindowpixel exact 100 200,address:0x556bf8bdd060",
        ),
        (
            Dispatch::MoveWorkspaceToMonitor {
                workspace: WsTarget::Name("ml".into()),
                monitor: "DP-1".into(),
            },
            "moveworkspacetomonitor name:ml DP-1",
        ),
    ];
    for (dispatch, want) in cases {
        assert_eq!(dispatch.render(), want);
    }
}

#[test]
fn further_dispatches_render() {
    let cases = [
        (Dispatch::SwapWindow(MoveDir::Left), "swapwindow l"),
        (Dispatch::MoveWindowDir(MoveDir::Down), "movewindow d"),
        (Dispatch::CloseWindow(addr("1")), "closewindow address:0x1"),
        (Dispatch::SetTiled(addr("1")), "settiled address:0x1"),
        (
            Dispatch::ResizeWindowPixelExact { address: addr("1"), w: -8, h: 6 },
            "resizewindowpixel exact -8 6,address:0x1",
        ),
        (Dispatch::Raw("exit".into()), "exit"),
    ];
    for (dispatch, want) in cases {
        assert_eq!(dispatch.render(), want);
    }
}

#[test]
fn requests_frame_one_or_more_dispatches() {
    let one = Dispatch::Workspace(WsTarget::Id(1));
    let two = Dispatch::Workspace(WsTarget::Id(2));
    assert_eq!(dispatch_request(&one), "dispatch workspace 1");
    assert_eq!(batch_request(&vec![]), None);
    assert_eq!(
        batch_request(&vec![one, two]).as_deref(),
        Some("[[BATCH]]dispatch workspace 1; dispatch workspace 2")
    );
}

#[test]
fn check_ok_accepts_single_and_batch() {
    assert!(HyprCtl::check_ok("r", b"ok").is_ok());
    assert!(HyprCtl::check_ok("r", b"ok\nok\nok").is_ok());
    let err = HyprCtl::check_ok("r", b"Invalid dispatcher").unwrap_err();
    assert!(matches!(err, HyprError::DispatchFailed { .. }));
}

#[test]
fn refused_dispatches_say_why() {
    let err = HyprCtl::check_ok("dispatch nope", "Inv\u{e4}lid".as_bytes()).unwrap_err();
    assert_eq!(err.message(), "dispatch \"dispatch nope\" failed: Inv\u{e4}lid");
    assert!(HyprCtl::check_text("r", "ok\nno").is_err());
}

#[test]
fn parses_typed_events() {
    let cases: Vec<(&str, HyprEvent)> = vec![
        (
            "openwindow>>80e63f30,web-dev,firefox,Rust — Mozilla Firefox",
            HyprEvent::OpenWindow {
                address: addr("80e63f30"),
                workspace: "web-dev".into(),
                class: "firefox".into(),
                title: "Rust — Mozilla Firefox".into(),
            },
        ),
        (
            // Commas in the title must survive: title is the last field.
            "openwindow>>80e63f30,1,Code,main.rs — a, b, and c",
            HyprEvent::OpenWindow {
                address: addr("80e63f30"),
                workspace: "1".into(),
                class: "Code".into(),
                title: "main.rs — a, b, and c".into(),
            },
        ),
        (
            "closewindow>>80e63f30",
            HyprEvent::CloseWindow {
                address: addr("80e63f30"),
            },
        ),
        (
            "movewindowv2>>80e63f30,-1337,web-dev",
            HyprEvent::MoveWindow {
                address: addr("80e63f30"),
                workspace_id: -1337,
                workspace: "web-dev".into(),
            },
        ),
        (
            "windowtitlev2>>80e63f30,foo, bar, baz",
            HyprEvent::WindowTitle {
                address: addr("80e63f30"),
                title: "foo, bar, baz".into(),
            },
        ),
        (
            "activewindowv2>>80e63f30",
            HyprEvent::ActiveWindow {
                address: Some(addr("80e63f30")),
            },
        ),
        (
            "activewindowv2>>",
            HyprEvent::ActiveWindow { address: None },
        ),
        (
            "changefloatingmode>>80e63f30,1",
            HyprEvent::ChangeFloatingMode {
                address: addr("80e63f30"),
                floating: true,
            },
        ),
        (
            "workspacev2>>-1337,web-dev",
            HyprEvent::Workspace {
                id: -1337,
                name: "web-dev".into(),
            },
        ),
        (
            "createworkspacev2>>-1338,web-dev:backend",
            HyprEvent::CreateWorkspace {
                id: -1338,
                name: "web-dev:backend".into(),
            },
        ),
        (
            "destroyworkspacev2>>5,5",
            HyprEvent::DestroyWorkspace {
                id: 5,
                name: "5".into(),
            },
        ),
        (
            "moveworkspacev2>>-1337,web-dev,DP-2",
            HyprEvent::MoveWorkspace {
                id: -1337,
                name: "web-dev".into(),
                monitor: "DP-2".into(),
            },
        ),
        (
            "renameworkspace>>3,coding",
            HyprEvent::RenameWorkspace {
                id: 3,
                name: "coding".into(),
            },
        ),
        (
            "focusedmonv2>>DP-1,6",
            HyprEvent::FocusedMonitor {
                monitor: "DP-1".into(),
                workspace_id: 6,
            },
        ),
        (
            "monitoraddedv2>>1,DP-2,Dell U2720Q",
            HyprEvent::MonitorAdded {
                id: 1,
                name: "DP-2".into(),
            },
        ),
        ("fullscreen>>1", HyprEvent::Fullscreen { active: true }),
        ("configreloaded>>", HyprEvent::ConfigReloaded),
        (
            "urgent>>80e63f30",
            HyprEvent::Urgent {
                address: addr("80e63f30"),
            },
        ),
    ];
    for (line, want) in cases {
        assert_eq!(HyprEvent::parse(line), want, "line: {line}");
    }
}

#[test]
fn unknown_and_malformed_events_never_fail() {
    assert_eq!(
        HyprEvent::parse("somefutureevent>>a,b,c"),
        HyprEvent::Unknown {
            name: "somefutureevent".into(),
            data: "a,b,c".into()
        }
    );
    // Malformed payload for a known event degrades to Unknown.
    assert_eq!(
        HyprEvent::parse("workspacev2>>not-a-number"),
        HyprEvent::Unknown {
            name: "workspacev2".into(),
            data: "not-a-number".into()
        }
    );
    // A line with no separator at all.
    assert_eq!(
        HyprEvent::parse("garbage"),
        HyprEvent::Unknown {
            name: "garbage".into(),
            data: String::new()
        }
    );
}

#[test]
fn backoff_grows_and_caps() {
    assert_eq!(backoff_delay(1), 500);
    assert_eq!(backoff_delay(2), 1_000);
    assert_eq!(backoff_delay(10), 5_000);
    assert_eq!(backoff_delay(u32::MAX), 5_000);
}

#[test]
fn a_connection_resets_the_backoff() {
    let mut backoff = Backoff::new();
    assert_eq!(backoff.retry(), 500);
    assert_eq!(backoff.retry(), 1_000);
    backoff.connected();
    assert_eq!(backoff.retry(), 500);
}

#[test]
fn window_address_normalizes_both_forms() {
    let from_json = WindowAddress::new("0x556BF8BDD060");
    let from_event = WindowAddress::new("556bf8bdd060");
    assert_eq!(from_json, from_event);
    assert_eq!(from_json.as_str(), "0x556bf8bdd060");
    assert_eq!(from_json.dispatch_arg(), "address:0x556bf8bdd060");
}

#[test]
fn fullscreen_is_a_number_or_a_flag() {
    assert_eq!(fullscreen_mode(Ok(1)), 1);
    assert_eq!(fullscreen_mode(Err(true)), 2);
    assert_eq!(fullscreen_mode(Err(false)), 0);
}

#[test]
fn sockets_are_found_from_the_environment() {
    let paths = HyprPaths::from_env(Some("/run/user/1000"), Some("abc")).unwrap();
    assert_eq!(paths.ctl, "/run/user/1000/hypr/abc/.socket.sock");
    assert_eq!(paths.events, "/run/user/1000/hypr/abc/.socket2.sock");
    let err = HyprPaths::from_env(None, Some("abc")).unwrap_err();
    assert_eq!(
        err.message(),
        "cannot locate Hyprland sockets: XDG_RUNTIME_DIR is not set (is Hyprland running?)"
    );
    assert!(matches!(
        HyprPaths::from_env(Some("/run"), None),
        Err(HyprError::MissingEnv(name)) if name == "HYPRLAND_INSTANCE_SIGNATURE"
    ));
    assert_eq!(HyprPaths::in_dir("/tmp/x").ctl, "/tmp/x/.socket.sock");
}

#[test]
fn canonical_addresses_stay_as_they_are() {
    let once = WindowAddress::new("0x556BF8BDD060");
    assert_eq!(WindowAddress::new(once.as_str()), once);
}

#[test]
fn errors_have_their_messages() {
    assert_eq!(HyprError::Io("refused".into()).message(), "Hyprland IPC error: refused");
    let decode = HyprError::Decode { request: "j/clients".into(), source: "eof".into() };
    assert_eq!(decode.message(), "unexpected reply to \"j/clients\": eof");
}
