//! Slugs, projects and the wire names of events.

use omarchy_workspaces::domain::events::DomainEvent;
use omarchy_workspaces::domain::listing::in_listing_order;
use omarchy_workspaces::domain::model::{
    default_probe_interval, AppSlot, ModelError, Placement, Project, ProjectId, Readiness, Slug,
    WindowIdentity,
};
use omarchy_workspaces::domain::ws_names::{
    dispatch_target, group_workspace, parse, project_workspace, ParsedName,
};

#[test]
fn slug_accepts_valid() {
    for s in ["web-dev", "ai", "a", "x1", "machine-learning-2"] {
        assert_eq!(Slug::parse(s).unwrap().as_str(), s);
    }
}

#[test]
fn slug_rejects_invalid() {
    for s in [
        "", "Web", "web dev", "-web", "web-", "wéb", "web_dev", "a.b", "a:b",
    ] {
        assert!(Slug::parse(s).is_err(), "expected rejection: {s:?}");
    }
}

#[test]
fn slug_from_display_name() {
    let cases = [
        ("Web Development", "web-development"),
        ("  AI / ML!!", "ai-ml"),
        ("gaming", "gaming"),
        ("Rust 101", "rust-101"),
        ("--weird--", "weird"),
    ];
    for (input, want) in cases {
        assert_eq!(Slug::from_display_name(input).unwrap().as_str(), want);
    }
    assert!(Slug::from_display_name("!!!").is_err());
    assert!(Slug::from_display_name("").is_err());
}

#[test]
fn slug_errors_quote_the_text() {
    let error = Slug::parse("Not A Slug").unwrap_err();
    assert_eq!(error, ModelError::InvalidSlug("Not A Slug".to_owned()));
    assert!(error.message().contains("invalid slug"));
    assert!(error.message().contains("\"Not A Slug\""));
}

#[test]
fn a_parsed_slug_names_itself() {
    for s in ["web-dev", "ai", "x1"] {
        assert_eq!(Slug::from_display_name(Slug::parse(s).unwrap().as_str()).unwrap().as_str(), s);
    }
}

#[test]
fn project_new_derives_slug() {
    let p = Project::new("Web Development").unwrap();
    assert_eq!(p.slug.as_str(), "web-development");
    assert_eq!(p.name, "Web Development");
    assert!(p.groups.is_empty() && p.apps.is_empty());
}

#[test]
fn random_ids_carry_the_version_and_differ() {
    let a = ProjectId::new();
    let b = ProjectId::new();
    assert_ne!(a, b);
    assert_eq!((a.0 >> 76) & 0xf, 4);
    assert_eq!((a.0 >> 62) & 0x3, 2);
}

#[test]
fn ids_are_written_in_groups() {
    let id = ProjectId(0x0123_4567_89ab_cdef_0123_4567_89ab_cdef);
    assert_eq!(id.text(), "01234567-89ab-cdef-0123-456789abcdef");
}

fn unnamed(class: Option<&str>) -> AppSlot {
    AppSlot {
        slot_id: 7,
        name: None,
        identity: WindowIdentity { class: class.map(str::to_owned), ..Default::default() },
        launch: None,
        group: None,
        placement: Placement::default(),
    }
}

#[test]
fn slots_are_labelled_by_name_class_or_id() {
    let mut slot = unnamed(Some("firefox"));
    assert_eq!(slot.label(), "firefox");
    slot.name = Some("browser".to_owned());
    assert_eq!(slot.label(), "browser");
    assert_eq!(unnamed(None).label(), "00000000-0000-0000-0000-000000000007");
}

#[test]
fn readiness_waits_for_a_window_by_default() {
    assert_eq!(Readiness::default(), Readiness::Window);
    assert_eq!(default_probe_interval(), 500);
}

#[test]
fn wire_format_is_stable() {
    let event = DomainEvent::WindowOpened {
        address: "0xa".into(),
        class: "firefox".into(),
        title: "Rust".into(),
        workspace: "web-dev".into(),
    };
    assert_eq!(event.name(), "window.opened");
    assert_eq!(event.topic(), "windows");
    assert_eq!(DomainEvent::ShuttingDown.name(), "daemon.shutting_down");
    assert_eq!(DomainEvent::ShuttingDown.topic(), "daemon");
    assert_eq!(DomainEvent::ProjectSwitched { slug: None }.topic(), "projects");
}

fn slug(s: &str) -> Slug {
    Slug::parse(s).unwrap()
}

#[test]
fn names_without_prefix() {
    assert_eq!(project_workspace("", &slug("web-dev")), "web-dev");
    assert_eq!(
        group_workspace("", &slug("web-dev"), &slug("backend")),
        "web-dev:backend"
    );
    assert_eq!(dispatch_target("web-dev"), "name:web-dev");
}

#[test]
fn names_with_prefix() {
    assert_eq!(project_workspace("ws:", &slug("ai")), "ws:ai");
    assert_eq!(group_workspace("ws:", &slug("ai"), &slug("nb")), "ws:ai:nb");
}

#[test]
fn parse_round_trips() {
    assert_eq!(parse("", "web-dev"), ParsedName::Project(slug("web-dev")));
    assert_eq!(
        parse("", "web-dev:backend"),
        ParsedName::Group {
            project: slug("web-dev"),
            group: slug("backend")
        }
    );
    assert_eq!(
        parse("ws:", "ws:web-dev"),
        ParsedName::Project(slug("web-dev"))
    );
}

#[test]
fn parse_rejects_foreign() {
    // Wrong prefix, invalid slugs, user-style names.
    assert_eq!(parse("ws:", "web-dev"), ParsedName::Foreign);
    assert_eq!(parse("", "Web Dev"), ParsedName::Foreign);
    assert_eq!(parse("", "special:magic:extra:parts"), ParsedName::Foreign);
    assert_eq!(parse("", ""), ParsedName::Foreign);
}

#[test]
fn rendered_names_parse_back() {
    for prefix in ["", "ws:", "a-b:"] {
        let name = project_workspace(prefix, &slug("web-dev"));
        assert_eq!(parse(prefix, &name), ParsedName::Project(slug("web-dev")));
        let name = group_workspace(prefix, &slug("web-dev"), &slug("api"));
        assert_eq!(
            parse(prefix, &name),
            ParsedName::Group { project: slug("web-dev"), group: slug("api") }
        );
    }
}

#[test]
fn distinct_projects_have_distinct_workspaces() {
    let names = [
        project_workspace("ws:", &slug("a")),
        project_workspace("ws:", &slug("b")),
        group_workspace("ws:", &slug("a"), &slug("b")),
        group_workspace("ws:", &slug("b"), &slug("a")),
    ];
    for (i, a) in names.iter().enumerate() {
        for b in &names[i + 1..] {
            assert_ne!(a, b);
        }
    }
}

#[test]
fn numbered_workspaces_are_foreign() {
    assert_eq!(parse("", "1"), ParsedName::Foreign);
    assert_eq!(parse("1", "12"), ParsedName::Foreign);
    assert_eq!(parse("ws:", "ws:1"), ParsedName::Project(slug("1")));
    assert_eq!(parse("", "1a"), ParsedName::Project(slug("1a")));
}

#[test]
fn special_names_are_foreign() {
    for name in ["special", "special:magic", "special:a:b"] {
        assert_eq!(parse("", name), ParsedName::Foreign);
    }
    assert_eq!(parse("special:", "special:magic"), ParsedName::Foreign);
    assert_eq!(parse("", "specials"), ParsedName::Project(slug("specials")));
    assert_eq!(parse("ws:", "ws:special"), ParsedName::Project(slug("special")));
}

#[test]
fn listings_go_by_position_then_slug() {
    let project = |name: &str, position: u32| {
        let mut project = Project::new(name).unwrap();
        project.position = position;
        project
    };
    let all = vec![project("Zoo", 0), project("Beta", 2), project("Alpha", 2), project("Mid", 1)];
    let order: Vec<&str> = in_listing_order(&all).iter().map(|p| p.slug.as_str()).collect();
    assert_eq!(order, ["zoo", "mid", "alpha", "beta"]);
}
