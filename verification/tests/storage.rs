//! Where things are kept and which files are refused.

use omarchy_workspaces::domain::model::{Project, ProjectId, Slug};
use omarchy_workspaces::storage::locations::{
    config_dir, config_file, daemon_socket, rules_file, runtime_dir, state_dir,
};
use omarchy_workspaces::storage::migrations::migrate_project;
use omarchy_workspaces::storage::projects::{
    check_file, check_version, gather, is_project_file, project_file, project_path, projects_dir,
    StorageError, PROJECT_VERSION,
};
use omarchy_workspaces::storage::runtime::{
    recovered, runtime_path, RuntimeAssignment, RuntimeState,
};

#[test]
fn directories_follow_the_environment() {
    assert_eq!(
        config_dir(None, Some("/home/me")).as_deref(),
        Some("/home/me/.config/omarchy-workspaces")
    );
    assert_eq!(
        config_dir(Some("/etc/xdg"), Some("/home/me")).as_deref(),
        Some("/etc/xdg/omarchy-workspaces")
    );
    assert_eq!(config_dir(None, None), None);
    assert_eq!(
        state_dir(None, Some("/home/me")).as_deref(),
        Some("/home/me/.local/state/omarchy-workspaces")
    );
    assert_eq!(runtime_dir(Some("/run/user/1")).as_deref(), Some("/run/user/1/omarchy-workspaces"));
    assert_eq!(
        daemon_socket(Some("/run/user/1")).as_deref(),
        Some("/run/user/1/omarchy-workspaces/daemon.sock")
    );
    assert_eq!(daemon_socket(None), None);
    assert_eq!(
        config_file(Some("/c"), None).as_deref(),
        Some("/c/omarchy-workspaces/config.toml")
    );
    assert_eq!(rules_file(Some("/c"), None).as_deref(), Some("/c/omarchy-workspaces/rules.toml"));
}

#[test]
fn newer_version_is_refused_but_others_load() {
    let good = Project::new("Good").unwrap();
    let future = "version = 99\n[project]\nslug = \"future\"\n";
    let refused = check_file("future.toml", future).unwrap_err();
    let invalid = check_file("broken.toml", "not toml [").unwrap_err();
    assert!(matches!(&invalid, StorageError::Invalid { path, message }
        if path == "broken.toml" && !message.is_empty()));

    let (loaded, errors) = gather(&vec![Ok(good), Err(refused), Err(invalid)]);
    assert_eq!(loaded.len(), 1);
    assert_eq!(errors.len(), 2);
    assert!(errors
        .iter()
        .any(|e| matches!(e, StorageError::VersionTooNew { found: 99, .. })));
}

#[test]
fn known_versions_pass() {
    assert_eq!(check_version("a.toml", Some(1)), Ok(1));
    assert_eq!(check_version("a.toml", None), Ok(1));
    assert_eq!(check_version("a.toml", Some(-1)), Ok(0));
    assert_eq!(
        check_version("a.toml", Some(4_294_967_297)),
        Err(StorageError::VersionTooNew { path: "a.toml".into(), found: u32::MAX, supported: 1 })
    );
    assert!(migrate_project(Vec::new(), PROJECT_VERSION).unwrap().is_empty());
    assert!(migrate_project(Vec::new(), 0).is_err());
}

#[test]
fn the_declared_version_decides() {
    assert!(check_file("a.toml", "version = 1\n[project]\n").is_ok());
    assert!(check_file("a.toml", "name = \"no version\"\n").is_ok());
    assert!(check_file("a.toml", "version = \"2\"\n").is_ok());
    assert_eq!(
        check_file("a.toml", "version = 2\n").unwrap_err(),
        StorageError::VersionTooNew { path: "a.toml".into(), found: 2, supported: 1 }
    );
    assert_eq!(
        check_file("a.toml", "version = 0\n").unwrap_err(),
        StorageError::Invalid {
            path: String::new(),
            message: "no migration registered for project schema v0".into(),
        }
    );
}

#[test]
fn project_files_are_named_after_the_slug() {
    let slug = Slug::parse("web-dev").unwrap();
    assert_eq!(projects_dir("/s"), "/s/projects");
    assert_eq!(project_path("/s", &slug), "/s/projects/web-dev.toml");
    assert!(is_project_file("web-dev.toml"));
    assert!(!is_project_file("web-dev.toml.tmp"));
    assert!(!is_project_file("notes.txt"));
    let file = project_file(&Project::new("Web Dev").unwrap());
    assert_eq!(file.version, PROJECT_VERSION);
    assert_eq!(file.project.slug, slug);
}

#[test]
fn projects_load_by_slug() {
    let projects: Vec<Project> = ["C", "A", "B"]
        .iter()
        .enumerate()
        .map(|(i, name)| Project::with_id(ProjectId(i as u128), name).unwrap())
        .collect();
    let (loaded, errors) = gather(&projects.into_iter().map(Ok).collect());
    assert!(errors.is_empty());
    let names: Vec<&str> = loaded.iter().map(|p| p.name.as_str()).collect();
    assert_eq!(names, ["A", "B", "C"]);
}

#[test]
fn unreadable_state_is_the_empty_state() {
    assert_eq!(runtime_path("/s"), "/s/runtime.json");
    let empty = recovered(None);
    assert_eq!(empty, RuntimeState { active_project: None, assignments: vec![] });
    let state = RuntimeState {
        active_project: Some(Slug::parse("web-dev").unwrap()),
        assignments: vec![(
            "stable123".into(),
            RuntimeAssignment {
                project: Slug::parse("web-dev").unwrap(),
                group: None,
                source: "manual".into(),
            },
        )],
    };
    let kept = recovered(Some(state));
    assert_eq!(kept.assignments[0].0, "stable123");
}

#[test]
fn storage_errors_have_messages() {
    let invalid = StorageError::Invalid { path: "a.toml".into(), message: "no".into() };
    assert_eq!(invalid.message(), "a.toml: no");
    let newer = StorageError::VersionTooNew { path: "a.toml".into(), found: 9, supported: 1 };
    assert_eq!(newer.message(), "a.toml: written by a newer build (version 9, supported 1)");
    assert_eq!(StorageError::Io("gone".into()).message(), "gone");
}
