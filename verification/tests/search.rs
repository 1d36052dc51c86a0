//! Finding a project by slug, prefix or fuzzy query.

use omarchy_workspaces::domain::model::Project;
use omarchy_workspaces::domain::search::{
    resolvable, resolve, resolve_scored, searchable, Resolution,
};

fn projects() -> Vec<Project> {
    [
        "Web Development",
        "Machine Learning",
        "Gaming",
        "Web Design",
    ]
    .iter()
    .map(|name| Project::new(name).unwrap())
    .collect()
}

#[test]
fn exact_slug_wins() {
    let projects = projects();
    match resolve("gaming", &projects) {
        Resolution::Match(p) => assert_eq!(p.slug.as_str(), "gaming"),
        other => panic!("{other:?}"),
    }
}

#[test]
fn unique_prefix_wins() {
    let projects = projects();
    match resolve("mach", &projects) {
        Resolution::Match(p) => assert_eq!(p.slug.as_str(), "machine-learning"),
        other => panic!("{other:?}"),
    }
}

#[test]
fn shared_prefix_is_ambiguous() {
    let projects = projects();
    match resolve("web", &projects) {
        Resolution::Ambiguous(candidates) => assert_eq!(candidates.len(), 2),
        other => panic!("{other:?}"),
    }
}

#[test]
fn fuzzy_match_on_display_name() {
    let projects = projects();
    // "learning" is not a slug prefix but fuzzily identifies ML.
    match resolve("learning", &projects) {
        Resolution::Match(p) => assert_eq!(p.slug.as_str(), "machine-learning"),
        other => panic!("{other:?}"),
    }
}

#[test]
fn garbage_is_not_found() {
    let projects = projects();
    assert_eq!(resolve("zzzqqq", &projects), Resolution::NotFound);
    assert_eq!(resolve("x", &[]), Resolution::NotFound);
}

fn scored(scores: [Option<u32>; 4]) -> Vec<String> {
    let projects = projects();
    match resolve_scored("?", &projects, &scores.to_vec()) {
        Resolution::Match(p) => vec![p.slug.as_str().to_owned()],
        Resolution::Ambiguous(all) => all.iter().map(|p| p.slug.as_str().to_owned()).collect(),
        Resolution::NotFound => vec![],
    }
}

#[test]
fn a_clear_lead_wins_and_a_narrow_one_does_not() {
    assert_eq!(scored([None, Some(90), Some(60), None]), ["machine-learning"]);
    assert_eq!(scored([None, Some(89), Some(60), None]), ["machine-learning", "gaming"]);
    assert_eq!(scored([None, None, None, Some(5)]), ["web-design"]);
    assert!(scored([None, None, None, None]).is_empty());
}

#[test]
fn ordinary_queries_are_searchable() {
    assert!(searchable("learning", &projects()));
    assert!(searchable("", &[]));
}

#[test]
fn ties_are_not_guessed() {
    assert_eq!(scored([Some(0), Some(0), None, None]), ["web-development", "machine-learning"]);
    assert_eq!(scored([None, Some(1), Some(0), None]), ["machine-learning"]);
    // A blank query and one that excludes nothing fit every project alike.
    let projects = projects();
    assert!(matches!(resolve(" ", &projects), Resolution::Ambiguous(all) if all.len() == 4));
    assert!(matches!(resolve("!zzz", &projects), Resolution::Ambiguous(all) if all.len() == 4));
}

#[test]
fn slugs_decide_queries_of_any_size() {
    let mut long = Project::new("x").unwrap();
    let text = "a".repeat(2000);
    long.slug = omarchy_workspaces::domain::model::Slug::parse(&text).unwrap();
    let all = [long];
    assert!(!searchable(&text, &all));
    assert!(resolvable(&text, &all));
    assert!(matches!(resolve(&text, &all), Resolution::Match(_)));
    assert!(!resolvable(&"b".repeat(2000), &all));
}

#[test]
fn odd_letters_are_searched_in_plain_queries() {
    let straight = [Project::new("Alte Straſse").unwrap()];
    assert!(searchable("strasse", &straight));
    assert!(!searchable("straße", &straight));
    assert!(matches!(resolve("asse", &straight), Resolution::Match(_)));
}
