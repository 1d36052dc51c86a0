//! Window rules: matching, precedence and the errors of a bad file.

use omarchy_workspaces::domain::rules::{
    MatcherRegistry, MatcherSpec, Operator, RuleError, RuleSet, RuleSpec, RulesFile,
};
use omarchy_workspaces::domain::world::WindowFacts;

fn facts(class: &str, title: &str) -> WindowFacts {
    WindowFacts {
        class: class.to_owned(),
        initial_class: class.to_owned(),
        title: title.to_owned(),
        executable: Some(format!("/usr/bin/{}", class.to_lowercase())),
        ..Default::default()
    }
}

fn text(table: &toml::Table, key: &str) -> Option<String> {
    table.get(key)?.as_str().map(str::to_owned)
}

/// Reads a rules text into the library's type.
fn read(source: &str) -> RulesFile {
    let table: toml::Table = source.parse().unwrap();
    let mut rules = Vec::new();
    if let Some(entries) = table.get("rules").and_then(|v| v.as_array()) {
        for entry in entries {
            let rule = entry.as_table().unwrap();
            let mut matchers = Vec::new();
            if let Some(specs) = rule.get("match").and_then(|v| v.as_table()) {
                for (key, spec) in specs {
                    let spec = spec.as_table().unwrap();
                    matchers.push((
                        key.clone(),
                        MatcherSpec {
                            equals: text(spec, "equals"),
                            contains: text(spec, "contains"),
                            regex: text(spec, "regex"),
                            case_sensitive: spec
                                .get("case_sensitive")
                                .and_then(|v| v.as_bool())
                                .unwrap_or(false),
                        },
                    ));
                }
            }
            matchers.sort_by(|a, b| a.0.cmp(&b.0));
            rules.push(RuleSpec {
                name: text(rule, "name").unwrap(),
                priority: rule.get("priority").and_then(|v| v.as_integer()).unwrap_or(0) as i32,
                project: text(rule, "project").unwrap(),
                group: text(rule, "group"),
                stop: rule.get("stop").and_then(|v| v.as_bool()).unwrap_or(true),
                matchers,
            });
        }
    }
    RulesFile { version: None, rules }
}

fn parse(source: &str) -> RuleSet {
    match RuleSet::compile(&read(source), &MatcherRegistry::builtin()) {
        Ok(rules) => rules,
        Err(errors) => panic!("{errors:?}"),
    }
}

#[test]
fn matches_by_class_case_insensitive_by_default() {
    let rules = parse(
        r#"
        [[rules]]
        name = "ff"
        project = "research"
        [rules.match]
        class = { equals = "Firefox" }
        "#,
    );
    assert_eq!(rules.matches(&facts("firefox", "x"))[0].name, "ff");
    assert!(rules.matches(&facts("chromium", "x")).is_empty());
}

#[test]
fn case_sensitive_and_contains_and_regex() {
    let rules = parse(
        r#"
        [[rules]]
        name = "exact"
        project = "a"
        [rules.match]
        class = { equals = "Code", case_sensitive = true }

        [[rules]]
        name = "yt"
        project = "fun"
        [rules.match]
        title = { contains = "youtube" }

        [[rules]]
        name = "exe"
        project = "dev"
        [rules.match]
        executable = { regex = ".*/code$" }
        "#,
    );
    assert!(rules
        .matches(&facts("code", "x"))
        .iter()
        .all(|r| r.name != "exact"));
    assert_eq!(rules.matches(&facts("Code", "x"))[0].name, "exact");
    assert_eq!(rules.matches(&facts("mpv", "Cats — YouTube"))[0].name, "yt");
    let mut dev = facts("x", "y");
    dev.executable = Some("/usr/lib/code".into());
    assert_eq!(rules.matches(&dev)[0].name, "exe");
}

#[test]
fn matchers_are_anded() {
    let rules = parse(
        r#"
        [[rules]]
        name = "both"
        project = "p"
        [rules.match]
        class = { equals = "firefox" }
        title = { contains = "GitHub" }
        "#,
    );
    assert!(rules.matches(&facts("firefox", "GitHub — PR")).len() == 1);
    assert!(rules.matches(&facts("firefox", "YouTube")).is_empty());
}

#[test]
fn priority_and_stop_semantics() {
    let rules = parse(
        r#"
        [[rules]]
        name = "low"
        priority = 1
        project = "a"
        [rules.match]
        class = { equals = "kitty" }

        [[rules]]
        name = "tag"
        priority = 10
        project = "b"
        stop = false
        [rules.match]
        class = { equals = "kitty" }

        [[rules]]
        name = "high"
        priority = 5
        project = "c"
        [rules.match]
        class = { equals = "kitty" }
        "#,
    );
    // tag (10, non-stop) matches first, then high (5, stop) ends it;
    // low (1) is never reached.
    let matched: Vec<_> = rules
        .matches(&facts("kitty", "x"))
        .iter()
        .map(|r| r.name.clone())
        .collect();
    assert_eq!(matched, ["tag", "high"]);
}

#[test]
fn all_errors_are_collected_and_named() {
    let file = read(
        r#"
        [[rules]]
        name = "dup"
        project = "p"
        [rules.match]
        class = { equals = "a" }

        [[rules]]
        name = "dup"
        project = "p"
        [rules.match]
        class = { equals = "a" }

        [[rules]]
        name = "unknown-key"
        project = "p"
        [rules.match]
        wm_role = { equals = "x" }

        [[rules]]
        name = "two-ops"
        project = "p"
        [rules.match]
        class = { equals = "a", contains = "b" }

        [[rules]]
        name = "bad-regex"
        project = "p"
        [rules.match]
        title = { regex = "(" }

        [[rules]]
        name = "empty"
        project = "p"

        [[rules]]
        name = "bad-slug"
        project = "Not A Slug"
        [rules.match]
        class = { equals = "a" }
        "#,
    );
    let err = match RuleSet::compile(&file, &MatcherRegistry::builtin()) {
        Ok(_) => panic!("the file is refused"),
        Err(errors) => errors,
    };
    let messages: Vec<String> = err.iter().map(|e| e.message()).collect();
    assert_eq!(messages.len(), 6, "{messages:#?}");
    assert!(messages.iter().any(|m| m.contains("duplicate rule name")));
    assert!(messages
        .iter()
        .any(|m| m.contains("unknown matcher \"wm_role\"")));
    assert!(messages.iter().any(|m| m.contains("exactly one of")));
    assert!(messages.iter().any(|m| m.contains("invalid regex")));
    assert!(messages.iter().any(|m| m.contains("empty [rules.match]")));
    assert!(messages.iter().any(|m| m.contains("invalid slug")));
}

#[test]
fn empty_file_is_valid() {
    let rules = parse("");
    assert!(rules.is_empty());
    assert!(rules.matches(&facts("a", "b")).is_empty());
}

#[test]
fn equal_priorities_keep_the_order_of_the_file() {
    let rules = parse(
        r#"
        [[rules]]
        name = "first"
        project = "a"
        stop = false
        [rules.match]
        class = { equals = "kitty" }

        [[rules]]
        name = "second"
        project = "b"
        [rules.match]
        class = { equals = "kitty" }
        "#,
    );
    let matched: Vec<_> =
        rules.matches(&facts("kitty", "x")).iter().map(|r| r.name.clone()).collect();
    assert_eq!(matched, ["first", "second"]);
    assert_eq!(rules.len(), 2);
}

#[test]
fn lowercase_comparison_goes_beyond_ascii() {
    let contains = MatcherSpec { contains: Some("ÉCRAN".into()), ..Default::default() };
    let op = Operator::from_spec("r", "title", &contains).unwrap();
    assert!(op.matches("grand écran"));
    assert!(!op.matches("ecran"));
}

#[test]
fn expressions_match_anywhere_and_mind_case() {
    let spec = MatcherSpec { regex: Some("Docs$".into()), ..Default::default() };
    let op = Operator::from_spec("r", "title", &spec).unwrap();
    assert!(op.matches("All Docs"));
    assert!(!op.matches("all docs"));
    assert!(!op.matches("Docs page"));
}

#[test]
fn operators_report_their_errors() {
    let none = MatcherSpec::default();
    assert!(matches!(Operator::from_spec("r", "class", &none), Err(RuleError::BadOperator { .. })));
    let bad = MatcherSpec { regex: Some("(".into()), ..Default::default() };
    match Operator::from_spec("r", "class", &bad) {
        Err(RuleError::BadRegex { rule, key, source }) => {
            assert_eq!((rule.as_str(), key.as_str()), ("r", "class"));
            assert!(!source.is_empty());
        }
        other => panic!("{other:?}"),
    }
    match Operator::from_checked_spec("r", "class", &bad, Some("unclosed".into())) {
        Err(RuleError::BadRegex { source, .. }) => assert_eq!(source, "unclosed"),
        other => panic!("{other:?}"),
    }
}

#[test]
fn equality_ignores_case_beyond_ascii() {
    let equals = MatcherSpec { equals: Some("CAFÉ".into()), ..Default::default() };
    let op = Operator::from_spec("r", "title", &equals).unwrap();
    assert!(op.matches("café"));
    assert!(!op.matches("cafe"));
    let exact = MatcherSpec { case_sensitive: true, ..equals };
    assert!(!Operator::from_spec("r", "title", &exact).unwrap().matches("café"));
}

#[test]
fn one_rule_may_have_many_problems() {
    let file = read(
        r#"
        [[rules]]
        name = "r"
        project = "p"
        [rules.match]
        class = { equals = "a" }

        [[rules]]
        name = "r"
        project = "Not A Slug"
        group = "Nor This"
        [rules.match]
        wm_role = { equals = "x" }
        title = { regex = "(" }
        "#,
    );
    let errors = RuleSet::compile(&file, &MatcherRegistry::builtin()).err().unwrap();
    assert_eq!(errors.len(), 5, "{errors:?}");
    assert!(matches!(errors[0], RuleError::DuplicateName { .. }));
    assert!(matches!(errors[1], RuleError::BadSlug { .. }));
    assert!(matches!(errors[2], RuleError::BadSlug { .. }));
    assert!(errors.iter().any(|e| matches!(e, RuleError::UnknownMatcher { key, .. } if key == "wm_role")));
    assert!(errors.iter().any(|e| matches!(e, RuleError::BadRegex { key, .. } if key == "title")));
}

#[test]
fn a_rule_keeps_one_matcher_for_each_in_the_file() {
    let rules = parse(
        r#"
        [[rules]]
        name = "two"
        project = "p"
        [rules.match]
        class = { equals = "kitty" }
        title = { contains = "vim" }
        "#,
    );
    assert_eq!(rules.matches(&facts("kitty", "vim"))[0].matchers.len(), 2);
}
