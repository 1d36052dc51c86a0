//! The daemon configuration: what a file means and which values are refused.

use omarchy_workspaces::domain::config::{
    Autosave, Config, ConfigError, General, Launcher, Log, RuleAction, Switch, CONFIG_VERSION,
};
use omarchy_workspaces::domain::model::Slug;

fn section<'a>(table: &'a toml::Table, name: &str) -> Option<&'a toml::Table> {
    table.get(name).and_then(|value| value.as_table())
}

fn text(table: Option<&toml::Table>, key: &str) -> Option<String> {
    table?.get(key)?.as_str().map(str::to_owned)
}

fn flag(table: Option<&toml::Table>, key: &str) -> Option<bool> {
    table?.get(key)?.as_bool()
}

fn number(table: Option<&toml::Table>, key: &str) -> Option<u64> {
    table?.get(key)?.as_integer().map(|n| n as u64)
}

/// Reads a configuration text into the library's type and validates it.
fn parse(source: &str) -> Result<Config, ConfigError> {
    let table: toml::Table = source.parse().map_err(|e: toml::de::Error| ConfigError::Toml(e.to_string()))?;
    let general = section(&table, "general");
    let autosave = section(&table, "autosave");
    let mut restore_on_boot = Vec::new();
    if let Some(slugs) = general.and_then(|g| g.get("restore_on_boot")).and_then(|v| v.as_array()) {
        for slug in slugs {
            match Slug::parse(slug.as_str().unwrap()) {
                Ok(slug) => restore_on_boot.push(slug),
                Err(error) => return Err(ConfigError::Toml(error.message())),
            }
        }
    }
    let standard = Config::default();
    let config = Config {
        version: table.get("version").and_then(|v| v.as_integer()).map(|n| n as u32),
        general: General {
            workspace_prefix: text(general, "workspace_prefix").unwrap_or(standard.general.workspace_prefix),
            rule_action: match text(general, "rule_action").as_deref() {
                Some("assign") => RuleAction::Assign,
                Some("move-focus") => RuleAction::MoveFocus,
                _ => RuleAction::Move,
            },
            restore_on_boot,
        },
        autosave: Autosave {
            enabled: flag(autosave, "enabled").unwrap_or(standard.autosave.enabled),
            debounce_ms: number(autosave, "debounce_ms").unwrap_or(standard.autosave.debounce_ms),
            interval_s: number(autosave, "interval_s").unwrap_or(standard.autosave.interval_s),
        },
        switch: Switch {
            move_workspace_to_preferred_monitor: flag(
                section(&table, "switch"),
                "move_workspace_to_preferred_monitor",
            )
            .unwrap_or(standard.switch.move_workspace_to_preferred_monitor),
        },
        launcher: Launcher {
            default_timeout_ms: number(section(&table, "launcher"), "default_timeout_ms")
                .unwrap_or(standard.launcher.default_timeout_ms),
        },
        log: Log { level: text(section(&table, "log"), "level").unwrap_or(standard.log.level) },
    };
    config.validate()?;
    Ok(config)
}

#[test]
fn empty_config_is_defaults() {
    let c = parse("").unwrap();
    assert_eq!(c.general.workspace_prefix, "");
    assert_eq!(c.general.rule_action, RuleAction::Move);
    assert!(c.autosave.enabled);
    assert_eq!(c.autosave.debounce_ms, 2000);
    assert_eq!(c.launcher.default_timeout_ms, 15_000);
    assert!(c.switch.move_workspace_to_preferred_monitor);
}

#[test]
fn full_config_parses() {
    let c = parse(
        r#"
        version = 1
        [general]
        workspace_prefix = "ws:"
        rule_action = "move-focus"
        restore_on_boot = ["web-dev", "ml"]
        [autosave]
        enabled = false
        debounce_ms = 500
        interval_s = 30
        [switch]
        move_workspace_to_preferred_monitor = false
        [launcher]
        default_timeout_ms = 5000
        [log]
        level = "debug"
        "#,
    )
    .unwrap();
    assert_eq!(c.general.workspace_prefix, "ws:");
    assert_eq!(c.general.rule_action, RuleAction::MoveFocus);
    assert_eq!(c.general.restore_on_boot.len(), 2);
    assert_eq!(c.log.level, "debug");
}

#[test]
fn newer_version_is_refused() {
    let err = parse("version = 99").unwrap_err();
    assert!(matches!(
        err,
        ConfigError::VersionTooNew {
            found: 99,
            supported: CONFIG_VERSION
        }
    ));
}

#[test]
fn invalid_values_are_named() {
    let err = parse("[general]\nworkspace_prefix = \"WS \"").unwrap_err();
    assert!(err.message().contains("general.workspace_prefix"));

    let err = parse("[launcher]\ndefault_timeout_ms = 0").unwrap_err();
    assert!(err.message().contains("launcher.default_timeout_ms"));

    let err = parse("[general]\nrestore_on_boot = [\"Not A Slug\"]").unwrap_err();
    assert!(err.message().contains("invalid slug"));
}

#[test]
fn unknown_fields_are_tolerated() {
    // Forward compatibility: an older daemon must not choke on new keys.
    let c = parse("[general]\nfuture_option = true").unwrap();
    assert_eq!(c.general.workspace_prefix, "");
}

#[test]
fn zero_interval_is_refused_only_while_autosave_is_on() {
    let err = parse("[autosave]\ninterval_s = 0").unwrap_err();
    match err {
        ConfigError::Invalid { field, message } => {
            assert_eq!(field, "autosave.interval_s");
            assert_eq!(message, "must be greater than 0 when autosave is enabled");
        }
        other => panic!("{other:?}"),
    }
    assert!(parse("[autosave]\nenabled = false\ninterval_s = 0").is_ok());
}

#[test]
fn a_bad_prefix_is_quoted_in_the_message() {
    match parse("[general]\nworkspace_prefix = \"WS \"").unwrap_err() {
        ConfigError::Invalid { message, .. } => {
            assert_eq!(message, "\"WS \" may only contain [a-z0-9-] and ':'");
        }
        other => panic!("{other:?}"),
    }
}

#[test]
fn standard_config_is_valid() {
    let c = Config::default();
    assert!(c.validate().is_ok());
    assert_eq!(c.autosave.interval_s, 60);
    assert_eq!(c.log.level, "info");
}

#[test]
fn ill_formed_text_is_an_error() {
    assert!(matches!(parse("not toml ["), Err(ConfigError::Toml(_))));
}
