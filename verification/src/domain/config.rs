//! Daemon configuration schema (`config.toml`) and validation.
//!
//! Validation lives here (pure, no file IO) so the CLI's `doctor` can validate
//! configuration without a running daemon.

use vstd::prelude::*;

use crate::domain::model::Slug;
use crate::domain::model::is_slug_char;
use crate::numbers::render;
use crate::numbers::decimal;
use crate::outside::quote;
use crate::outside::quoted;
use crate::text::{chars, decimal_digit, lowercase_letter};

verus! {

/// Current config file schema version.
pub const CONFIG_VERSION: u32 = 1;

// ---- errors -------------------------------------------------------------------

/// Errors from parsing or validating configuration.
#[derive(Debug)]
pub enum ConfigError {
    /// The TOML failed to parse or deserialize.
    Toml(String),
    /// The file declares a schema version newer than this build understands.
    VersionTooNew {
        /// Version found in the file.
        found: u32,
        /// Newest version this build supports.
        supported: u32,
    },
    /// A field value failed semantic validation.
    Invalid {
        /// Dotted path of the offending field.
        field: &'static str,
        /// What is wrong with it.
        message: String,
    },
}

/// What a [`ConfigError`] holds.
#[verifier::ext_equal]
pub enum ConfigErrorView {
    /// See [`ConfigError::Toml`].
    Toml(Seq<char>),
    /// See [`ConfigError::VersionTooNew`].
    VersionTooNew {
        /// Version found in the file.
        found: u32,
        /// Newest version this build supports.
        supported: u32,
    },
    /// See [`ConfigError::Invalid`].
    Invalid {
        /// Dotted path of the offending field.
        field: Seq<char>,
        /// What is wrong with it.
        message: Seq<char>,
    },
}

impl View for ConfigError {
    type V = ConfigErrorView;

    open spec fn view(&self) -> ConfigErrorView {
        match self {
            ConfigError::Toml(x0) => ConfigErrorView::Toml(x0.deep_view()),
            ConfigError::VersionTooNew { found, supported } => ConfigErrorView::VersionTooNew {
                found: *found,
                supported: *supported,
            },
            ConfigError::Invalid { field, message } => ConfigErrorView::Invalid {
                field: field@,
                message: message.deep_view(),
            },
        }
    }
}

impl DeepView for ConfigError {
    type V = ConfigErrorView;

    open spec fn deep_view(&self) -> ConfigErrorView {
        self.view()
    }
}

impl ConfigErrorView {
    /// The message of the error.
    pub open spec fn message(self) -> Seq<char> {
        match self {
            ConfigErrorView::Toml(error) => "invalid config: "@ + error,
            ConfigErrorView::VersionTooNew { found, supported } => "config version "@ + decimal(
                found as nat,
            ) + " is newer than supported version "@ + decimal(supported as nat)
                + "; refusing to guess"@,
            ConfigErrorView::Invalid { field, message } => "invalid config: "@ + field + ": "@
                + message,
        }
    }
}

impl ConfigError {
    /// The message of the error.
    pub fn message(&self) -> (r: String)
        ensures
            r@ == self@.message(),
    {
        match self {
            ConfigError::Toml(error) => {
                let mut out = "invalid config: ".to_owned();
                out.append(error.as_str());
                out
            },
            ConfigError::VersionTooNew { found, supported } => {
                let mut out = "config version ".to_owned();
                out.append(render(*found as u64).as_str());
                out.append(" is newer than supported version ");
                out.append(render(*supported as u64).as_str());
                out.append("; refusing to guess");
                out
            },
            ConfigError::Invalid { field, message } => {
                let mut out = "invalid config: ".to_owned();
                out.append(field);
                out.append(": ");
                out.append(message.as_str());
                out
            },
        }
    }
}

// ---- the schema -----------------------------------------------------------------

/// What the daemon does when a rule matches a newly opened window.
#[derive(Debug, Clone, Copy, PartialEq, Eq, Structural)]
pub enum RuleAction {
    /// Record the assignment only; leave the window where it is.
    Assign,
    /// Move the window to its project workspace without focusing it.
    Move,
    /// Move the window and focus its project workspace.
    MoveFocus,
}

impl Default for RuleAction {
    fn default() -> (r: Self)
        ensures
            r == RuleAction::Move,
    {
        RuleAction::Move
    }
}

/// `[general]` section.
#[derive(Debug)]
pub struct General {
    /// Prefix prepended to all our Hyprland workspace names (e.g. `"ws:"`).
    pub workspace_prefix: String,
    /// Action taken when a rule matches a new window.
    pub rule_action: RuleAction,
    /// Projects restored automatically shortly after the daemon starts.
    pub restore_on_boot: Vec<Slug>,
}

/// What a [`General`] holds.
#[verifier::ext_equal]
pub struct GeneralView {
    /// See [`General::workspace_prefix`].
    pub workspace_prefix: Seq<char>,
    /// See [`General::rule_action`].
    pub rule_action: RuleAction,
    /// See [`General::restore_on_boot`].
    pub restore_on_boot: Seq<Seq<char>>,
}

impl View for General {
    type V = GeneralView;

    open spec fn view(&self) -> GeneralView {
        GeneralView {
            workspace_prefix: self.workspace_prefix.deep_view(),
            rule_action: self.rule_action,
            restore_on_boot: self.restore_on_boot.deep_view(),
        }
    }
}

impl DeepView for General {
    type V = GeneralView;

    open spec fn deep_view(&self) -> GeneralView {
        self.view()
    }
}

impl Clone for General {
    fn clone(&self) -> (r: Self)
        ensures
            r@ == self@,
    {
        let r = General {
            workspace_prefix: self.workspace_prefix.clone(),
            rule_action: self.rule_action,
            restore_on_boot: self.restore_on_boot.clone(),
        };
        proof {
            assert(r.restore_on_boot.deep_view() =~= self.restore_on_boot.deep_view());
        }
        r
    }
}

/// `[autosave]` section.
#[derive(Debug, Clone, Copy, PartialEq, Eq, Structural)]
pub struct Autosave {
    /// Whether session state is saved automatically.
    pub enabled: bool,
    /// Quiet period after the last relevant event before saving.
    pub debounce_ms: u64,
    /// Upper bound between saves while events keep arriving.
    pub interval_s: u64,
}

/// `[switch]` section.
#[derive(Debug, Clone, Copy, PartialEq, Eq, Structural)]
pub struct Switch {
    /// Move a project's workspace to its preferred monitor before focusing.
    pub move_workspace_to_preferred_monitor: bool,
}

/// `[launcher]` section.
#[derive(Debug, Clone, Copy, PartialEq, Eq, Structural)]
pub struct Launcher {
    /// Default per-slot readiness timeout.
    pub default_timeout_ms: u64,
}

/// `[log]` section.
#[derive(Debug)]
pub struct Log {
    /// Log level filter (overridden by `RUST_LOG`).
    pub level: String,
}

impl Default for General {
    fn default() -> (r: Self)
        ensures
            r@ == (GeneralView {
                workspace_prefix: seq![],
                rule_action: RuleAction::Move,
                restore_on_boot: seq![],
            }),
    {
        let r = General {
            workspace_prefix: String::new(),
            rule_action: RuleAction::Move,
            restore_on_boot: Vec::new(),
        };
        proof {
            assert(r@ =~= GeneralView {
                workspace_prefix: seq![],
                rule_action: RuleAction::Move,
                restore_on_boot: seq![],
            });
        }
        r
    }
}

impl Default for Autosave {
    fn default() -> (r: Self)
        ensures
            r == (Autosave { enabled: true, debounce_ms: 2000, interval_s: 60 }),
    {
        Autosave { enabled: true, debounce_ms: 2000, interval_s: 60 }
    }
}

impl Default for Switch {
    fn default() -> (r: Self)
        ensures
            r == (Switch { move_workspace_to_preferred_monitor: true }),
    {
        Switch { move_workspace_to_preferred_monitor: true }
    }
}

impl Default for Launcher {
    fn default() -> (r: Self)
        ensures
            r == (Launcher { default_timeout_ms: 15_000 }),
    {
        Launcher { default_timeout_ms: 15_000 }
    }
}

impl Default for Log {
    fn default() -> (r: Self)
        ensures
            r.level@ == "info"@,
    {
        Log { level: "info".to_owned() }
    }
}

/// Top-level daemon configuration (`~/.config/omarchy-workspaces/config.toml`).
#[derive(Debug)]
pub struct Config {
    /// Schema version; defaults to [`CONFIG_VERSION`] when absent.
    pub version: Option<u32>,
    /// General behavior.
    pub general: General,
    /// Autosave behavior.
    pub autosave: Autosave,
    /// Project-switching behavior.
    pub switch: Switch,
    /// Launcher defaults.
    pub launcher: Launcher,
    /// Logging.
    pub log: Log,
}

/// What a [`Config`] holds.
#[verifier::ext_equal]
pub struct ConfigView {
    /// See [`Config::version`].
    pub version: Option<u32>,
    /// See [`Config::general`].
    pub general: GeneralView,
    /// See [`Config::autosave`].
    pub autosave: Autosave,
    /// See [`Config::switch`].
    pub switch: Switch,
    /// See [`Config::launcher`].
    pub launcher: Launcher,
    /// The log level of [`Config::log`].
    pub log_level: Seq<char>,
}

impl View for Config {
    type V = ConfigView;

    open spec fn view(&self) -> ConfigView {
        ConfigView {
            version: self.version,
            general: self.general@,
            autosave: self.autosave,
            switch: self.switch,
            launcher: self.launcher,
            log_level: self.log.level@,
        }
    }
}

impl ConfigView {
    /// The configuration of an empty file.
    pub open spec fn standard() -> ConfigView {
        ConfigView {
            version: None,
            general: GeneralView {
                workspace_prefix: seq![],
                rule_action: RuleAction::Move,
                restore_on_boot: seq![],
            },
            autosave: Autosave { enabled: true, debounce_ms: 2000, interval_s: 60 },
            switch: Switch { move_workspace_to_preferred_monitor: true },
            launcher: Launcher { default_timeout_ms: 15_000 },
            log_level: "info"@,
        }
    }
}

impl Default for Config {
    fn default() -> (r: Self)
        ensures
            r@ == ConfigView::standard(),
    {
        Config {
            version: None,
            general: General::default(),
            autosave: Autosave::default(),
            switch: Switch::default(),
            launcher: Launcher::default(),
            log: Log::default(),
        }
    }
}

// ---- validation -----------------------------------------------------------------

/// A prefix that may stand before workspace names.
pub open spec fn is_prefix(prefix: Seq<char>) -> bool {
    forall|i: int|
        0 <= i < prefix.len() ==> is_slug_char(#[trigger] prefix[i]) || prefix[i] == ':'
}

/// What is wrong with a configuration, if anything.
pub open spec fn config_problem(config: ConfigView) -> Option<ConfigErrorView> {
    let version = match config.version {
        Some(version) => version,
        None => CONFIG_VERSION,
    };
    if version > CONFIG_VERSION {
        Some(ConfigErrorView::VersionTooNew { found: version, supported: CONFIG_VERSION })
    } else if !is_prefix(config.general.workspace_prefix) {
        Some(
            ConfigErrorView::Invalid {
                field: "general.workspace_prefix"@,
                message: quoted(config.general.workspace_prefix)
                    + " may only contain [a-z0-9-] and ':'"@,
            },
        )
    } else if config.autosave.enabled && config.autosave.interval_s == 0 {
        Some(
            ConfigErrorView::Invalid {
                field: "autosave.interval_s"@,
                message: "must be greater than 0 when autosave is enabled"@,
            },
        )
    } else if config.launcher.default_timeout_ms == 0 {
        Some(
            ConfigErrorView::Invalid {
                field: "launcher.default_timeout_ms"@,
                message: "must be greater than 0"@,
            },
        )
    } else {
        None
    }
}

impl Config {
    /// Semantic validation beyond what the schema enforces.
    pub fn validate(&self) -> (r: Result<(), ConfigError>)
        ensures
            match r {
                Ok(_) => config_problem(self@) is None,
                Err(error) => config_problem(self@) == Some(error@),
            },
    {
        let version: u32 = match self.version {
            Some(version) => version,
            None => CONFIG_VERSION,
        };
        if version > CONFIG_VERSION {
            return Err(ConfigError::VersionTooNew { found: version, supported: CONFIG_VERSION });
        }
        let prefix = chars(self.general.workspace_prefix.as_str());
        let mut i: usize = 0;
        while i < prefix.len()
            invariant
                i <= prefix.len(),
                prefix@ == self.general.workspace_prefix@,
                version <= CONFIG_VERSION,
                version == (match self.version {
                    Some(version) => version,
                    None => CONFIG_VERSION,
                }),
                forall|k: int|
                    0 <= k < i ==> is_slug_char(#[trigger] prefix@[k]) || prefix@[k] == ':',
            decreases prefix.len() - i,
        {
            let c = prefix[i];
            if !(lowercase_letter(c) || decimal_digit(c) || c == '-' || c == ':') {
                assert(!is_slug_char(prefix@[i as int]) && prefix@[i as int] != ':');
                let mut message = quote(self.general.workspace_prefix.as_str());
                message.append(" may only contain [a-z0-9-] and ':'");
                return Err(ConfigError::Invalid { field: "general.workspace_prefix", message });
            }
            i = i + 1;
        }
        if self.autosave.enabled && self.autosave.interval_s == 0 {
            return Err(
                ConfigError::Invalid {
                    field: "autosave.interval_s",
                    message: "must be greater than 0 when autosave is enabled".to_owned(),
                },
            );
        }
        if self.launcher.default_timeout_ms == 0 {
            return Err(
                ConfigError::Invalid {
                    field: "launcher.default_timeout_ms",
                    message: "must be greater than 0".to_owned(),
                },
            );
        }
        Ok(())
    }
}

/// The configuration of an empty file is valid.
pub proof fn law_standard_config_is_valid()
    ensures
        config_problem(ConfigView::standard()) is None,
{
}

/// A configuration is valid exactly if its version is known, its workspace
/// prefix is made of lower-case letters, digits, hyphens and colons, autosave
/// has an interval where it is on, and launches have a timeout.
pub proof fn law_valid_configurations(config: ConfigView)
    ensures
        config_problem(config) is None <==> {
            &&& config.version is Some ==> config.version->0 <= 1
            &&& forall|i: int|
                0 <= i < config.general.workspace_prefix.len() ==> {
                    let c = #[trigger] config.general.workspace_prefix[i];
                    'a' <= c <= 'z' || '0' <= c <= '9' || c == '-' || c == ':'
                }
            &&& config.autosave.enabled ==> config.autosave.interval_s > 0
            &&& config.launcher.default_timeout_ms > 0
        },
{
    if exists|i: int|
        0 <= i < config.general.workspace_prefix.len() && !({
            let c = #[trigger] config.general.workspace_prefix[i];
            'a' <= c <= 'z' || '0' <= c <= '9' || c == '-' || c == ':'
        }) {
        let i = choose|i: int|
            0 <= i < config.general.workspace_prefix.len() && !({
                let c = #[trigger] config.general.workspace_prefix[i];
                'a' <= c <= 'z' || '0' <= c <= '9' || c == '-' || c == ':'
            });
        assert(!is_slug_char(config.general.workspace_prefix[i]));
    }
}

/// What a file does not say is as follows: no prefix, rules move windows,
/// nothing is restored on boot, autosave after two quiet seconds and at least
/// once a minute, workspaces go to their monitors, launches time out after
/// fifteen seconds.
pub proof fn law_standard_settings()
    ensures
        ({
            let config = ConfigView::standard();
            &&& config.version is None
            &&& config.general.workspace_prefix.len() == 0
            &&& config.general.rule_action == RuleAction::Move
            &&& config.general.restore_on_boot.len() == 0
            &&& config.autosave.enabled
            &&& config.autosave.debounce_ms == 2000
            &&& config.autosave.interval_s == 60
            &&& config.switch.move_workspace_to_preferred_monitor
            &&& config.launcher.default_timeout_ms == 15000
            &&& config.log_level == "info"@
        }),
{
}

} // verus!
