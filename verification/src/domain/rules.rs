//! The rules engine: declarative auto-assignment of windows to projects.
//!
//! Rules live in `rules.toml`:
//!
//! ```toml
//! [[rules]]
//! name = "firefox-research"     # required, unique
//! priority = 50                 # higher evaluates first; ties keep file order
//! project = "research"          # target project slug
//! group = "browsing"            # optional group slug
//! stop = true                   # default: first match wins
//!
//! [rules.match]                 # all present matchers are ANDed
//! class = { equals = "firefox" }
//! title = { contains = "YouTube" }
//! executable = { regex = ".*/firefox$" }
//! ```
//!
//! Operators are `equals` (case-insensitive unless `case_sensitive = true`),
//! `contains` (same), and `regex`. Matcher keys are provided by a
//! [`MatcherRegistry`]; the built-ins are `class`, `initial_class`, `title`,
//! and `executable`, and plugins can add more — a rule referencing an
//! unregistered key fails validation loudly rather than silently never
//! matching.

use vstd::prelude::*;

use crate::domain::model::{ModelError, Slug};
use crate::domain::model::{is_slug, ModelErrorView};
use crate::domain::world::WindowFacts;
use crate::domain::world::WindowFactsView;
use crate::outside::{quote, regex_error, regex_matches, to_lowercase};
use crate::outside::{quoted, regex_failure, regex_search, unicode_lowercase};
use crate::pieces::join;
use crate::pieces::joined;
use crate::text::{comes_before, contains, same};
use crate::text::{holds, precedes};

verus! {

// ---- errors -------------------------------------------------------------------

/// Errors from parsing or compiling rules. Each names the offending rule.
#[derive(Debug)]
#[allow(inconsistent_fields)]
pub enum RuleError {
    /// The TOML failed to parse.
    Toml(String),
    /// Two rules share a name.
    DuplicateName {
        /// The duplicated name.
        name: String,
    },
    /// A rule has no matchers at all.
    NoMatchers {
        /// The rule name.
        rule: String,
    },
    /// A rule references a matcher key no registered matcher provides.
    UnknownMatcher {
        /// The rule name.
        rule: String,
        /// The unknown key.
        key: String,
        /// Comma-separated registered keys.
        registered: String,
    },
    /// A matcher spec must use exactly one operator.
    BadOperator {
        /// The rule name.
        rule: String,
        /// The matcher key.
        key: String,
    },
    /// A regex failed to compile.
    BadRegex {
        /// The rule name.
        rule: String,
        /// The matcher key.
        key: String,
        /// The regex error.
        source: String,
    },
    /// A project or group slug in the rule is invalid.
    BadSlug {
        /// The rule name.
        rule: String,
        /// The slug error.
        source: ModelError,
    },
}

/// What a [`RuleError`] holds.
#[verifier::ext_equal]
#[allow(inconsistent_fields)]
pub enum RuleErrorView {
    /// See [`RuleError::Toml`].
    Toml(Seq<char>),
    /// See [`RuleError::DuplicateName`].
    DuplicateName {
        /// The duplicated name.
        name: Seq<char>,
    },
    /// See [`RuleError::NoMatchers`].
    NoMatchers {
        /// The rule name.
        rule: Seq<char>,
    },
    /// See [`RuleError::UnknownMatcher`].
    UnknownMatcher {
        /// The rule name.
        rule: Seq<char>,
        /// The unknown key.
        key: Seq<char>,
        /// Comma-separated registered keys.
        registered: Seq<char>,
    },
    /// See [`RuleError::BadOperator`].
    BadOperator {
        /// The rule name.
        rule: Seq<char>,
        /// The matcher key.
        key: Seq<char>,
    },
    /// See [`RuleError::BadRegex`].
    BadRegex {
        /// The rule name.
        rule: Seq<char>,
        /// The matcher key.
        key: Seq<char>,
        /// The regex error.
        source: Seq<char>,
    },
    /// See [`RuleError::BadSlug`].
    BadSlug {
        /// The rule name.
        rule: Seq<char>,
        /// The slug error.
        source: ModelErrorView,
    },
}

impl View for RuleError {
    type V = RuleErrorView;

    open spec fn view(&self) -> RuleErrorView {
        match self {
            RuleError::Toml(x0) => RuleErrorView::Toml(x0.deep_view()),
            RuleError::DuplicateName { name } => RuleErrorView::DuplicateName {
                name: name.deep_view(),
            },
            RuleError::NoMatchers { rule } => RuleErrorView::NoMatchers {
                rule: rule.deep_view(),
            },
            RuleError::UnknownMatcher { rule, key, registered } => RuleErrorView::UnknownMatcher {
                rule: rule.deep_view(),
                key: key.deep_view(),
                registered: registered.deep_view(),
            },
            RuleError::BadOperator { rule, key } => RuleErrorView::BadOperator {
                rule: rule.deep_view(),
                key: key.deep_view(),
            },
            RuleError::BadRegex { rule, key, source } => RuleErrorView::BadRegex {
                rule: rule.deep_view(),
                key: key.deep_view(),
                source: source.deep_view(),
            },
            RuleError::BadSlug { rule, source } => RuleErrorView::BadSlug {
                rule: rule.deep_view(),
                source: source@,
            },
        }
    }
}

impl DeepView for RuleError {
    type V = RuleErrorView;

    open spec fn deep_view(&self) -> RuleErrorView {
        self.view()
    }
}

impl RuleErrorView {
    /// The message of the error.
    pub open spec fn message(self) -> Seq<char> {
        match self {
            RuleErrorView::Toml(e) => "invalid rules file: "@ + e,
            RuleErrorView::DuplicateName { name } => "duplicate rule name "@ + quoted(name),
            RuleErrorView::NoMatchers { rule } => "rule "@ + quoted(rule)
                + " has an empty [rules.match] section"@,
            RuleErrorView::UnknownMatcher { rule, key, registered } => "rule "@ + quoted(rule)
                + " uses unknown matcher "@ + quoted(key) + " (registered: "@ + registered + ")"@,
            RuleErrorView::BadOperator { rule, key } => "rule "@ + quoted(rule) + ", matcher "@
                + quoted(key) + ": use exactly one of equals/contains/regex"@,
            RuleErrorView::BadRegex { rule, key, source } => "rule "@ + quoted(rule)
                + ", matcher "@ + quoted(key) + ": invalid regex: "@ + source,
            RuleErrorView::BadSlug { rule, source } => "rule "@ + quoted(rule) + ": "@
                + source.message(),
        }
    }
}

impl RuleError {
    /// The message of the error.
    pub fn message(&self) -> (r: String)
        ensures
            r@ == self@.message(),
    {
        match self {
            RuleError::Toml(e) => {
                let mut out = "invalid rules file: ".to_owned();
                out.append(e.as_str());
                out
            },
            RuleError::DuplicateName { name } => {
                let mut out = "duplicate rule name ".to_owned();
                out.append(quote(name.as_str()).as_str());
                out
            },
            RuleError::NoMatchers { rule } => {
                let mut out = "rule ".to_owned();
                out.append(quote(rule.as_str()).as_str());
                out.append(" has an empty [rules.match] section");
                out
            },
            RuleError::UnknownMatcher { rule, key, registered } => {
                let mut out = "rule ".to_owned();
                out.append(quote(rule.as_str()).as_str());
                out.append(" uses unknown matcher ");
                out.append(quote(key.as_str()).as_str());
                out.append(" (registered: ");
                out.append(registered.as_str());
                out.append(")");
                out
            },
            RuleError::BadOperator { rule, key } => {
                let mut out = "rule ".to_owned();
                out.append(quote(rule.as_str()).as_str());
                out.append(", matcher ");
                out.append(quote(key.as_str()).as_str());
                out.append(": use exactly one of equals/contains/regex");
                out
            },
            RuleError::BadRegex { rule, key, source } => {
                let mut out = "rule ".to_owned();
                out.append(quote(rule.as_str()).as_str());
                out.append(", matcher ");
                out.append(quote(key.as_str()).as_str());
                out.append(": invalid regex: ");
                out.append(source.as_str());
                out
            },
            RuleError::BadSlug { rule, source } => {
                let mut out = "rule ".to_owned();
                out.append(quote(rule.as_str()).as_str());
                out.append(": ");
                out.append(source.message().as_str());
                out
            },
        }
    }
}

// ---- the rules file -------------------------------------------------------------

/// One matcher spec: exactly one operator plus flags.
#[derive(Debug, PartialEq)]
pub struct MatcherSpec {
    /// Exact match (case-insensitive unless `case_sensitive`).
    pub equals: Option<String>,
    /// Substring match (case-insensitive unless `case_sensitive`).
    pub contains: Option<String>,
    /// Regex match (use `(?i)` for case-insensitive).
    pub regex: Option<String>,
    /// Make `equals`/`contains` case-sensitive.
    pub case_sensitive: bool,
}

/// What a [`MatcherSpec`] holds.
#[verifier::ext_equal]
pub struct MatcherSpecView {
    /// See [`MatcherSpec::equals`].
    pub equals: Option<Seq<char>>,
    /// See [`MatcherSpec::contains`].
    pub contains: Option<Seq<char>>,
    /// See [`MatcherSpec::regex`].
    pub regex: Option<Seq<char>>,
    /// See [`MatcherSpec::case_sensitive`].
    pub case_sensitive: bool,
}

impl View for MatcherSpec {
    type V = MatcherSpecView;

    open spec fn view(&self) -> MatcherSpecView {
        MatcherSpecView {
            equals: self.equals.deep_view(),
            contains: self.contains.deep_view(),
            regex: self.regex.deep_view(),
            case_sensitive: self.case_sensitive,
        }
    }
}

impl DeepView for MatcherSpec {
    type V = MatcherSpecView;

    open spec fn deep_view(&self) -> MatcherSpecView {
        self.view()
    }
}

impl Clone for MatcherSpec {
    fn clone(&self) -> (r: Self)
        ensures
            r@ == self@,
    {
        let r = MatcherSpec {
            equals: self.equals.clone(),
            contains: self.contains.clone(),
            regex: self.regex.clone(),
            case_sensitive: self.case_sensitive,
        };
        r
    }
}

/// One `[[rules]]` entry.
#[derive(Debug, PartialEq)]
pub struct RuleSpec {
    /// Unique rule name, used in logs and `rules test`.
    pub name: String,
    /// Higher priorities evaluate first; ties keep file order.
    pub priority: i32,
    /// Target project slug.
    pub project: String,
    /// Optional target group slug.
    pub group: Option<String>,
    /// Whether evaluation stops after this rule matches (default true).
    pub stop: bool,
    /// Matcher specs with their matcher names, in ascending order of the names;
    /// ANDed together.
    pub matchers: Vec<(String, MatcherSpec)>,
}

/// What a [`RuleSpec`] holds.
#[verifier::ext_equal]
pub struct RuleSpecView {
    /// See [`RuleSpec::name`].
    pub name: Seq<char>,
    /// See [`RuleSpec::priority`].
    pub priority: i32,
    /// See [`RuleSpec::project`].
    pub project: Seq<char>,
    /// See [`RuleSpec::group`].
    pub group: Option<Seq<char>>,
    /// See [`RuleSpec::stop`].
    pub stop: bool,
    /// See [`RuleSpec::matchers`].
    pub matchers: Seq<(Seq<char>, MatcherSpecView)>,
}

impl View for RuleSpec {
    type V = RuleSpecView;

    open spec fn view(&self) -> RuleSpecView {
        RuleSpecView {
            name: self.name.deep_view(),
            priority: self.priority,
            project: self.project.deep_view(),
            group: self.group.deep_view(),
            stop: self.stop,
            matchers: self.matchers.deep_view(),
        }
    }
}

impl DeepView for RuleSpec {
    type V = RuleSpecView;

    open spec fn deep_view(&self) -> RuleSpecView {
        self.view()
    }
}

/// The parsed shape of `rules.toml`.
#[derive(Debug, PartialEq)]
pub struct RulesFile {
    /// Schema version (reserved).
    pub version: Option<u32>,
    /// The rules, in file order.
    pub rules: Vec<RuleSpec>,
}

/// What a [`RulesFile`] holds.
#[verifier::ext_equal]
pub struct RulesFileView {
    /// See [`RulesFile::version`].
    pub version: Option<u32>,
    /// See [`RulesFile::rules`].
    pub rules: Seq<RuleSpecView>,
}

impl View for RulesFile {
    type V = RulesFileView;

    open spec fn view(&self) -> RulesFileView {
        RulesFileView {
            version: self.version,
            rules: self.rules.deep_view(),
        }
    }
}

impl DeepView for RulesFile {
    type V = RulesFileView;

    open spec fn deep_view(&self) -> RulesFileView {
        self.view()
    }
}

impl Default for MatcherSpec {
    fn default() -> (r: Self)
        ensures
            r@ == (MatcherSpecView {
                equals: None,
                contains: None,
                regex: None,
                case_sensitive: false,
            }),
    {
        MatcherSpec { equals: None, contains: None, regex: None, case_sensitive: false }
    }
}

impl Default for RulesFile {
    fn default() -> (r: Self)
        ensures
            r@ == (RulesFileView { version: None, rules: seq![] }),
    {
        let r = RulesFile { version: None, rules: Vec::new() };
        proof {
            assert(r.rules.deep_view() =~= seq![]);
        }
        r
    }
}

// ---- operators ------------------------------------------------------------------

/// One comparison of a window's field with a wanted text.
#[derive(Debug)]
pub enum Operator {
    /// The texts are equal.
    Equals {
        /// The wanted text.
        needle: String,
        /// Whether case counts.
        case_sensitive: bool,
    },
    /// The wanted text occurs in the field.
    Contains {
        /// The wanted text.
        needle: String,
        /// Whether case counts.
        case_sensitive: bool,
    },
    /// The regular expression matches somewhere in the field.
    Regex(String),
}

/// What an [`Operator`] holds.
pub enum OperatorView {
    /// See [`Operator::Equals`].
    Equals {
        /// The wanted text.
        needle: Seq<char>,
        /// Whether case counts.
        case_sensitive: bool,
    },
    /// See [`Operator::Contains`].
    Contains {
        /// The wanted text.
        needle: Seq<char>,
        /// Whether case counts.
        case_sensitive: bool,
    },
    /// See [`Operator::Regex`].
    Regex(Seq<char>),
}

impl View for Operator {
    type V = OperatorView;

    open spec fn view(&self) -> OperatorView {
        match self {
            Operator::Equals { needle, case_sensitive } => OperatorView::Equals {
                needle: needle@,
                case_sensitive: *case_sensitive,
            },
            Operator::Contains { needle, case_sensitive } => OperatorView::Contains {
                needle: needle@,
                case_sensitive: *case_sensitive,
            },
            Operator::Regex(pattern) => OperatorView::Regex(pattern@),
        }
    }
}

impl OperatorView {
    /// Whether the operator accepts a field's value.
    pub open spec fn accepts(self, value: Seq<char>) -> bool {
        match self {
            OperatorView::Equals { needle, case_sensitive } => if case_sensitive {
                value == needle
            } else {
                unicode_lowercase(value) == unicode_lowercase(needle)
            },
            OperatorView::Contains { needle, case_sensitive } => if case_sensitive {
                holds(value, needle)
            } else {
                holds(unicode_lowercase(value), unicode_lowercase(needle))
            },
            OperatorView::Regex(pattern) => regex_search(pattern, value) == Some(true),
        }
    }
}

/// How many operators a matcher spec names.
pub open spec fn operator_count(spec: MatcherSpecView) -> int {
    (if spec.equals is Some {
        1int
    } else {
        0int
    }) + (if spec.contains is Some {
        1int
    } else {
        0int
    }) + (if spec.regex is Some {
        1int
    } else {
        0int
    })
}

/// The operator of a matcher spec, given what is wrong with its regex if
/// anything.
pub open spec fn operator_of(
    rule: Seq<char>,
    key: Seq<char>,
    spec: MatcherSpecView,
    failure: Option<Seq<char>>,
) -> Result<OperatorView, RuleErrorView> {
    if operator_count(spec) != 1 {
        Err(RuleErrorView::BadOperator { rule, key })
    } else if let Some(needle) = spec.equals {
        Ok(OperatorView::Equals { needle, case_sensitive: spec.case_sensitive })
    } else if let Some(needle) = spec.contains {
        Ok(OperatorView::Contains { needle, case_sensitive: spec.case_sensitive })
    } else {
        match failure {
            Some(source) => Err(RuleErrorView::BadRegex { rule, key, source }),
            None => Ok(OperatorView::Regex(spec.regex->0)),
        }
    }
}

/// What is wrong with the regex of a matcher spec, if anything.
pub open spec fn spec_failure(spec: MatcherSpecView) -> Option<Seq<char>> {
    match spec.regex {
        Some(pattern) => regex_failure(pattern),
        None => None,
    }
}

impl Operator {
    /// The operator of a matcher spec, given what is wrong with its regex if
    /// anything.
    pub fn from_checked_spec(
        rule: &str,
        key: &str,
        spec: &MatcherSpec,
        failure: Option<String>,
    ) -> (r: Result<Self, RuleError>)
        ensures
            match (r, operator_of(rule@, key@, spec@, failure.deep_view())) {
                (Ok(op), Ok(expected)) => op@ == expected,
                (Err(error), Err(expected)) => error@ == expected,
                _ => false,
            },
    {
        match (&spec.equals, &spec.contains, &spec.regex) {
            (Some(needle), None, None) => Ok(
                Operator::Equals { needle: needle.clone(), case_sensitive: spec.case_sensitive },
            ),
            (None, Some(needle), None) => Ok(
                Operator::Contains { needle: needle.clone(), case_sensitive: spec.case_sensitive },
            ),
            (None, None, Some(pattern)) => match failure {
                Some(source) => Err(
                    RuleError::BadRegex { rule: rule.to_owned(), key: key.to_owned(), source },
                ),
                None => Ok(Operator::Regex(pattern.clone())),
            },
            _ => Err(RuleError::BadOperator { rule: rule.to_owned(), key: key.to_owned() }),
        }
    }

    /// The operator of a matcher spec.
    pub fn from_spec(rule: &str, key: &str, spec: &MatcherSpec) -> (r: Result<Self, RuleError>)
        ensures
            match (r, operator_of(rule@, key@, spec@, spec_failure(spec@))) {
                (Ok(op), Ok(expected)) => op@ == expected,
                (Err(error), Err(expected)) => error@ == expected,
                _ => false,
            },
    {
        let failure = match &spec.regex {
            Some(pattern) => regex_error(pattern.as_str()),
            None => None,
        };
        Self::from_checked_spec(rule, key, spec, failure)
    }

    /// Whether the operator accepts a field's value.
    pub fn matches(&self, value: &str) -> (r: bool)
        ensures
            r == self@.accepts(value@),
    {
        match self {
            Operator::Equals { needle, case_sensitive } => if *case_sensitive {
                same(value, needle.as_str())
            } else {
                same(
                    to_lowercase(value).as_str(),
                    to_lowercase(needle.as_str()).as_str(),
                )
            },
            Operator::Contains { needle, case_sensitive } => if *case_sensitive {
                contains(value, needle.as_str())
            } else {
                contains(
                    to_lowercase(value).as_str(),
                    to_lowercase(needle.as_str()).as_str(),
                )
            },
            Operator::Regex(pattern) => match regex_matches(pattern.as_str(), value) {
                Some(found) => found,
                None => false,
            },
        }
    }
}

// ---- matchers -------------------------------------------------------------------

/// A compiled predicate over [`WindowFacts`]. Plugin extension point.
pub trait CompiledMatcher: Send + Sync {
    /// Whether the matcher accepts a window with these facts.
    spec fn accepts(&self, facts: WindowFactsView) -> bool;

    /// Whether the window matches.
    fn matches(&self, facts: &WindowFacts) -> (r: bool)
        ensures
            r == self.accepts(facts@),
    ;
}

/// Some compiled matcher.
pub struct BoxedMatcher {
    /// The matcher.
    pub matcher: Box<dyn CompiledMatcher>,
}

impl BoxedMatcher {
    /// Whether the matcher accepts a window with these facts.
    pub open spec fn accepts(self, facts: WindowFactsView) -> bool {
        self.matcher.accepts(facts)
    }
}

/// A matcher factory registered under a key. Plugin extension point.
pub trait RuleMatcher: Send + Sync {
    /// The key used in `[rules.match]`.
    spec fn name(&self) -> Seq<char>;

    /// The predicate that a spec compiles to, or what is wrong with it.
    spec fn compiled(&self, rule: Seq<char>, spec: MatcherSpecView) -> Result<
        spec_fn(WindowFactsView) -> bool,
        RuleErrorView,
    >;

    /// The key used in `[rules.match]`.
    fn key(&self) -> (r: &'static str)
        ensures
            r@ == self.name(),
    ;

    /// Compile a spec into an executable matcher. `rule` is for diagnostics.
    fn compile(&self, rule: &str, spec: &MatcherSpec) -> (r: Result<BoxedMatcher, RuleError>)
        ensures
            match (r, self.compiled(rule@, spec@)) {
                (Ok(matcher), Ok(expected)) => forall|facts: WindowFactsView| #[trigger]
                    matcher.accepts(facts) == expected(facts),
                (Err(error), Err(expected)) => error@ == expected,
                _ => false,
            },
    ;
}

/// Some matcher factory.
pub struct BoxedFactory {
    /// The factory.
    pub factory: Box<dyn RuleMatcher>,
}

impl BoxedFactory {
    /// The key used in `[rules.match]`.
    pub open spec fn name(self) -> Seq<char> {
        self.factory.name()
    }

    /// The predicate that a spec compiles to, or what is wrong with it.
    pub open spec fn compiled(self, rule: Seq<char>, spec: MatcherSpecView) -> Result<
        spec_fn(WindowFactsView) -> bool,
        RuleErrorView,
    > {
        self.factory.compiled(rule, spec)
    }
}

/// A text field of [`WindowFacts`].
#[derive(Debug, Clone, Copy, PartialEq, Eq, Structural)]
pub enum Field {
    /// The current class.
    Class,
    /// The class at map time.
    InitialClass,
    /// The current title.
    Title,
    /// The executable path, when known.
    Executable,
}

/// The value of a field, if the window has one.
pub open spec fn field_value(field: Field, facts: WindowFactsView) -> Option<Seq<char>> {
    match field {
        Field::Class => Some(facts.class),
        Field::InitialClass => Some(facts.initial_class),
        Field::Title => Some(facts.title),
        Field::Executable => facts.executable,
    }
}

/// The key under which a field is matched.
pub open spec fn field_key(field: Field) -> Seq<char> {
    match field {
        Field::Class => "class"@,
        Field::InitialClass => "initial_class"@,
        Field::Title => "title"@,
        Field::Executable => "executable"@,
    }
}

/// The predicate that an operator makes of a field.
pub open spec fn field_predicate(field: Field, op: OperatorView) -> spec_fn(
    WindowFactsView,
) -> bool {
    |facts: WindowFactsView|
        match field_value(field, facts) {
            Some(value) => op.accepts(value),
            None => false,
        }
}

/// Built-in matcher over a string field of [`WindowFacts`].
#[derive(Debug)]
pub struct FieldMatcher {
    /// The field.
    pub field: Field,
}

impl RuleMatcher for FieldMatcher {
    open spec fn name(&self) -> Seq<char> {
        field_key(self.field)
    }

    open spec fn compiled(&self, rule: Seq<char>, spec: MatcherSpecView) -> Result<
        spec_fn(WindowFactsView) -> bool,
        RuleErrorView,
    > {
        match operator_of(rule, field_key(self.field), spec, spec_failure(spec)) {
            Ok(op) => Ok(field_predicate(self.field, op)),
            Err(error) => Err(error),
        }
    }

    fn key(&self) -> (r: &'static str) {
        match self.field {
            Field::Class => "class",
            Field::InitialClass => "initial_class",
            Field::Title => "title",
            Field::Executable => "executable",
        }
    }

    fn compile(&self, rule: &str, spec: &MatcherSpec) -> (r: Result<BoxedMatcher, RuleError>) {
        match Operator::from_spec(rule, self.key(), spec) {
            Ok(op) => Ok(
                BoxedMatcher { matcher: Box::new(FieldPredicate { field: self.field, op }) },
            ),
            Err(error) => Err(error),
        }
    }
}

/// A compiled built-in matcher.
#[derive(Debug)]
pub struct FieldPredicate {
    /// The field.
    pub field: Field,
    /// The comparison.
    pub op: Operator,
}

impl CompiledMatcher for FieldPredicate {
    open spec fn accepts(&self, facts: WindowFactsView) -> bool {
        field_predicate(self.field, self.op@)(facts)
    }

    fn matches(&self, facts: &WindowFacts) -> (r: bool) {
        match self.field {
            Field::Class => self.op.matches(facts.class.as_str()),
            Field::InitialClass => self.op.matches(facts.initial_class.as_str()),
            Field::Title => self.op.matches(facts.title.as_str()),
            Field::Executable => match &facts.executable {
                Some(path) => self.op.matches(path.as_str()),
                None => false,
            },
        }
    }
}

// ---- the registry ---------------------------------------------------------------

/// What a registered matcher makes of a rule's spec.
pub struct Factory {
    /// The key it is registered under.
    pub key: Seq<char>,
    /// The predicate that a spec compiles to, or what is wrong with it.
    pub compiled: spec_fn(Seq<char>, MatcherSpecView) -> Result<
        spec_fn(WindowFactsView) -> bool,
        RuleErrorView,
    >,
}

/// Registry of matcher factories, keyed by `[rules.match]` key. No key occurs
/// twice.
pub struct MatcherRegistry {
    matchers: Vec<BoxedFactory>,
}

impl View for MatcherRegistry {
    type V = Seq<Factory>;

    closed spec fn view(&self) -> Seq<Factory> {
        factories(self.matchers@)
    }
}

impl View for BoxedFactory {
    type V = Factory;

    open spec fn view(&self) -> Factory {
        let matcher = *self;
        Factory {
            key: matcher.name(),
            compiled: |rule: Seq<char>, spec: MatcherSpecView| matcher.compiled(rule, spec),
        }
    }
}

spec fn factories(matchers: Seq<BoxedFactory>) -> Seq<Factory> {
    Seq::new(matchers.len(), |i: int| matchers[i]@)
}

/// The position of the factory with the key, from `from` on.
pub open spec fn factory_at(registry: Seq<Factory>, key: Seq<char>, from: int) -> Option<int>
    decreases registry.len() - from,
{
    if from < 0 || from >= registry.len() {
        None
    } else if registry[from].key == key {
        Some(from)
    } else {
        factory_at(registry, key, from + 1)
    }
}

/// A registry after a factory was added, in place of the one with its key if
/// there is one.
pub open spec fn registered(registry: Seq<Factory>, factory: Factory) -> Seq<Factory> {
    match factory_at(registry, factory.key, 0) {
        Some(i) => registry.update(i, factory),
        None => registry.push(factory),
    }
}

/// A key put into a sorted list of keys.
pub open spec fn key_placed(keys: Seq<Seq<char>>, key: Seq<char>) -> Seq<Seq<char>>
    decreases keys.len(),
{
    if keys.len() > 0 && precedes(key, keys.last()) {
        key_placed(keys.drop_last(), key).push(keys.last())
    } else {
        keys.push(key)
    }
}

/// The keys of a registry in ascending order.
pub open spec fn sorted_keys(registry: Seq<Factory>) -> Seq<Seq<char>>
    decreases registry.len(),
{
    if registry.len() == 0 {
        seq![]
    } else {
        key_placed(sorted_keys(registry.drop_last()), registry.last().key)
    }
}

/// The keys of a registry as a comma-separated text.
pub open spec fn keys_text(registry: Seq<Factory>) -> Seq<char> {
    joined(sorted_keys(registry), ", "@)
}

/// The factory of a built-in field matcher.
pub open spec fn field_factory(field: Field) -> Factory {
    Factory {
        key: field_key(field),
        compiled: |rule: Seq<char>, spec: MatcherSpecView|
            (FieldMatcher { field }).compiled(rule, spec),
    }
}

/// The built-in matchers.
pub open spec fn builtin_factories() -> Seq<Factory> {
    registered(
        registered(
            registered(
                registered(seq![], field_factory(Field::Class)),
                field_factory(Field::InitialClass),
            ),
            field_factory(Field::Title),
        ),
        field_factory(Field::Executable),
    )
}

proof fn lemma_factory_at(registry: Seq<Factory>, key: Seq<char>, from: int)
    requires
        0 <= from,
    ensures
        factory_at(registry, key, from) matches Some(i) ==> from <= i < registry.len()
            && registry[i].key == key,
    decreases registry.len() - from,
{
    if from < registry.len() && registry[from].key != key {
        lemma_factory_at(registry, key, from + 1);
    }
}

proof fn lemma_key_placed(keys: Seq<Seq<char>>, key: Seq<char>, at: int)
    requires
        0 <= at <= keys.len(),
        forall|i: int| at <= i < keys.len() ==> precedes(key, #[trigger] keys[i]),
        at > 0 ==> !precedes(key, keys[at - 1]),
    ensures
        key_placed(keys, key) == keys.insert(at, key),
    decreases keys.len(),
{
    if at < keys.len() {
        let front = keys.drop_last();
        assert(precedes(key, keys[keys.len() - 1]));
        lemma_key_placed(front, key, at);
        assert(keys.insert(at, key) =~= front.insert(at, key).push(keys.last()));
    } else {
        assert(keys.insert(at, key) =~= keys.push(key));
    }
}

impl MatcherRegistry {
    /// A registry without matchers.
    pub fn new() -> (r: Self)
        ensures
            r@ == Seq::<Factory>::empty(),
    {
        let r = MatcherRegistry { matchers: Vec::new() };
        proof {
            assert(r@ =~= Seq::<Factory>::empty());
        }
        r
    }

    /// Registry with the built-in matchers: `class`, `initial_class`,
    /// `title`, `executable`.
    pub fn builtin() -> (r: Self)
        ensures
            r@ == builtin_factories(),
    {
        let mut registry = Self::new();
        registry.register_field(Field::Class);
        registry.register_field(Field::InitialClass);
        registry.register_field(Field::Title);
        registry.register_field(Field::Executable);
        registry
    }

    fn register_field(&mut self, field: Field)
        ensures
            final(self)@ == registered(old(self)@, field_factory(field)),
    {
        let factory = BoxedFactory { factory: Box::new(FieldMatcher { field }) };
        proof {
            assert(factory@.compiled =~= field_factory(field).compiled);
            assert(factory@ == field_factory(field));
        }
        self.register(factory);
    }

    fn position(&self, key: &str) -> (r: Option<usize>)
        ensures
            match r {
                Some(i) => factory_at(self@, key@, 0) == Some(i as int) && i < self@.len(),
                None => factory_at(self@, key@, 0) is None,
            },
    {
        let ghost all = factories(self.matchers@);
        let mut i: usize = 0;
        while i < self.matchers.len()
            invariant
                i <= self.matchers.len(),
                all == factories(self.matchers@),
                factory_at(all, key@, 0) == factory_at(all, key@, i as int),
            decreases self.matchers.len() - i,
        {
            assert(all[i as int].key == self.matchers@[i as int].name());
            if same(self.matchers[i].factory.key(), key) {
                return Some(i);
            }
            i = i + 1;
        }
        None
    }

    /// Register a matcher factory (later registrations override earlier ones).
    pub fn register(&mut self, factory: BoxedFactory)
        ensures
            final(self)@ == registered(old(self)@, factory@),
    {
        let ghost before = self@;
        match self.position(factory.factory.key()) {
            Some(i) => {
                self.matchers.set(i, factory);
                proof {
                    assert(self@ =~= before.update(i as int, factory@));
                }
            },
            None => {
                self.matchers.push(factory);
                proof {
                    assert(self@ =~= before.push(factory@));
                }
            },
        }
    }

    fn keys(&self) -> (r: String)
        ensures
            r@ == keys_text(self@),
    {
        let ghost all = factories(self.matchers@);
        let mut sorted: Vec<String> = Vec::new();
        let mut i: usize = 0;
        proof {
            assert(all.take(0) =~= seq![]);
            assert(sorted.deep_view() =~= seq![]);
        }
        while i < self.matchers.len()
            invariant
                i <= self.matchers.len(),
                all == factories(self.matchers@),
                sorted.deep_view() == sorted_keys(all.take(i as int)),
            decreases self.matchers.len() - i,
        {
            let key = self.matchers[i].factory.key();
            let ghost before = sorted.deep_view();
            proof {
                assert(all[i as int].key == key@);
                assert(all.take(i + 1).drop_last() =~= all.take(i as int));
            }
            let mut at: usize = sorted.len();
            while at > 0 && comes_before(key, sorted[at - 1].as_str())
                invariant
                    at <= sorted.len(),
                    before == sorted.deep_view(),
                    forall|k: int| at <= k < before.len() ==> precedes(key@, #[trigger] before[k]),
                decreases at,
            {
                assert(before[at - 1] == sorted@[at - 1]@);
                at = at - 1;
            }
            proof {
                if at > 0 {
                    assert(before[at - 1] == sorted@[at - 1]@);
                }
                lemma_key_placed(before, key@, at as int);
            }
            sorted.insert(at, key.to_owned());
            proof {
                assert(sorted.deep_view() =~= before.insert(at as int, key@));
            }
            i = i + 1;
        }
        proof {
            assert(all.take(i as int) =~= all);
        }
        join(&sorted, ", ")
    }
}

// ---- compiled rules -------------------------------------------------------------

/// One rule, compiled and ready to evaluate.
pub struct CompiledRule {
    /// Rule name.
    pub name: String,
    /// Rule priority.
    pub priority: i32,
    /// Target project slug.
    pub project: Slug,
    /// Target group slug, if any.
    pub group: Option<Slug>,
    /// Whether evaluation stops when this rule matches.
    pub stop: bool,
    /// The matchers, ANDed together.
    pub matchers: Vec<BoxedMatcher>,
}

/// What a [`CompiledRule`] holds.
#[verifier::ext_equal]
pub struct CompiledRuleView {
    /// See [`CompiledRule::name`].
    pub name: Seq<char>,
    /// See [`CompiledRule::priority`].
    pub priority: i32,
    /// See [`CompiledRule::project`].
    pub project: Seq<char>,
    /// See [`CompiledRule::group`].
    pub group: Option<Seq<char>>,
    /// See [`CompiledRule::stop`].
    pub stop: bool,
    /// How many matchers there are.
    pub matchers: nat,
    /// Which windows the rule matches.
    pub accepts: spec_fn(WindowFactsView) -> bool,
}

/// Whether every matcher accepts a window with these facts.
pub open spec fn accepts_all(matchers: Seq<BoxedMatcher>, facts: WindowFactsView) -> bool {
    forall|i: int| 0 <= i < matchers.len() ==> (#[trigger] matchers[i]).accepts(facts)
}

impl View for CompiledRule {
    type V = CompiledRuleView;

    open spec fn view(&self) -> CompiledRuleView {
        CompiledRuleView {
            name: self.name@,
            priority: self.priority,
            project: self.project@,
            group: self.group.deep_view(),
            stop: self.stop,
            matchers: self.matchers@.len(),
            accepts: |facts: WindowFactsView| accepts_all(self.matchers@, facts),
        }
    }
}

impl CompiledRule {
    /// Whether all matchers accept the window (matchers are ANDed).
    pub fn matches(&self, facts: &WindowFacts) -> (r: bool)
        ensures
            r == (self@.accepts)(facts@),
    {
        let mut i: usize = 0;
        while i < self.matchers.len()
            invariant
                i <= self.matchers.len(),
                forall|k: int|
                    0 <= k < i ==> (#[trigger] self.matchers@[k]).accepts(facts@),
            decreases self.matchers.len() - i,
        {
            if !self.matchers[i].matcher.matches(facts) {
                assert(!self.matchers@[i as int].accepts(facts@));
                return false;
            }
            i = i + 1;
        }
        true
    }
}

// ---- compiling ------------------------------------------------------------------

/// What a rule's matcher spec compiles to under a registry.
pub open spec fn matcher_outcome(
    registry: Seq<Factory>,
    rule: Seq<char>,
    item: (Seq<char>, MatcherSpecView),
) -> Result<spec_fn(WindowFactsView) -> bool, RuleErrorView> {
    match factory_at(registry, item.0, 0) {
        Some(i) => (registry[i].compiled)(rule, item.1),
        None => Err(
            RuleErrorView::UnknownMatcher { rule, key: item.0, registered: keys_text(registry) },
        ),
    }
}

/// What is wrong with a rule's matchers.
pub open spec fn matcher_errors(
    registry: Seq<Factory>,
    rule: Seq<char>,
    items: Seq<(Seq<char>, MatcherSpecView)>,
) -> Seq<RuleErrorView>
    decreases items.len(),
{
    if items.len() == 0 {
        seq![]
    } else {
        let before = matcher_errors(registry, rule, items.drop_last());
        match matcher_outcome(registry, rule, items.last()) {
            Ok(_) => before,
            Err(error) => before.push(error),
        }
    }
}

/// Whether every matcher of a rule accepts a window.
pub open spec fn all_accept(
    registry: Seq<Factory>,
    rule: Seq<char>,
    items: Seq<(Seq<char>, MatcherSpecView)>,
    facts: WindowFactsView,
) -> bool {
    forall|i: int|
        0 <= i < items.len() ==> (matcher_outcome(registry, rule, #[trigger] items[i])->Ok_0)(
            facts,
        )
}

/// Whether an earlier rule has the name of rule `i`.
pub open spec fn repeats_name(rules: Seq<RuleSpecView>, i: int) -> bool {
    exists|j: int| 0 <= j < i && (#[trigger] rules[j]).name == rules[i].name
}

/// What is wrong with the name of rule `i`.
pub open spec fn name_errors(rules: Seq<RuleSpecView>, i: int) -> Seq<RuleErrorView> {
    if repeats_name(rules, i) {
        seq![RuleErrorView::DuplicateName { name: rules[i].name }]
    } else {
        seq![]
    }
}

/// What is wrong with the number of a rule's matchers.
pub open spec fn empty_errors(spec: RuleSpecView) -> Seq<RuleErrorView> {
    if spec.matchers.len() == 0 {
        seq![RuleErrorView::NoMatchers { rule: spec.name }]
    } else {
        seq![]
    }
}

/// What is wrong with a slug that a rule names, if it names one.
pub open spec fn slug_errors(rule: Seq<char>, raw: Option<Seq<char>>) -> Seq<RuleErrorView> {
    match raw {
        Some(raw) => if is_slug(raw) {
            seq![]
        } else {
            seq![RuleErrorView::BadSlug { rule, source: ModelErrorView::InvalidSlug(raw) }]
        },
        None => seq![],
    }
}

/// Everything that is wrong with rule `i`: its name, its lack of matchers, its
/// project, its group and each of its matchers.
pub open spec fn rule_errors(
    registry: Seq<Factory>,
    rules: Seq<RuleSpecView>,
    i: int,
) -> Seq<RuleErrorView> {
    let spec = rules[i];
    name_errors(rules, i) + empty_errors(spec) + slug_errors(spec.name, Some(spec.project))
        + slug_errors(spec.name, spec.group) + matcher_errors(registry, spec.name, spec.matchers)
}

/// What is wrong with the first `n` rules.
pub open spec fn all_errors(
    registry: Seq<Factory>,
    rules: Seq<RuleSpecView>,
    n: int,
) -> Seq<RuleErrorView>
    decreases n,
{
    if n <= 0 {
        seq![]
    } else {
        all_errors(registry, rules, n - 1) + rule_errors(registry, rules, n - 1)
    }
}

/// A rule with nothing wrong with it, compiled.
pub open spec fn compiled_rule(registry: Seq<Factory>, spec: RuleSpecView) -> CompiledRuleView {
    CompiledRuleView {
        name: spec.name,
        priority: spec.priority,
        project: spec.project,
        group: spec.group,
        stop: spec.stop,
        matchers: spec.matchers.len(),
        accepts: |facts: WindowFactsView|
            all_accept(registry, spec.name, spec.matchers, facts),
    }
}

/// A rule put into evaluation order, after those of no lower priority.
pub open spec fn rule_placed(
    order: Seq<CompiledRuleView>,
    rule: CompiledRuleView,
) -> Seq<CompiledRuleView>
    decreases order.len(),
{
    if order.len() > 0 && order.last().priority < rule.priority {
        rule_placed(order.drop_last(), rule).push(order.last())
    } else {
        order.push(rule)
    }
}

/// Those of the first `n` rules with nothing wrong with them, in evaluation
/// order: higher priority first, file order among equals.
pub open spec fn in_order(
    registry: Seq<Factory>,
    rules: Seq<RuleSpecView>,
    n: int,
) -> Seq<CompiledRuleView>
    decreases n,
{
    if n <= 0 {
        seq![]
    } else if rule_errors(registry, rules, n - 1).len() == 0 {
        rule_placed(in_order(registry, rules, n - 1), compiled_rule(registry, rules[n - 1]))
    } else {
        in_order(registry, rules, n - 1)
    }
}

/// What a rules file compiles to, or everything that is wrong with it.
pub open spec fn compilation(registry: Seq<Factory>, file: RulesFileView) -> Result<
    Seq<CompiledRuleView>,
    Seq<RuleErrorView>,
> {
    let n = file.rules.len() as int;
    let errors = all_errors(registry, file.rules, n);
    if errors.len() == 0 {
        Ok(in_order(registry, file.rules, n))
    } else {
        Err(errors)
    }
}

/// All rules, compiled and sorted for evaluation.
pub struct RuleSet {
    rules: Vec<CompiledRule>,
}

spec fn rule_views(rules: Seq<CompiledRule>) -> Seq<CompiledRuleView> {
    Seq::new(rules.len(), |i: int| rules[i]@)
}

impl View for RuleSet {
    type V = Seq<CompiledRuleView>;

    closed spec fn view(&self) -> Seq<CompiledRuleView> {
        rule_views(self.rules@)
    }
}

impl Default for RuleSet {
    fn default() -> (r: Self)
        ensures
            r@ == Seq::<CompiledRuleView>::empty(),
    {
        let r = RuleSet { rules: Vec::new() };
        proof {
            assert(r@ =~= Seq::<CompiledRuleView>::empty());
        }
        r
    }
}

proof fn lemma_rule_placed(order: Seq<CompiledRuleView>, rule: CompiledRuleView, at: int)
    requires
        0 <= at <= order.len(),
        forall|i: int| at <= i < order.len() ==> (#[trigger] order[i]).priority < rule.priority,
        at > 0 ==> order[at - 1].priority >= rule.priority,
    ensures
        rule_placed(order, rule) == order.insert(at, rule),
    decreases order.len(),
{
    if at < order.len() {
        let front = order.drop_last();
        lemma_rule_placed(front, rule, at);
        assert(order.insert(at, rule) =~= front.insert(at, rule).push(order.last()));
    } else {
        assert(order.insert(at, rule) =~= order.push(rule));
    }
}

/// Whether an earlier rule has the name of rule `i`.
fn name_repeated(rules: &Vec<RuleSpec>, i: usize) -> (r: bool)
    requires
        i < rules.len(),
    ensures
        r == repeats_name(rules.deep_view(), i as int),
{
    let ghost views = rules.deep_view();
    let mut j: usize = 0;
    while j < i
        invariant
            j <= i < rules.len(),
            views == rules.deep_view(),
            forall|k: int| 0 <= k < j ==> (#[trigger] views[k]).name != views[i as int].name,
        decreases i - j,
    {
        assert(views[j as int] == rules@[j as int]@);
        assert(views[i as int] == rules@[i as int]@);
        if same(rules[j].name.as_str(), rules[i].name.as_str()) {
            return true;
        }
        j = j + 1;
    }
    false
}

/// Compiles a rule's matchers, collecting what is wrong with them.
fn compile_matchers(registry: &MatcherRegistry, spec: &RuleSpec) -> (r: Result<
    Vec<BoxedMatcher>,
    Vec<RuleError>,
>)
    ensures
        match r {
            Ok(matchers) => matcher_errors(registry@, spec@.name, spec@.matchers).len() == 0
                && matchers.len() == spec@.matchers.len() && forall|facts: WindowFactsView| #[trigger]
                accepts_all(matchers@, facts) == all_accept(
                    registry@,
                    spec@.name,
                    spec@.matchers,
                    facts,
                ),
            Err(errors) => errors.len() > 0 && errors.deep_view() == matcher_errors(
                registry@,
                spec@.name,
                spec@.matchers,
            ),
        },
{
    let ghost items = spec.matchers.deep_view();
    let ghost name = spec.name@;
    let mut matchers: Vec<BoxedMatcher> = Vec::new();
    let mut errors: Vec<RuleError> = Vec::new();
    let mut i: usize = 0;
    proof {
        assert(items.take(0) =~= seq![]);
        assert(errors.deep_view() =~= seq![]);
    }
    while i < spec.matchers.len()
        invariant
            i <= spec.matchers.len(),
            items == spec.matchers.deep_view(),
            name == spec.name@,
            errors.deep_view() == matcher_errors(registry@, name, items.take(i as int)),
            errors.len() == 0 ==> matchers.len() == i && forall|k: int, facts: WindowFactsView|
                0 <= k < i ==> #[trigger] matchers@[k].accepts(facts) == (matcher_outcome(
                    registry@,
                    name,
                    items[k],
                )->Ok_0)(facts),
        decreases spec.matchers.len() - i,
    {
        let ghost before = errors.deep_view();
        let ghost item = items[i as int];
        let ghost count = errors.len();
        let ghost earlier = matchers@;
        proof {
            assert(items.take(i + 1).drop_last() =~= items.take(i as int));
            assert(items.take(i + 1).last() == item);
            assert(item == (spec.matchers@[i as int].0@, spec.matchers@[i as int].1@));
        }
        match registry.position(spec.matchers[i].0.as_str()) {
            None => {
                let error = RuleError::UnknownMatcher {
                    rule: spec.name.clone(),
                    key: spec.matchers[i].0.clone(),
                    registered: registry.keys(),
                };
                errors.push(error);
                proof {
                    assert(errors.deep_view() =~= before.push(error@));
                }
            },
            Some(at) => {
                let factory = &registry.matchers[at];
                proof {
                    assert(registry@[at as int] == factory@);
                }
                match factory.factory.compile(spec.name.as_str(), &spec.matchers[i].1) {
                    Ok(compiled) => {
                        proof {
                            assert(matcher_outcome(registry@, name, item) is Ok);
                        }
                        matchers.push(compiled);
                        proof {
                            if count == 0 {
                                assert forall|k: int, facts: WindowFactsView|
                                    0 <= k < i + 1 implies #[trigger] matchers@[k].accepts(facts)
                                    == (matcher_outcome(registry@, name, items[k])->Ok_0)(facts) by {
                                    if k < i {
                                        assert(matchers@[k] == earlier[k]);
                                        assert(earlier[k].accepts(facts) == (matcher_outcome(
                                            registry@,
                                            name,
                                            items[k],
                                        )->Ok_0)(facts));
                                    }
                                }
                            }
                        }
                    },
                    Err(error) => {
                        errors.push(error);
                        proof {
                            assert(errors.deep_view() =~= before.push(error@));
                        }
                    },
                }
            },
        }
        i = i + 1;
    }
    proof {
        assert(items.take(i as int) =~= items);
    }
    if errors.len() > 0 {
        return Err(errors);
    }
    proof {
        assert forall|facts: WindowFactsView| #[trigger] accepts_all(matchers@, facts)
            == all_accept(registry@, name, items, facts) by {
            if accepts_all(matchers@, facts) {
                assert forall|k: int| 0 <= k < items.len() implies (matcher_outcome(
                    registry@,
                    name,
                    #[trigger] items[k],
                )->Ok_0)(facts) by {
                    assert(matchers@[k].accepts(facts));
                }
            }
            if all_accept(registry@, name, items, facts) {
                assert forall|k: int| 0 <= k < matchers.len() implies (
                #[trigger] matchers@[k]).accepts(facts) by {
                    assert((matcher_outcome(registry@, name, items[k])->Ok_0)(facts));
                }
            }
        }
    }
    Ok(matchers)
}

/// Reads a slug that a rule names, noting what is wrong with it.
fn read_slug(rule: &str, raw: &str, errors: &mut Vec<RuleError>) -> (r: Option<Slug>)
    ensures
        final(errors).deep_view() == old(errors).deep_view() + slug_errors(rule@, Some(raw@)),
        match r {
            Some(slug) => is_slug(raw@) && slug@ == raw@,
            None => !is_slug(raw@),
        },
{
    let ghost before = errors.deep_view();
    match Slug::parse(raw) {
        Ok(slug) => {
            assert(before + slug_errors(rule@, Some(raw@)) =~= before);
            Some(slug)
        },
        Err(source) => {
            errors.push(RuleError::BadSlug { rule: rule.to_owned(), source });
            assert(errors.deep_view() =~= before + slug_errors(rule@, Some(raw@)));
            None
        },
    }
}

/// Compiles rule `i`, collecting what is wrong with it.
fn compile_rule(registry: &MatcherRegistry, rules: &Vec<RuleSpec>, i: usize) -> (r: Result<
    CompiledRule,
    Vec<RuleError>,
>)
    requires
        i < rules.len(),
    ensures
        match r {
            Ok(rule) => rule_errors(registry@, rules.deep_view(), i as int).len() == 0 && rule@
                == compiled_rule(registry@, rules.deep_view()[i as int]),
            Err(errors) => errors.len() > 0 && errors.deep_view() == rule_errors(
                registry@,
                rules.deep_view(),
                i as int,
            ),
        },
{
    let spec = &rules[i];
    proof {
        assert(rules.deep_view()[i as int] == spec@);
    }
    let ghost views = rules.deep_view();
    let mut errors: Vec<RuleError> = Vec::new();
    if name_repeated(rules, i) {
        errors.push(RuleError::DuplicateName { name: spec.name.clone() });
    }
    assert(errors.deep_view() =~= name_errors(views, i as int));
    let ghost named = errors.deep_view();
    if spec.matchers.len() == 0 {
        errors.push(RuleError::NoMatchers { rule: spec.name.clone() });
    }
    assert(errors.deep_view() =~= named + empty_errors(spec@));
    let project = read_slug(spec.name.as_str(), spec.project.as_str(), &mut errors);
    let group = match &spec.group {
        None => None,
        Some(raw) => read_slug(spec.name.as_str(), raw.as_str(), &mut errors),
    };
    let ghost before = errors.deep_view();
    assert(before =~= named + empty_errors(spec@) + slug_errors(spec@.name, Some(spec@.project))
        + slug_errors(spec@.name, spec@.group));
    match compile_matchers(registry, spec) {
        Ok(matchers) => {
            assert(before + matcher_errors(registry@, spec@.name, spec@.matchers) =~= before);
            match project {
                Some(project) if errors.len() == 0 => {
                    let rule = CompiledRule {
                        name: spec.name.clone(),
                        priority: spec.priority,
                        project,
                        group,
                        stop: spec.stop,
                        matchers,
                    };
                    proof {
                        assert(slug_errors(spec@.name, spec@.group).len() == 0);
                        assert(rule@.accepts =~= compiled_rule(registry@, spec@).accepts);
                        assert(rule@ =~= compiled_rule(registry@, spec@));
                    }
                    Ok(rule)
                },
                _ => Err(errors),
            }
        },
        Err(mut found) => {
            let ghost added = found.deep_view();
            errors.append(&mut found);
            assert(errors.deep_view() =~= before + added);
            Err(errors)
        },
    }
}

fn place_rule(order: &mut Vec<CompiledRule>, rule: CompiledRule)
    ensures
        rule_views(final(order)@) == rule_placed(rule_views(old(order)@), rule@),
{
    let ghost before = rule_views(order@);
    let mut at: usize = order.len();
    while at > 0 && order[at - 1].priority < rule.priority
        invariant
            at <= order.len(),
            before == rule_views(order@),
            forall|k: int| at <= k < before.len() ==> (#[trigger] before[k]).priority < rule.priority,
        decreases at,
    {
        assert(before[at - 1] == order@[at - 1]@);
        at = at - 1;
    }
    proof {
        if at > 0 {
            assert(before[at - 1] == order@[at - 1]@);
        }
        lemma_rule_placed(before, rule@, at as int);
    }
    order.insert(at, rule);
    proof {
        assert(rule_views(order@) =~= before.insert(at as int, rule@));
    }
}

/// The rules that match a window, in evaluation order, up to and with the
/// first one that stops.
pub open spec fn matching(
    rules: Seq<CompiledRuleView>,
    facts: WindowFactsView,
) -> Seq<CompiledRuleView>
    decreases rules.len(),
{
    if rules.len() == 0 {
        seq![]
    } else if (rules[0].accepts)(facts) {
        if rules[0].stop {
            seq![rules[0]]
        } else {
            seq![rules[0]] + matching(rules.skip(1), facts)
        }
    } else {
        matching(rules.skip(1), facts)
    }
}

/// The rules behind a list of references.
pub open spec fn reference_views(rules: Seq<&CompiledRule>) -> Seq<CompiledRuleView> {
    Seq::new(rules.len(), |i: int| rules[i]@)
}

impl RuleSet {
    /// Compile a parsed [`RulesFile`]. Collects *all* problems instead of
    /// stopping at the first.
    pub fn compile(file: &RulesFile, registry: &MatcherRegistry) -> (r: Result<
        Self,
        Vec<RuleError>,
    >)
        ensures
            match (r, compilation(registry@, file@)) {
                (Ok(set), Ok(expected)) => set@ == expected,
                (Err(errors), Err(expected)) => errors.deep_view() == expected,
                _ => false,
            },
    {
        let ghost views = file.rules.deep_view();
        let mut errors: Vec<RuleError> = Vec::new();
        let mut rules: Vec<CompiledRule> = Vec::new();
        let mut i: usize = 0;
        proof {
            assert(errors.deep_view() =~= seq![]);
            assert(rule_views(rules@) =~= seq![]);
        }
        while i < file.rules.len()
            invariant
                i <= file.rules.len(),
                views == file.rules.deep_view(),
                errors.deep_view() == all_errors(registry@, views, i as int),
                rule_views(rules@) == in_order(registry@, views, i as int),
            decreases file.rules.len() - i,
        {
            let ghost before = errors.deep_view();
            match compile_rule(registry, &file.rules, i) {
                Ok(rule) => {
                    place_rule(&mut rules, rule);
                    proof {
                        assert(before + rule_errors(registry@, views, i as int) =~= before);
                    }
                },
                Err(mut found) => {
                    let ghost added = found.deep_view();
                    errors.append(&mut found);
                    proof {
                        assert(errors.deep_view() =~= before + added);
                    }
                },
            }
            i = i + 1;
        }
        if errors.len() > 0 {
            return Err(errors);
        }
        Ok(RuleSet { rules })
    }

    /// Rules matching the window, in evaluation order, up to and including
    /// the first `stop = true` match. The first element is the winning rule.
    pub fn matches<'a>(&'a self, facts: &WindowFacts) -> (r: Vec<&'a CompiledRule>)
        ensures
            reference_views(r@) == matching(self@, facts@),
    {
        let ghost all = rule_views(self.rules@);
        let mut out: Vec<&CompiledRule> = Vec::new();
        let mut i: usize = 0;
        proof {
            assert(all.skip(0) =~= all);
            assert(reference_views(out@) + matching(all, facts@) =~= matching(all, facts@));
        }
        while i < self.rules.len()
            invariant
                i <= self.rules.len(),
                all == rule_views(self.rules@),
                matching(all, facts@) == reference_views(out@) + matching(
                    all.skip(i as int),
                    facts@,
                ),
            decreases self.rules.len() - i,
        {
            let rule = &self.rules[i];
            let ghost before = reference_views(out@);
            proof {
                assert(all.skip(i as int)[0] == rule@);
                assert(all.skip(i as int).skip(1) =~= all.skip(i + 1));
            }
            if rule.matches(facts) {
                out.push(rule);
                proof {
                    assert(reference_views(out@) =~= before.push(rule@));
                    assert(before + seq![rule@] =~= reference_views(out@));
                    assert(before + (seq![rule@] + matching(all.skip(i + 1), facts@))
                        =~= reference_views(out@) + matching(all.skip(i + 1), facts@));
                }
                if rule.stop {
                    return out;
                }
            }
            i = i + 1;
        }
        proof {
            assert(reference_views(out@) + matching(all.skip(i as int), facts@)
                =~= reference_views(out@));
        }
        out
    }

    /// Number of compiled rules.
    pub fn len(&self) -> (r: usize)
        ensures
            r == self@.len(),
    {
        self.rules.len()
    }

    /// Whether no rules are loaded.
    pub fn is_empty(&self) -> (r: bool)
        ensures
            r == (self@.len() == 0),
    {
        self.rules.len() == 0
    }
}

// ---- laws -----------------------------------------------------------------------

/// Priorities never rise along an evaluation order.
pub open spec fn is_evaluation_order(order: Seq<CompiledRuleView>) -> bool {
    forall|i: int, j: int|
        0 <= i <= j < order.len() ==> (#[trigger] order[i]).priority >= (
        #[trigger] order[j]).priority
}

proof fn lemma_rule_placed_order(order: Seq<CompiledRuleView>, rule: CompiledRuleView)
    requires
        is_evaluation_order(order),
    ensures
        is_evaluation_order(rule_placed(order, rule)),
        rule_placed(order, rule).len() == order.len() + 1,
        forall|x: CompiledRuleView| #[trigger]
            rule_placed(order, rule).contains(x) <==> x == rule || order.contains(x),
    decreases order.len(),
{
    let all = rule_placed(order, rule);
    if order.len() > 0 && order.last().priority < rule.priority {
        let front = order.drop_last();
        lemma_rule_placed_order(front, rule);
        let inner = rule_placed(front, rule);
        assert forall|i: int, j: int| 0 <= i <= j < all.len() implies (#[trigger] all[i]).priority
            >= (#[trigger] all[j]).priority by {
            if j == inner.len() && i < inner.len() {
                assert(inner.contains(inner[i]));
                if inner[i] != rule {
                    let k = choose|k: int| 0 <= k < front.len() && front[k] == inner[i];
                    assert(order[k].priority >= order[order.len() - 1].priority);
                }
            }
        }
        assert forall|x: CompiledRuleView| #[trigger] all.contains(x) <==> x == rule
            || order.contains(x) by {
            if all.contains(x) {
                let k = choose|k: int| 0 <= k < all.len() && all[k] == x;
                if k < inner.len() {
                    assert(inner.contains(x));
                    if x != rule {
                        let m = choose|m: int| 0 <= m < front.len() && front[m] == x;
                        assert(order[m] == x);
                    }
                } else {
                    assert(order[order.len() - 1] == x);
                }
            }
            if x == rule || front.contains(x) {
                assert(inner.contains(x));
                let k = choose|k: int| 0 <= k < inner.len() && inner[k] == x;
                assert(all[k] == x);
            } else if order.contains(x) {
                let m = choose|m: int| 0 <= m < order.len() && order[m] == x;
                if m < front.len() {
                    assert(front[m] == x);
                } else {
                    assert(all[inner.len() as int] == x);
                }
            }
        }
    } else {
        assert forall|i: int, j: int| 0 <= i <= j < all.len() implies (#[trigger] all[i]).priority
            >= (#[trigger] all[j]).priority by {
            if j == order.len() && i < order.len() {
                assert(order[i].priority >= order[order.len() - 1].priority);
            }
        }
        assert forall|x: CompiledRuleView| #[trigger] all.contains(x) <==> x == rule
            || order.contains(x) by {
            if all.contains(x) {
                let k = choose|k: int| 0 <= k < all.len() && all[k] == x;
                if k < order.len() {
                    assert(order[k] == x);
                }
            }
            if order.contains(x) {
                let k = choose|k: int| 0 <= k < order.len() && order[k] == x;
                assert(all[k] == x);
            }
            if x == rule {
                assert(all[order.len() as int] == x);
            }
        }
    }
}

/// Higher priorities evaluate first, and every rule with nothing wrong with it
/// is evaluated.
pub proof fn law_rules_evaluate_by_priority(
    registry: Seq<Factory>,
    rules: Seq<RuleSpecView>,
    n: int,
)
    requires
        0 <= n <= rules.len(),
    ensures
        is_evaluation_order(in_order(registry, rules, n)),
        forall|i: int|
            0 <= i < n && rule_errors(registry, rules, i).len() == 0 ==> #[trigger] in_order(
                registry,
                rules,
                n,
            ).contains(compiled_rule(registry, rules[i])),
    decreases n,
{
    if n > 0 {
        law_rules_evaluate_by_priority(registry, rules, n - 1);
        let before = in_order(registry, rules, n - 1);
        let now = in_order(registry, rules, n);
        if rule_errors(registry, rules, n - 1).len() == 0 {
            lemma_rule_placed_order(before, compiled_rule(registry, rules[n - 1]));
        }
        assert forall|i: int|
            0 <= i < n && rule_errors(registry, rules, i).len() == 0 implies #[trigger] now.contains(
            compiled_rule(registry, rules[i])) by {
            if i < n - 1 {
                assert(before.contains(compiled_rule(registry, rules[i])));
            }
        }
    }
}

/// Among equal priorities file order stands: a rule goes after every rule of
/// its priority that was there before.
pub proof fn law_ties_keep_file_order(order: Seq<CompiledRuleView>, rule: CompiledRuleView)
    requires
        is_evaluation_order(order),
    ensures
        exists|at: int|
            0 <= at <= order.len() && rule_placed(order, rule) == #[trigger] order.insert(at, rule)
                && (forall|i: int| 0 <= i < at ==> (#[trigger] order[i]).priority >= rule.priority)
                && (forall|i: int|
                at <= i < order.len() ==> (#[trigger] order[i]).priority < rule.priority),
    decreases order.len(),
{
    if order.len() > 0 && order.last().priority < rule.priority {
        let front = order.drop_last();
        law_ties_keep_file_order(front, rule);
        let at = choose|at: int|
            0 <= at <= front.len() && rule_placed(front, rule) == #[trigger] front.insert(at, rule)
                && (forall|i: int| 0 <= i < at ==> (#[trigger] front[i]).priority >= rule.priority)
                && (forall|i: int|
                at <= i < front.len() ==> (#[trigger] front[i]).priority < rule.priority);
        assert(order.insert(at, rule) =~= front.insert(at, rule).push(order.last()));
        assert forall|i: int| 0 <= i < at implies (#[trigger] order[i]).priority
            >= rule.priority by {
            assert(front[i] == order[i]);
        }
        assert forall|i: int| at <= i < order.len() implies (#[trigger] order[i]).priority
            < rule.priority by {
            if i < front.len() {
                assert(front[i] == order[i]);
            }
        }
    } else {
        let at = order.len() as int;
        assert(order.insert(at, rule) =~= order.push(rule));
        assert forall|i: int| 0 <= i < at implies (#[trigger] order[i]).priority
            >= rule.priority by {
            assert(order[i].priority >= order[order.len() - 1].priority);
        }
    }
}

/// What matches is accepted, and nothing comes after a rule that stops.
pub proof fn law_matching_ends_at_stop(rules: Seq<CompiledRuleView>, facts: WindowFactsView)
    ensures
        forall|i: int|
            0 <= i < matching(rules, facts).len() ==> ((#[trigger] matching(
                rules,
                facts,
            )[i]).accepts)(facts),
        forall|i: int|
            0 <= i < matching(rules, facts).len() - 1 ==> !(#[trigger] matching(
                rules,
                facts,
            )[i]).stop,
    decreases rules.len(),
{
    if rules.len() > 0 {
        law_matching_ends_at_stop(rules.skip(1), facts);
        let rest = matching(rules.skip(1), facts);
        let all = matching(rules, facts);
        if (rules[0].accepts)(facts) && !rules[0].stop {
            assert forall|i: int| 0 <= i < all.len() implies ((#[trigger] all[i]).accepts)(
                facts,
            ) by {
                if i > 0 {
                    assert(all[i] == rest[i - 1]);
                }
            }
            assert forall|i: int| 0 <= i < all.len() - 1 implies !(#[trigger] all[i]).stop by {
                if i > 0 {
                    assert(all[i] == rest[i - 1]);
                }
            }
        }
    }
}

/// The winning rule is the first in evaluation order that accepts the window;
/// there is one exactly if some rule accepts it.
pub proof fn law_first_match_wins(rules: Seq<CompiledRuleView>, facts: WindowFactsView)
    ensures
        matching(rules, facts).len() > 0 <==> exists|i: int|
            0 <= i < rules.len() && ((#[trigger] rules[i]).accepts)(facts),
        matching(rules, facts).len() > 0 ==> exists|i: int|
            0 <= i < rules.len() && (#[trigger] rules[i]) == matching(rules, facts)[0] && (
            rules[i].accepts)(facts) && forall|j: int|
                0 <= j < i ==> !((#[trigger] rules[j]).accepts)(facts),
    decreases rules.len(),
{
    if rules.len() > 0 {
        let rest = rules.skip(1);
        law_first_match_wins(rest, facts);
        if (rules[0].accepts)(facts) {
            assert(matching(rules, facts)[0] == rules[0]);
        } else {
            if matching(rest, facts).len() > 0 {
                let i = choose|i: int|
                    0 <= i < rest.len() && (#[trigger] rest[i]) == matching(rest, facts)[0] && (
                    rest[i].accepts)(facts) && forall|j: int|
                        0 <= j < i ==> !((#[trigger] rest[j]).accepts)(facts);
                assert(rules[i + 1] == rest[i]);
                assert forall|j: int| 0 <= j < i + 1 implies !((#[trigger] rules[j]).accepts)(
                    facts,
                ) by {
                    if j > 0 {
                        assert(rest[j - 1] == rules[j]);
                    }
                }
            }
            if exists|i: int| 0 <= i < rules.len() && ((#[trigger] rules[i]).accepts)(facts) {
                let i = choose|i: int|
                    0 <= i < rules.len() && ((#[trigger] rules[i]).accepts)(facts);
                assert(rest[i - 1] == rules[i]);
            }
        }
    }
}

proof fn lemma_all_errors(
    registry: Seq<Factory>,
    rules: Seq<RuleSpecView>,
    n: int,
    i: int,
    e: int,
)
    requires
        0 <= i < n <= rules.len(),
        0 <= e < rule_errors(registry, rules, i).len(),
    ensures
        all_errors(registry, rules, n).contains(rule_errors(registry, rules, i)[e]),
    decreases n,
{
    let before = all_errors(registry, rules, n - 1);
    let here = rule_errors(registry, rules, n - 1);
    let all = all_errors(registry, rules, n);
    if i < n - 1 {
        lemma_all_errors(registry, rules, n - 1, i, e);
        let k = choose|k: int|
            0 <= k < before.len() && before[k] == rule_errors(registry, rules, i)[e];
        assert(all[k] == before[k]);
    } else {
        assert(all[before.len() + e] == here[e]);
    }
}

proof fn lemma_matcher_errors(
    registry: Seq<Factory>,
    rule: Seq<char>,
    items: Seq<(Seq<char>, MatcherSpecView)>,
    m: int,
)
    requires
        0 <= m < items.len(),
    ensures
        matcher_outcome(registry, rule, items[m]) matches Err(error) ==> matcher_errors(
            registry,
            rule,
            items,
        ).contains(error),
    decreases items.len(),
{
    if let Err(error) = matcher_outcome(registry, rule, items[m]) {
        let front = items.drop_last();
        let before = matcher_errors(registry, rule, front);
        let all = matcher_errors(registry, rule, items);
        if m < front.len() {
            lemma_matcher_errors(registry, rule, front, m);
            let k = choose|k: int| 0 <= k < before.len() && before[k] == error;
            assert(all[k] == error);
        } else {
            assert(all[before.len() as int] == error);
        }
    }
}

/// All problems are collected: whatever is wrong with a rule's name, number of
/// matchers, project, group and each of its matchers is reported, whatever else
/// is wrong with it or with other rules.
pub proof fn law_all_problems_are_collected(
    registry: Seq<Factory>,
    file: RulesFileView,
    i: int,
    m: int,
)
    requires
        0 <= i < file.rules.len(),
    ensures
        ({
            let spec = file.rules[i];
            let reported = |error: RuleErrorView|
                compilation(registry, file) matches Err(errors) && errors.contains(error);
            &&& repeats_name(file.rules, i) ==> reported(
                RuleErrorView::DuplicateName { name: spec.name },
            )
            &&& spec.matchers.len() == 0 ==> reported(
                RuleErrorView::NoMatchers { rule: spec.name },
            )
            &&& !is_slug(spec.project) ==> reported(
                RuleErrorView::BadSlug {
                    rule: spec.name,
                    source: ModelErrorView::InvalidSlug(spec.project),
                },
            )
            &&& (spec.group matches Some(group) && !is_slug(group)) ==> reported(
                RuleErrorView::BadSlug {
                    rule: spec.name,
                    source: ModelErrorView::InvalidSlug(spec.group->0),
                },
            )
            &&& 0 <= m < spec.matchers.len() ==> (matcher_outcome(
                registry,
                spec.name,
                spec.matchers[m],
            ) matches Err(error) ==> reported(error))
        }),
{
    let spec = file.rules[i];
    let n = file.rules.len() as int;
    let a = name_errors(file.rules, i);
    let b = empty_errors(spec);
    let c = slug_errors(spec.name, Some(spec.project));
    let d = slug_errors(spec.name, spec.group);
    let e = matcher_errors(registry, spec.name, spec.matchers);
    let all = rule_errors(registry, file.rules, i);
    if repeats_name(file.rules, i) {
        assert(all[0] == a[0]);
        lemma_all_errors(registry, file.rules, n, i, 0);
    }
    if b.len() > 0 {
        assert(all[a.len() as int] == b[0]);
        lemma_all_errors(registry, file.rules, n, i, a.len() as int);
    }
    if c.len() > 0 {
        let at = (a.len() + b.len()) as int;
        assert(all[at] == c[0]);
        lemma_all_errors(registry, file.rules, n, i, at);
    }
    if d.len() > 0 {
        let at = (a.len() + b.len() + c.len()) as int;
        assert(all[at] == d[0]);
        lemma_all_errors(registry, file.rules, n, i, at);
    }
    if 0 <= m < spec.matchers.len() {
        lemma_matcher_errors(registry, spec.name, spec.matchers, m);
        if let Err(error) = matcher_outcome(registry, spec.name, spec.matchers[m]) {
            let k = choose|k: int| 0 <= k < e.len() && e[k] == error;
            let at = (a.len() + b.len() + c.len() + d.len()) as int + k;
            assert(all[at] == e[k]);
            lemma_all_errors(registry, file.rules, n, i, at);
        }
    }
}

/// A file without rules is valid, and matches nothing.
pub proof fn law_empty_file_is_valid(
    registry: Seq<Factory>,
    version: Option<u32>,
    facts: WindowFactsView,
)
    ensures
        compilation(registry, (RulesFileView { version, rules: seq![] })) == Ok::<
            Seq<CompiledRuleView>,
            Seq<RuleErrorView>,
        >(seq![]),
        matching(seq![], facts) == Seq::<CompiledRuleView>::empty(),
{
}

/// Whether a value is what a matcher asks for: equal to a text, holding it, or
/// matching a pattern; letter case counts only where that is said.
pub open spec fn is_asked_for(spec: MatcherSpecView, value: Seq<char>) -> bool {
    &&& spec.equals matches Some(needle) ==> if spec.case_sensitive {
        value == needle
    } else {
        unicode_lowercase(value) == unicode_lowercase(needle)
    }
    &&& spec.contains matches Some(needle) ==> if spec.case_sensitive {
        holds(value, needle)
    } else {
        holds(unicode_lowercase(value), unicode_lowercase(needle))
    }
    &&& spec.regex matches Some(pattern) ==> regex_search(pattern, value) == Some(true)
}

/// Whether a window has what a matcher asks for in the field that its key
/// names. A window whose executable is not known has none.
pub open spec fn has_asked_for(key: Seq<char>, spec: MatcherSpecView, facts: WindowFactsView) -> bool {
    if key == "class"@ {
        is_asked_for(spec, facts.class)
    } else if key == "initial_class"@ {
        is_asked_for(spec, facts.initial_class)
    } else if key == "title"@ {
        is_asked_for(spec, facts.title)
    } else {
        key == "executable"@ && facts.executable is Some && is_asked_for(
            spec,
            facts.executable->0,
        )
    }
}

/// Whether a rule does what it says: under its name, with its priority, for its
/// project and group, stopping or not, and for exactly those windows that have
/// what every one of its matchers asks for.
pub open spec fn does_as_written(rule: CompiledRuleView, spec: RuleSpecView) -> bool {
    &&& rule.name == spec.name
    &&& rule.priority == spec.priority
    &&& rule.project == spec.project
    &&& rule.group == spec.group
    &&& rule.stop == spec.stop
    &&& forall|facts: WindowFactsView| #[trigger]
        (rule.accepts)(facts) <==> forall|m: int|
            0 <= m < spec.matchers.len() ==> has_asked_for(
                (#[trigger] spec.matchers[m]).0,
                spec.matchers[m].1,
                facts,
            )
}

proof fn lemma_builtin(key: Seq<char>)
    ensures
        key == "class"@ ==> factory_at(builtin_factories(), key, 0) == Some(0int),
        key == "initial_class"@ ==> factory_at(builtin_factories(), key, 0) == Some(1int),
        key == "title"@ ==> factory_at(builtin_factories(), key, 0) == Some(2int),
        key == "executable"@ ==> factory_at(builtin_factories(), key, 0) == Some(3int),
        key != "class"@ && key != "initial_class"@ && key != "title"@ && key != "executable"@
            ==> factory_at(builtin_factories(), key, 0) is None,
        builtin_factories().len() == 4,
        builtin_factories()[0] == field_factory(Field::Class),
        builtin_factories()[1] == field_factory(Field::InitialClass),
        builtin_factories()[2] == field_factory(Field::Title),
        builtin_factories()[3] == field_factory(Field::Executable),
        "class"@ != "initial_class"@,
        "class"@ != "title"@,
        "class"@ != "executable"@,
        "initial_class"@ != "title"@,
        "initial_class"@ != "executable"@,
        "title"@ != "executable"@,
{
    reveal_strlit("class");
    reveal_strlit("initial_class");
    reveal_strlit("title");
    reveal_strlit("executable");
    assert("class"@[0] == 'c' && "title"@[0] == 't');
    assert("class"@.len() == 5 && "title"@.len() == 5);
    assert("initial_class"@.len() == 13 && "executable"@.len() == 10);
    assert("initial_class"@ != "executable"@ && "title"@ != "executable"@);
    reveal_with_fuel(factory_at, 6);
    let none: Seq<Factory> = seq![];
    let one = registered(none, field_factory(Field::Class));
    assert(one =~= seq![field_factory(Field::Class)]);
    let two = registered(one, field_factory(Field::InitialClass));
    assert(two =~= seq![field_factory(Field::Class), field_factory(Field::InitialClass)]);
    let three = registered(two, field_factory(Field::Title));
    assert(three =~= seq![
        field_factory(Field::Class),
        field_factory(Field::InitialClass),
        field_factory(Field::Title),
    ]);
    let last = "executable"@;
    assert(three[0].key == "class"@ && three[1].key == "initial_class"@ && three[2].key
        == "title"@);
    assert(factory_at(three, last, 3) is None);
    assert(factory_at(three, last, 2) is None);
    assert(factory_at(three, last, 1) is None);
    assert(factory_at(three, last, 0) is None);
    let four = registered(three, field_factory(Field::Executable));
    assert(four =~= seq![
        field_factory(Field::Class),
        field_factory(Field::InitialClass),
        field_factory(Field::Title),
        field_factory(Field::Executable),
    ]);
}

proof fn lemma_matcher_asks(
    rule: Seq<char>,
    item: (Seq<char>, MatcherSpecView),
    facts: WindowFactsView,
)
    requires
        matcher_outcome(builtin_factories(), rule, item) is Ok,
    ensures
        (matcher_outcome(builtin_factories(), rule, item)->Ok_0)(facts) <==> has_asked_for(
            item.0,
            item.1,
            facts,
        ),
{
    lemma_builtin(item.0);
}

proof fn lemma_no_matcher_errors(
    registry: Seq<Factory>,
    rule: Seq<char>,
    items: Seq<(Seq<char>, MatcherSpecView)>,
    m: int,
)
    requires
        matcher_errors(registry, rule, items).len() == 0,
        0 <= m < items.len(),
    ensures
        matcher_outcome(registry, rule, items[m]) is Ok,
    decreases items.len(),
{
    if m < items.len() - 1 {
        lemma_no_matcher_errors(registry, rule, items.drop_last(), m);
    }
}

proof fn lemma_no_errors(registry: Seq<Factory>, rules: Seq<RuleSpecView>, n: int, i: int)
    requires
        0 <= i < n <= rules.len(),
        all_errors(registry, rules, n).len() == 0,
    ensures
        rule_errors(registry, rules, i).len() == 0,
    decreases n,
{
    if i < n - 1 {
        lemma_no_errors(registry, rules, n - 1, i);
    }
}

/// Every rule of a file that compiles is evaluated and does as it is written.
pub proof fn law_rules_do_as_written(
    file: RulesFileView,
    rules: Seq<CompiledRuleView>,
    i: int,
)
    requires
        compilation(builtin_factories(), file) == Ok::<Seq<CompiledRuleView>, Seq<RuleErrorView>>(
            rules,
        ),
        0 <= i < file.rules.len(),
    ensures
        exists|k: int| 0 <= k < rules.len() && does_as_written(#[trigger] rules[k], file.rules[i]),
{
    let registry = builtin_factories();
    let n = file.rules.len() as int;
    let spec = file.rules[i];
    lemma_no_errors(registry, file.rules, n, i);
    law_rules_evaluate_by_priority(registry, file.rules, n);
    let rule = compiled_rule(registry, spec);
    assert(rules.contains(rule));
    let k = choose|k: int| 0 <= k < rules.len() && rules[k] == rule;
    assert(matcher_errors(registry, spec.name, spec.matchers).len() == 0);
    assert forall|facts: WindowFactsView| #[trigger] (rule.accepts)(facts) <==> forall|m: int|
        0 <= m < spec.matchers.len() ==> has_asked_for(
            (#[trigger] spec.matchers[m]).0,
            spec.matchers[m].1,
            facts,
        ) by {
        assert forall|m: int| 0 <= m < spec.matchers.len() implies (matcher_outcome(
            registry,
            spec.name,
            #[trigger] spec.matchers[m],
        )->Ok_0)(facts) == has_asked_for(spec.matchers[m].0, spec.matchers[m].1, facts) by {
            lemma_no_matcher_errors(registry, spec.name, spec.matchers, m);
            lemma_matcher_asks(spec.name, spec.matchers[m], facts);
        }
    }
    assert(does_as_written(rules[k], spec));
}

/// Every rule that accepts a window counts as a match, up to the first such
/// rule that stops, and none behind it.
pub proof fn law_every_match_counts(rules: Seq<CompiledRuleView>, facts: WindowFactsView, i: int)
    requires
        0 <= i < rules.len(),
        (rules[i].accepts)(facts),
        forall|j: int|
            0 <= j < i ==> !(((#[trigger] rules[j]).accepts)(facts) && rules[j].stop),
    ensures
        matching(rules, facts).contains(rules[i]),
        rules[i].stop ==> matching(rules, facts).last() == rules[i],
    decreases rules.len(),
{
    let rest = rules.skip(1);
    let all = matching(rules, facts);
    if i == 0 {
        assert(all[0] == rules[0]);
    } else {
        assert(rest[i - 1] == rules[i]);
        assert forall|j: int| 0 <= j < i - 1 implies !(((#[trigger] rest[j]).accepts)(facts)
            && rest[j].stop) by {
            assert(rest[j] == rules[j + 1]);
        }
        law_every_match_counts(rest, facts, i - 1);
        let less = matching(rest, facts);
        let k = choose|k: int| 0 <= k < less.len() && less[k] == rules[i];
        assert(!((rules[0].accepts)(facts) && rules[0].stop));
        if (rules[0].accepts)(facts) {
            assert(all =~= seq![rules[0]] + less);
            assert(all[k + 1] == rules[i]);
            assert(all.last() == less.last());
        } else {
            assert(all == less);
            assert(all[k] == rules[i]);
        }
    }
}

} // verus!
