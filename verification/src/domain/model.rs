//! Domain entities: projects, groups, app slots, window identity, and launch
//! specifications.

use vstd::prelude::*;

use crate::outside::{id_text, quote, random_id};
use crate::outside::{hyphenated, quoted};
use crate::text::{chars, decimal_digit, lower_char, lowercase_letter, text};
use crate::text::{is_digit, is_lower, is_upper, lower, lowered};

verus! {

// ---- ids --------------------------------------------------------------------

/// Stable identifier for a project. Survives renames; slugs may change.
#[derive(Debug, Clone, Copy, PartialEq, Eq, Structural, Hash)]
pub struct ProjectId(pub u128);

impl DeepView for ProjectId {
    type V = ProjectId;

    open spec fn deep_view(&self) -> ProjectId {
        *self
    }
}

/// Whether an id has the shape of a random one: version 4, variant 1.
pub open spec fn is_random_id(id: u128) -> bool {
    &&& (id >> 76u128) & 0xfu128 == 4
    &&& (id >> 62u128) & 0x3u128 == 2
}

impl ProjectId {
    /// Generate a fresh random id.
    pub fn new() -> (r: Self)
        ensures
            is_random_id(r.0),
    {
        ProjectId(random_id())
    }

    /// The id in hyphenated hexadecimal.
    pub fn text(&self) -> (r: String)
        ensures
            r@ == hyphenated(self.0),
    {
        id_text(self.0)
    }
}

impl Default for ProjectId {
    fn default() -> (r: Self)
        ensures
            is_random_id(r.0),
    {
        Self::new()
    }
}

// ---- slugs ------------------------------------------------------------------

/// Errors produced when validating model values.
#[derive(Debug, PartialEq, Eq)]
pub enum ModelError {
    /// The slug was empty or contained characters outside `[a-z0-9-]`.
    InvalidSlug(String),
}

/// What a [`ModelError`] says.
pub enum ModelErrorView {
    /// See [`ModelError::InvalidSlug`].
    InvalidSlug(Seq<char>),
}

impl View for ModelError {
    type V = ModelErrorView;

    open spec fn view(&self) -> ModelErrorView {
        match self {
            ModelError::InvalidSlug(s) => ModelErrorView::InvalidSlug(s@),
        }
    }
}

impl ModelErrorView {
    /// The message of the error.
    pub open spec fn message(self) -> Seq<char> {
        match self {
            ModelErrorView::InvalidSlug(s) => "invalid slug "@ + quoted(s)
                + ": must be non-empty, lowercase [a-z0-9-], and not start or end with '-'"@,
        }
    }
}

impl ModelError {
    /// The message of the error.
    pub fn message(&self) -> (r: String)
        ensures
            r@ == self@.message(),
    {
        match self {
            ModelError::InvalidSlug(s) => {
                let mut out = "invalid slug ".to_owned();
                out.append(quote(s.as_str()).as_str());
                out.append(
                    ": must be non-empty, lowercase [a-z0-9-], and not start or end with '-'",
                );
                out
            },
        }
    }
}

/// A character that may stand in a slug.
pub open spec fn is_slug_char(c: char) -> bool {
    is_lower(c) || is_digit(c) || c == '-'
}

/// A valid slug: not empty, of lowercase letters, digits and hyphens, with no
/// hyphen at either end.
pub open spec fn is_slug(s: Seq<char>) -> bool {
    &&& s.len() > 0
    &&& s[0] != '-'
    &&& s.last() != '-'
    &&& forall|i: int| 0 <= i < s.len() ==> is_slug_char(#[trigger] s[i])
}

/// A URL-safe short name: lowercase ASCII letters, digits, and hyphens.
///
/// Slugs name projects and groups on the wire, in file names, and in
/// Hyprland named workspaces (`name:<slug>`), so validation is strict.
#[derive(Debug, PartialEq, Eq, Hash, PartialOrd, Ord)]
pub struct Slug(String);

impl View for Slug {
    type V = Seq<char>;

    closed spec fn view(&self) -> Seq<char> {
        self.0@
    }
}

impl DeepView for Slug {
    type V = Seq<char>;

    open spec fn deep_view(&self) -> Seq<char> {
        self.view()
    }
}

impl Clone for Slug {
    fn clone(&self) -> (r: Self)
        ensures
            r@ == self@,
    {
        proof {
            use_type_invariant(self);
        }
        Slug(self.0.clone())
    }
}

/// The slug characters of a display name: letters in lowercase, digits, and a
/// hyphen for each run of anything else that follows one of those.
pub open spec fn slug_chars(name: Seq<char>) -> Seq<char>
    decreases name.len(),
{
    if name.len() == 0 {
        seq![]
    } else {
        let before = slug_chars(name.drop_last());
        let c = lower(name.last());
        if is_lower(c) || is_digit(c) {
            before.push(c)
        } else if before.len() > 0 && before.last() != '-' {
            before.push('-')
        } else {
            before
        }
    }
}

/// The slug of a display name, or nothing if the name has no letter or digit.
pub open spec fn slug_of(name: Seq<char>) -> Option<Seq<char>> {
    let s = slug_chars(name);
    if s.len() == 0 {
        None
    } else if s.last() == '-' {
        Some(s.drop_last())
    } else {
        Some(s)
    }
}

/// The shape of the slug characters of a name.
proof fn lemma_slug_chars(name: Seq<char>)
    ensures
        forall|i: int|
            0 <= i < slug_chars(name).len() ==> is_slug_char(#[trigger] slug_chars(name)[i]),
        slug_chars(name).len() > 0 ==> slug_chars(name)[0] != '-',
        forall|i: int|
            0 < i < slug_chars(name).len() ==> !(slug_chars(name)[i - 1] == '-'
                && #[trigger] slug_chars(name)[i] == '-'),
    decreases name.len(),
{
    if name.len() > 0 {
        lemma_slug_chars(name.drop_last());
    }
}

/// Whatever slug a display name has is a valid one.
pub proof fn law_slug_of_is_slug(name: Seq<char>)
    ensures
        slug_of(name) matches Some(s) ==> is_slug(s),
{
    lemma_slug_chars(name);
}

/// A valid slug is the slug of itself.
pub proof fn law_slug_of_slug(s: Seq<char>)
    requires
        is_slug(s),
        forall|i: int| 0 < i < s.len() ==> !(s[i - 1] == '-' && #[trigger] s[i] == '-'),
    ensures
        slug_of(s) == Some(s),
{
    lemma_slug_chars_of_slug(s, s.len() as int);
    assert(s.take(s.len() as int) =~= s);
}

proof fn lemma_slug_chars_of_slug(s: Seq<char>, n: int)
    requires
        is_slug(s),
        0 <= n <= s.len(),
        forall|i: int| 0 < i < s.len() ==> !(s[i - 1] == '-' && #[trigger] s[i] == '-'),
    ensures
        slug_chars(s.take(n)) == s.take(n),
    decreases n,
{
    if n > 0 {
        lemma_slug_chars_of_slug(s, n - 1);
        assert(s.take(n).drop_last() =~= s.take(n - 1));
        assert(is_slug_char(s[n - 1]));
        assert(s.take(n) =~= s.take(n - 1).push(s[n - 1]));
        if s[n - 1] == '-' {
            assert(n > 1);
        }
    } else {
        assert(s.take(0) =~= seq![]);
    }
}

/// The slug of a display name is the slug of itself.
pub proof fn law_slug_of_idempotent(name: Seq<char>)
    ensures
        slug_of(name) matches Some(s) ==> slug_of(s) == Some(s),
{
    lemma_slug_chars(name);
    if let Some(s) = slug_of(name) {
        let all = slug_chars(name);
        assert forall|i: int| 0 < i < s.len() implies !(s[i - 1] == '-' && #[trigger] s[i]
            == '-') by {
            assert(all[i] == s[i] && all[i - 1] == s[i - 1]);
        }
        law_slug_of_is_slug(name);
        law_slug_of_slug(s);
    }
}

/// A display name has a slug exactly if some character of it is a letter or a
/// digit.
pub proof fn law_slug_of_exists(name: Seq<char>)
    ensures
        slug_of(name) is Some <==> exists|i: int|
            0 <= i < name.len() && (is_lower(lower(#[trigger] name[i])) || is_digit(
                lower(name[i]),
            )),
    decreases name.len(),
{
    if name.len() > 0 {
        let before = name.drop_last();
        law_slug_of_exists(before);
        if slug_of(before) is Some {
            let i = choose|i: int|
                0 <= i < before.len() && (is_lower(lower(#[trigger] before[i])) || is_digit(
                    lower(before[i]),
                ));
            assert(name[i] == before[i]);
        } else if slug_of(name) is Some {
            assert(name[name.len() - 1] == name.last());
        } else {
            assert forall|i: int| 0 <= i < name.len() implies !(is_lower(
                lower(#[trigger] name[i]),
            ) || is_digit(lower(name[i]))) by {
                if i < before.len() {
                    assert(before[i] == name[i]);
                }
            }
        }
    }
}

impl Slug {
    #[verifier::type_invariant]
    spec fn valid(self) -> bool {
        is_slug(self.0@)
    }

    /// Validate `s` as a slug without transforming it.
    pub fn parse(s: &str) -> (r: Result<Self, ModelError>)
        ensures
            r is Ok <==> is_slug(s@),
            r matches Ok(slug) ==> slug@ == s@,
            r matches Err(e) ==> e@ == ModelErrorView::InvalidSlug(s@),
    {
        let v = chars(s);
        let mut valid = v.len() > 0 && v[0] != '-' && v[v.len() - 1] != '-';
        let mut i: usize = 0;
        while i < v.len()
            invariant
                i <= v.len(),
                v@ == s@,
                valid <==> (v.len() > 0 && v@[0] != '-' && v@.last() != '-' && forall|j: int|
                    0 <= j < i ==> is_slug_char(#[trigger] v@[j])),
            decreases v.len() - i,
        {
            let c = v[i];
            if !(lowercase_letter(c) || decimal_digit(c) || c == '-') {
                assert(!is_slug_char(v@[i as int]));
                valid = false;
            }
            i = i + 1;
        }
        if valid {
            Ok(Slug(s.to_owned()))
        } else {
            Err(ModelError::InvalidSlug(s.to_owned()))
        }
    }

    /// Derive a slug from a free-form display name ("Web Development" → `web-development`).
    ///
    /// Returns an error only when the name contains no usable characters at all.
    pub fn from_display_name(name: &str) -> (r: Result<Self, ModelError>)
        ensures
            r matches Ok(slug) ==> slug_of(name@) == Some(slug@),
            r matches Err(e) ==> slug_of(name@) is None && e@ == ModelErrorView::InvalidSlug(
                name@,
            ),
    {
        let v = chars(name);
        let mut out: Vec<char> = Vec::new();
        let mut last_was_hyphen = true;
        let mut i: usize = 0;
        while i < v.len()
            invariant
                i <= v.len(),
                v@ == name@,
                out@ == slug_chars(v@.take(i as int)),
                last_was_hyphen == (out.len() == 0 || out@.last() == '-'),
            decreases v.len() - i,
        {
            let c = lower_char(v[i]);
            proof {
                assert(v@.take(i + 1).drop_last() =~= v@.take(i as int));
                assert(v@.take(i + 1).last() == v@[i as int]);
            }
            if lowercase_letter(c) || decimal_digit(c) {
                out.push(c);
                last_was_hyphen = false;
            } else if !last_was_hyphen {
                out.push('-');
                last_was_hyphen = true;
            }
            i = i + 1;
        }
        proof {
            assert(v@.take(i as int) =~= name@);
            law_slug_of_is_slug(name@);
        }
        if out.len() == 0 {
            return Err(ModelError::InvalidSlug(name.to_owned()));
        }
        if out[out.len() - 1] == '-' {
            let ghost before = out@;
            out.pop();
            proof {
                assert(out@ =~= before.drop_last());
            }
        }
        Ok(Slug(text(&out)))
    }

    /// The slug as a string slice.
    pub fn as_str(&self) -> (r: &str)
        ensures
            r@ == self@,
            is_slug(r@),
    {
        proof {
            use_type_invariant(self);
        }
        self.0.as_str()
    }
}

// ---- launching ----------------------------------------------------------------

/// How to detect that a launched slot is ready.
#[derive(Debug, PartialEq)]
pub enum Readiness {
    /// Ready when a window matching the slot's identity appears (default).
    Window,
    /// Ready immediately after spawn (plus `startup_delay_ms`).
    Delay,
    /// Ready when a probe command exits 0, polled at `interval_ms`.
    Command {
        /// The probe command (run via the shell).
        cmd: String,
        /// Poll interval in milliseconds.
        interval_ms: u64,
    },
}

/// What a [`Readiness`] holds.
pub enum ReadinessView {
    /// See [`Readiness::Window`].
    Window,
    /// See [`Readiness::Delay`].
    Delay,
    /// See [`Readiness::Command`].
    Command {
        /// The probe command.
        cmd: Seq<char>,
        /// Poll interval in milliseconds.
        interval_ms: u64,
    },
}

impl View for Readiness {
    type V = ReadinessView;

    open spec fn view(&self) -> ReadinessView {
        match self {
            Readiness::Window => ReadinessView::Window,
            Readiness::Delay => ReadinessView::Delay,
            Readiness::Command { cmd, interval_ms } => ReadinessView::Command {
                cmd: cmd@,
                interval_ms: *interval_ms,
            },
        }
    }
}

impl DeepView for Readiness {
    type V = ReadinessView;

    open spec fn deep_view(&self) -> ReadinessView {
        self.view()
    }
}

impl Clone for Readiness {
    fn clone(&self) -> (r: Self)
        ensures
            r@ == self@,
    {
        match self {
            Readiness::Window => Readiness::Window,
            Readiness::Delay => Readiness::Delay,
            Readiness::Command { cmd, interval_ms } => Readiness::Command {
                cmd: cmd.clone(),
                interval_ms: *interval_ms,
            },
        }
    }
}

impl Default for Readiness {
    fn default() -> (r: Self)
        ensures
            r@ == ReadinessView::Window,
    {
        Readiness::Window
    }
}

/// How often a readiness probe is polled unless its slot says otherwise.
pub fn default_probe_interval() -> (r: u64)
    ensures
        r == 500,
{
    500
}

/// A copy of a list of pairs.
fn clone_pairs(pairs: &Vec<(String, String)>) -> (r: Vec<(String, String)>)
    ensures
        r.deep_view() == pairs.deep_view(),
{
    let mut out: Vec<(String, String)> = Vec::new();
    let mut i: usize = 0;
    while i < pairs.len()
        invariant
            i <= pairs.len(),
            out.deep_view() == pairs.deep_view().take(i as int),
        decreases pairs.len() - i,
    {
        let ghost before = out.deep_view();
        let pair = (pairs[i].0.clone(), pairs[i].1.clone());
        out.push(pair);
        proof {
            assert(out.deep_view() =~= before.push(pairs.deep_view()[i as int]));
        }
        i = i + 1;
    }
    proof {
        assert(pairs.deep_view().take(i as int) =~= pairs.deep_view());
    }
    out
}

/// How to launch a slot's application.
#[derive(Debug, PartialEq)]
pub struct LaunchSpec {
    /// Executable or command line.
    pub command: String,
    /// Arguments appended to the command.
    pub args: Vec<String>,
    /// Extra environment variables, in ascending order of their names.
    pub env: Vec<(String, String)>,
    /// Working directory (`~` expanded at launch time).
    pub workdir: Option<String>,
    /// Slot names that must be ready before this one launches.
    pub after: Vec<String>,
    /// Extra wait after readiness before dependents may start.
    pub startup_delay_ms: u64,
    /// Readiness timeout; the daemon's default applies when `None`.
    pub timeout_ms: Option<u64>,
    /// Readiness detection.
    pub readiness: Readiness,
    /// A windowless dependency (database, docker): spawned directly, never
    /// matched to a window, started but not supervised.
    pub service: bool,
}

/// What a [`LaunchSpec`] holds.
#[verifier::ext_equal]
pub struct LaunchSpecView {
    /// See [`LaunchSpec::command`].
    pub command: Seq<char>,
    /// See [`LaunchSpec::args`].
    pub args: Seq<Seq<char>>,
    /// See [`LaunchSpec::env`].
    pub env: Seq<(Seq<char>, Seq<char>)>,
    /// See [`LaunchSpec::workdir`].
    pub workdir: Option<Seq<char>>,
    /// See [`LaunchSpec::after`].
    pub after: Seq<Seq<char>>,
    /// See [`LaunchSpec::startup_delay_ms`].
    pub startup_delay_ms: u64,
    /// See [`LaunchSpec::timeout_ms`].
    pub timeout_ms: Option<u64>,
    /// See [`LaunchSpec::readiness`].
    pub readiness: ReadinessView,
    /// See [`LaunchSpec::service`].
    pub service: bool,
}

impl View for LaunchSpec {
    type V = LaunchSpecView;

    open spec fn view(&self) -> LaunchSpecView {
        LaunchSpecView {
            command: self.command.deep_view(),
            args: self.args.deep_view(),
            env: self.env.deep_view(),
            workdir: self.workdir.deep_view(),
            after: self.after.deep_view(),
            startup_delay_ms: self.startup_delay_ms,
            timeout_ms: self.timeout_ms,
            readiness: self.readiness.deep_view(),
            service: self.service,
        }
    }
}

impl DeepView for LaunchSpec {
    type V = LaunchSpecView;

    open spec fn deep_view(&self) -> LaunchSpecView {
        self.view()
    }
}

impl Clone for LaunchSpec {
    fn clone(&self) -> (r: Self)
        ensures
            r@ == self@,
    {
        let r = LaunchSpec {
            command: self.command.clone(),
            args: self.args.clone(),
            env: clone_pairs(&self.env),
            workdir: self.workdir.clone(),
            after: self.after.clone(),
            startup_delay_ms: self.startup_delay_ms,
            timeout_ms: self.timeout_ms,
            readiness: self.readiness.clone(),
            service: self.service,
        };
        proof {
            assert(r.args.deep_view() =~= self.args.deep_view());
            assert(r.after.deep_view() =~= self.after.deep_view());
        }
        r
    }
}

/// Criteria for matching a persisted slot to a live window across reboots.
///
/// Matching is scored: executable path is the strongest signal, then class,
/// then initial class, with title patterns as a tie-breaker only.
#[derive(Debug, PartialEq)]
pub struct WindowIdentity {
    /// Exact window class (e.g. `firefox`).
    pub class: Option<String>,
    /// Exact initial class, as reported when the window first mapped.
    pub initial_class: Option<String>,
    /// Absolute path of the process executable, resolved from `/proc/<pid>/exe`.
    pub executable: Option<String>,
    /// Regex matched against the window title; tie-breaker only.
    pub title_pattern: Option<String>,
}

/// What a [`WindowIdentity`] holds.
#[verifier::ext_equal]
pub struct WindowIdentityView {
    /// See [`WindowIdentity::class`].
    pub class: Option<Seq<char>>,
    /// See [`WindowIdentity::initial_class`].
    pub initial_class: Option<Seq<char>>,
    /// See [`WindowIdentity::executable`].
    pub executable: Option<Seq<char>>,
    /// See [`WindowIdentity::title_pattern`].
    pub title_pattern: Option<Seq<char>>,
}

impl View for WindowIdentity {
    type V = WindowIdentityView;

    open spec fn view(&self) -> WindowIdentityView {
        WindowIdentityView {
            class: self.class.deep_view(),
            initial_class: self.initial_class.deep_view(),
            executable: self.executable.deep_view(),
            title_pattern: self.title_pattern.deep_view(),
        }
    }
}

impl DeepView for WindowIdentity {
    type V = WindowIdentityView;

    open spec fn deep_view(&self) -> WindowIdentityView {
        self.view()
    }
}

impl Clone for WindowIdentity {
    fn clone(&self) -> (r: Self)
        ensures
            r@ == self@,
    {
        let r = WindowIdentity {
            class: self.class.clone(),
            initial_class: self.initial_class.clone(),
            executable: self.executable.clone(),
            title_pattern: self.title_pattern.clone(),
        };
        r
    }
}

/// Desired placement for a window when restored.
#[derive(Debug, PartialEq)]
pub struct Placement {
    /// Whether the window should float.
    pub floating: bool,
    /// Captured position of the top-left corner. Floating windows are moved
    /// here exactly; tiled windows are swapped toward it in the layout.
    pub position: Option<(i32, i32)>,
    /// Captured size in pixels. Applied exactly to floating windows; for
    /// tiled windows it scales the layout-matching tolerance, and the layout
    /// is resized towards it.
    pub size: Option<(i32, i32)>,
    /// Fullscreen mode: 0 = none, 1 = maximize, 2 = fullscreen (Hyprland semantics).
    pub fullscreen: u8,
    /// Preferred monitor by output name; overrides the project preference.
    pub monitor: Option<String>,
}

/// What a [`Placement`] holds.
#[verifier::ext_equal]
pub struct PlacementView {
    /// See [`Placement::floating`].
    pub floating: bool,
    /// See [`Placement::position`].
    pub position: Option<(i32, i32)>,
    /// See [`Placement::size`].
    pub size: Option<(i32, i32)>,
    /// See [`Placement::fullscreen`].
    pub fullscreen: u8,
    /// See [`Placement::monitor`].
    pub monitor: Option<Seq<char>>,
}

impl View for Placement {
    type V = PlacementView;

    open spec fn view(&self) -> PlacementView {
        PlacementView {
            floating: self.floating,
            position: self.position,
            size: self.size,
            fullscreen: self.fullscreen,
            monitor: self.monitor.deep_view(),
        }
    }
}

impl DeepView for Placement {
    type V = PlacementView;

    open spec fn deep_view(&self) -> PlacementView {
        self.view()
    }
}

impl Clone for Placement {
    fn clone(&self) -> (r: Self)
        ensures
            r@ == self@,
    {
        let r = Placement {
            floating: self.floating,
            position: self.position,
            size: self.size,
            fullscreen: self.fullscreen,
            monitor: self.monitor.clone(),
        };
        r
    }
}

// ---- projects -----------------------------------------------------------------

/// A named group of windows inside a project (e.g. "backend", "frontend").
#[derive(Debug, PartialEq)]
pub struct Group {
    /// Group slug, unique within its project.
    pub slug: Slug,
    /// Display name.
    pub name: String,
    /// Whether the group's windows are currently parked off the primary workspace.
    pub hidden: bool,
}

/// What a [`Group`] holds.
#[verifier::ext_equal]
pub struct GroupView {
    /// See [`Group::slug`].
    pub slug: Seq<char>,
    /// See [`Group::name`].
    pub name: Seq<char>,
    /// See [`Group::hidden`].
    pub hidden: bool,
}

impl View for Group {
    type V = GroupView;

    open spec fn view(&self) -> GroupView {
        GroupView {
            slug: self.slug.deep_view(),
            name: self.name.deep_view(),
            hidden: self.hidden,
        }
    }
}

impl DeepView for Group {
    type V = GroupView;

    open spec fn deep_view(&self) -> GroupView {
        self.view()
    }
}

impl Clone for Group {
    fn clone(&self) -> (r: Self)
        ensures
            r@ == self@,
    {
        let r = Group {
            slug: self.slug.clone(),
            name: self.name.clone(),
            hidden: self.hidden,
        };
        r
    }
}

/// One desired window in a project: how to recognize it, how to place it,
/// and (optionally) how to launch it.
#[derive(Debug, PartialEq)]
pub struct AppSlot {
    /// Stable slot identity, referenced by restore progress.
    pub slot_id: u128,
    /// Optional human name, unique within the project; launch dependencies
    /// (`after = [...]`) refer to slots by this name.
    pub name: Option<String>,
    /// How to match this slot to a live window.
    pub identity: WindowIdentity,
    /// How to (re)create the window when it is missing.
    pub launch: Option<LaunchSpec>,
    /// Group this slot belongs to; `None` means the project's primary group.
    pub group: Option<Slug>,
    /// Desired placement (floating geometry, fullscreen, monitor).
    pub placement: Placement,
}

/// What a [`AppSlot`] holds.
#[verifier::ext_equal]
pub struct AppSlotView {
    /// See [`AppSlot::slot_id`].
    pub slot_id: u128,
    /// See [`AppSlot::name`].
    pub name: Option<Seq<char>>,
    /// See [`AppSlot::identity`].
    pub identity: WindowIdentityView,
    /// See [`AppSlot::launch`].
    pub launch: Option<LaunchSpecView>,
    /// See [`AppSlot::group`].
    pub group: Option<Seq<char>>,
    /// See [`AppSlot::placement`].
    pub placement: PlacementView,
}

impl View for AppSlot {
    type V = AppSlotView;

    open spec fn view(&self) -> AppSlotView {
        AppSlotView {
            slot_id: self.slot_id,
            name: self.name.deep_view(),
            identity: self.identity.deep_view(),
            launch: self.launch.deep_view(),
            group: self.group.deep_view(),
            placement: self.placement.deep_view(),
        }
    }
}

impl DeepView for AppSlot {
    type V = AppSlotView;

    open spec fn deep_view(&self) -> AppSlotView {
        self.view()
    }
}

impl Clone for AppSlot {
    fn clone(&self) -> (r: Self)
        ensures
            r@ == self@,
    {
        let r = AppSlot {
            slot_id: self.slot_id,
            name: self.name.clone(),
            identity: self.identity.clone(),
            launch: self.launch.clone(),
            group: self.group.clone(),
            placement: self.placement.clone(),
        };
        r
    }
}

/// A named project: a declarative set of windows (via [`AppSlot`]s) organized
/// into [`Group`]s, mapped onto Hyprland named workspaces.
#[derive(Debug, PartialEq)]
pub struct Project {
    /// Stable identity; survives renames.
    pub id: ProjectId,
    /// Short machine name; used in workspace names, file names, CLI.
    pub slug: Slug,
    /// Human-readable display name ("Web Development").
    pub name: String,
    /// Window groups. The implicit primary group is not stored here.
    pub groups: Vec<Group>,
    /// Desired windows and how to recreate them.
    pub apps: Vec<AppSlot>,
    /// Preferred monitor for the project's primary workspace, by output name.
    pub monitor: Option<String>,
    /// Manual sort position in project listings (lower sorts first; ties
    /// break by slug).
    pub position: u32,
}

/// What a [`Project`] holds.
#[verifier::ext_equal]
pub struct ProjectView {
    /// See [`Project::id`].
    pub id: ProjectId,
    /// See [`Project::slug`].
    pub slug: Seq<char>,
    /// See [`Project::name`].
    pub name: Seq<char>,
    /// See [`Project::groups`].
    pub groups: Seq<GroupView>,
    /// See [`Project::apps`].
    pub apps: Seq<AppSlotView>,
    /// See [`Project::monitor`].
    pub monitor: Option<Seq<char>>,
    /// See [`Project::position`].
    pub position: u32,
}

impl View for Project {
    type V = ProjectView;

    open spec fn view(&self) -> ProjectView {
        ProjectView {
            id: self.id,
            slug: self.slug.deep_view(),
            name: self.name.deep_view(),
            groups: self.groups.deep_view(),
            apps: self.apps.deep_view(),
            monitor: self.monitor.deep_view(),
            position: self.position,
        }
    }
}

impl DeepView for Project {
    type V = ProjectView;

    open spec fn deep_view(&self) -> ProjectView {
        self.view()
    }
}

impl Clone for Project {
    fn clone(&self) -> (r: Self)
        ensures
            r@ == self@,
    {
        let r = Project {
            id: self.id,
            slug: self.slug.clone(),
            name: self.name.clone(),
            groups: self.groups.clone(),
            apps: self.apps.clone(),
            monitor: self.monitor.clone(),
            position: self.position,
        };
        proof {
            assert(r.groups.deep_view() =~= self.groups.deep_view());
            assert(r.apps.deep_view() =~= self.apps.deep_view());
        }
        r
    }
}

impl Default for LaunchSpec {
    fn default() -> (r: Self)
        ensures
            r@ == (LaunchSpecView {
                command: seq![],
                args: seq![],
                env: seq![],
                workdir: None,
                after: seq![],
                startup_delay_ms: 0,
                timeout_ms: None,
                readiness: ReadinessView::Window,
                service: false,
            }),
    {
        let r = LaunchSpec {
            command: String::new(),
            args: Vec::new(),
            env: Vec::new(),
            workdir: None,
            after: Vec::new(),
            startup_delay_ms: 0,
            timeout_ms: None,
            readiness: Readiness::Window,
            service: false,
        };
        proof {
            assert(r@ =~= LaunchSpecView {
                command: seq![],
                args: seq![],
                env: seq![],
                workdir: None,
                after: seq![],
                startup_delay_ms: 0,
                timeout_ms: None,
                readiness: ReadinessView::Window,
                service: false,
            });
        }
        r
    }
}

impl Default for WindowIdentity {
    fn default() -> (r: Self)
        ensures
            r@ == (WindowIdentityView {
                class: None,
                initial_class: None,
                executable: None,
                title_pattern: None,
            }),
    {
        WindowIdentity { class: None, initial_class: None, executable: None, title_pattern: None }
    }
}

impl Default for Placement {
    fn default() -> (r: Self)
        ensures
            r@ == (PlacementView {
                floating: false,
                position: None,
                size: None,
                fullscreen: 0,
                monitor: None,
            }),
    {
        Placement { floating: false, position: None, size: None, fullscreen: 0, monitor: None }
    }
}

impl AppSlotView {
    /// Display label: the explicit name, else the identity's class, else the
    /// launch command, else the slot id.
    pub open spec fn label(self) -> Seq<char> {
        match (self.name, self.identity.class, self.launch) {
            (Some(name), _, _) => name,
            (None, Some(class), _) => class,
            (None, None, Some(launch)) => launch.command,
            (None, None, None) => hyphenated(self.slot_id),
        }
    }
}

impl AppSlot {
    /// Display label: the explicit name, else the identity's class, else the
    /// launch command, else the slot id.
    pub fn label(&self) -> (r: String)
        ensures
            r@ == self@.label(),
    {
        if let Some(name) = &self.name {
            return name.clone();
        }
        if let Some(class) = &self.identity.class {
            return class.clone();
        }
        if let Some(launch) = &self.launch {
            return launch.command.clone();
        }
        id_text(self.slot_id)
    }
}

impl ProjectView {
    /// The project that a display name starts out as.
    pub open spec fn fresh(id: ProjectId, slug: Seq<char>, name: Seq<char>) -> ProjectView {
        ProjectView { id, slug, name, groups: seq![], apps: seq![], monitor: None, position: 0 }
    }
}

impl Project {
    /// Create an empty project from a display name, deriving the slug.
    pub fn new(name: &str) -> (r: Result<Self, ModelError>)
        ensures
            r matches Ok(p) ==> slug_of(name@) matches Some(slug) && p@ == ProjectView::fresh(
                p.id,
                slug,
                name@,
            ) && is_random_id(p.id.0),
            r matches Err(e) ==> slug_of(name@) is None && e@ == ModelErrorView::InvalidSlug(
                name@,
            ),
    {
        Self::with_id(ProjectId::new(), name)
    }

    /// Create an empty project with a given id, deriving the slug.
    pub fn with_id(id: ProjectId, name: &str) -> (r: Result<Self, ModelError>)
        ensures
            r matches Ok(p) ==> slug_of(name@) matches Some(slug) && p@ == ProjectView::fresh(
                id,
                slug,
                name@,
            ),
            r matches Err(e) ==> slug_of(name@) is None && e@ == ModelErrorView::InvalidSlug(
                name@,
            ),
    {
        match Slug::from_display_name(name) {
            Ok(slug) => {
                let p = Project {
                    id,
                    slug,
                    name: name.to_owned(),
                    groups: Vec::new(),
                    apps: Vec::new(),
                    monitor: None,
                    position: 0,
                };
                proof {
                    assert(p@ =~= ProjectView::fresh(id, slug@, name@));
                }
                Ok(p)
            },
            Err(e) => Err(e),
        }
    }
}

proof fn lemma_slug_of_word(word: Seq<char>)
    requires
        forall|i: int|
            0 <= i < word.len() ==> is_lower(#[trigger] word[i]) || is_upper(word[i]) || is_digit(
                word[i],
            ),
    ensures
        slug_chars(word) == lowered(word),
        forall|i: int| 0 <= i < word.len() ==> #[trigger] lowered(word)[i] != '-',
    decreases word.len(),
{
    if word.len() > 0 {
        let front = word.drop_last();
        assert forall|i: int| 0 <= i < front.len() implies is_lower(#[trigger] front[i]) || is_upper(
            front[i],
        ) || is_digit(front[i]) by {
            assert(front[i] == word[i]);
        }
        lemma_slug_of_word(front);
        assert(word[word.len() - 1] == word.last());
        assert(lowered(word) =~= lowered(front).push(lower(word.last())));
    } else {
        assert(lowered(word) =~= seq![]);
    }
}

proof fn lemma_slug_chars_after(start: Seq<char>, name: Seq<char>, b: Seq<char>)
    requires
        start.len() > 0,
        start.last() == '-',
        slug_chars(name) == start,
    ensures
        slug_chars(name + b) == start + slug_chars(b),
    decreases b.len(),
{
    if b.len() > 0 {
        let front = b.drop_last();
        lemma_slug_chars_after(start, name, front);
        assert((name + b).drop_last() =~= name + front);
        assert((name + b).last() == b.last());
        let before = slug_chars(front);
        if before.len() > 0 {
            assert((start + before).last() == before.last());
        } else {
            assert(start + before =~= start);
        }
        assert(slug_chars(name + b) =~= start + slug_chars(b));
    } else {
        assert(name + b =~= name);
        assert(start + slug_chars(b) =~= start);
    }
}

/// A word of letters and digits is its slug, in lowercase; and where anything
/// else stands between two parts of a name, their slugs are joined with a
/// hyphen.
pub proof fn law_slugs_are_the_words_of_the_name(
    word: Seq<char>,
    a: Seq<char>,
    between: char,
    b: Seq<char>,
)
    requires
        !is_lower(between) && !is_upper(between) && !is_digit(between),
    ensures
        word.len() > 0 && (forall|i: int|
            0 <= i < word.len() ==> is_lower(#[trigger] word[i]) || is_upper(word[i]) || is_digit(
                word[i],
            )) ==> slug_of(word) == Some(lowered(word)),
        slug_of(a) is Some && slug_of(b) is Some ==> slug_of(a + seq![between] + b) == Some(
            slug_of(a)->0 + seq!['-'] + slug_of(b)->0,
        ),
        slug_of(a) is Some && slug_of(b) is None ==> slug_of(a + seq![between] + b) == slug_of(a),
{
    if word.len() > 0 && (forall|i: int|
        0 <= i < word.len() ==> is_lower(#[trigger] word[i]) || is_upper(word[i]) || is_digit(
            word[i],
        )) {
        lemma_slug_of_word(word);
        let low = lowered(word);
        assert(low[low.len() - 1] != '-');
    }
    if slug_of(a) is Some {
        let sa = slug_of(a)->0;
        let start = sa + seq!['-'];
        let name = a + seq![between];
        lemma_slug_chars(a);
        lemma_slug_chars(b);
        assert(name.drop_last() =~= a);
        let chars = slug_chars(a);
        if chars.last() == '-' {
            assert(chars =~= start);
        }
        assert(slug_chars(name) =~= start);
        lemma_slug_chars_after(start, name, b);
        assert(a + seq![between] + b =~= name + b);
        let all = start + slug_chars(b);
        if slug_of(b) is Some {
            let sb = slug_of(b)->0;
            assert(all.last() == slug_chars(b).last());
            if slug_chars(b).last() == '-' {
                assert(all.drop_last() =~= sa + seq!['-'] + sb);
            } else {
                assert(all =~= sa + seq!['-'] + sb);
            }
        } else {
            assert(all =~= start);
            assert(all.drop_last() =~= sa);
        }
    }
}

} // verus!
