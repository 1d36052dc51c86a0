//! Restore-plan execution: adopt existing windows, launch missing apps in
//! dependency waves, correlate new windows back to their slots, and report
//! progress.
//!
//! Window apps launch through `dispatch exec [workspace name:<ws> silent] …`
//! so Hyprland places them on the project workspace natively; `service` slots
//! (databases, docker) are spawned directly, started but not supervised.
//! Correlation matches opened windows against slot identities by class
//! (case-insensitive); each window satisfies at most one slot. Failures and
//! timeouts skip dependent slots and are reported, never hung on.

use vstd::prelude::*;

use crate::domain::events::DomainEvent;
use crate::domain::events::DomainEventView;
use crate::domain::model::{LaunchSpec, Placement, Readiness, WindowIdentity};
use crate::domain::model::{LaunchSpecView, PlacementView, ReadinessView, WindowIdentityView};
use crate::domain::restore::{AdoptStep, LaunchStep, RestorePlan};
use crate::domain::restore::{AdoptStepView, LaunchStepView, RestorePlanView};
use crate::hypr::ctl::{Dispatch, WsTarget};
use crate::hypr::ctl::{DispatchView, WsTargetView};
use crate::hypr::model::WindowAddress;
use crate::hypr::model::canonical;
use crate::pieces::{join, replace_char};
use crate::pieces::{joined, replaced};
use crate::outside::to_lowercase;
use crate::outside::unicode_lowercase;
use crate::text::{same, strip_prefix};
use crate::text::without_prefix;

verus! {

// ---- the command line -------------------------------------------------------------------

/// A text in single quotes as a POSIX shell reads it: a quote inside ends the
/// quoted part, stands escaped and opens it again.
pub open spec fn shell_quoted(s: Seq<char>) -> Seq<char> {
    "'"@ + replaced(s, '\'', "'\\''"@) + "'"@
}

/// A path with a leading `~` replaced by the home directory, where that is
/// known.
pub open spec fn home_expanded(path: Seq<char>, home: Option<Seq<char>>) -> Seq<char> {
    match (without_prefix(path, "~"@), home) {
        (Some(rest), Some(home)) => home + rest,
        _ => path,
    }
}

/// The environment assignments of a launch.
pub open spec fn assignments(env: Seq<(Seq<char>, Seq<char>)>) -> Seq<Seq<char>> {
    Seq::new(env.len(), |i: int| env[i].0 + "="@ + shell_quoted(env[i].1))
}

/// Arguments, each quoted.
pub open spec fn quoted_args(args: Seq<Seq<char>>) -> Seq<Seq<char>> {
    Seq::new(args.len(), |i: int| shell_quoted(args[i]))
}

/// The change of directory before a launch, if there is one.
pub open spec fn directory_change(spec: LaunchSpecView, home: Option<Seq<char>>) -> Seq<Seq<char>> {
    match spec.workdir {
        Some(workdir) => seq!["cd "@ + shell_quoted(home_expanded(workdir, home)) + " &&"@],
        None => seq![],
    }
}

/// The shell command line of a launch: change of directory, environment
/// assignments, command and arguments.
pub open spec fn shell_command(spec: LaunchSpecView, home: Option<Seq<char>>) -> Seq<char> {
    joined(
        directory_change(spec, home) + assignments(spec.env) + seq![spec.command] + quoted_args(
            spec.args,
        ),
        " "@,
    )
}

/// POSIX single-quote escaping.
pub fn shell_quote(s: &str) -> (r: String)
    ensures
        r@ == shell_quoted(s@),
{
    let mut out = "'".to_owned();
    out.append(replace_char(s, '\'', "'\\''").as_str());
    out.append("'");
    out
}

/// Expand a leading `~` to the home directory, where that is known.
pub fn expand_home(path: &str, home: &Option<String>) -> (r: String)
    ensures
        r@ == home_expanded(path@, home.deep_view()),
{
    if let Some(rest) = strip_prefix(path, "~") {
        if let Some(home) = home {
            let mut out = home.clone();
            out.append(rest.as_str());
            return out;
        }
    }
    path.to_owned()
}

/// Build the shell command line: cd, env assignments, command, args.
pub fn build_shell_command(spec: &LaunchSpec, home: &Option<String>) -> (r: String)
    ensures
        r@ == shell_command(spec@, home.deep_view()),
{
    let mut parts: Vec<String> = Vec::new();
    if let Some(workdir) = &spec.workdir {
        let mut part = "cd ".to_owned();
        part.append(shell_quote(expand_home(workdir.as_str(), home).as_str()).as_str());
        part.append(" &&");
        parts.push(part);
    }
    let ghost start = directory_change(spec@, home.deep_view());
    assert(parts.deep_view() =~= start);
    let ghost env = spec.env.deep_view();
    let mut i: usize = 0;
    assert(start + assignments(env).take(0) =~= start);
    while i < spec.env.len()
        invariant
            i <= spec.env.len(),
            env == spec.env.deep_view(),
            parts.deep_view() == start + assignments(env).take(i as int),
        decreases spec.env.len() - i,
    {
        let ghost before = parts.deep_view();
        let mut part = spec.env[i].0.clone();
        part.append("=");
        part.append(shell_quote(spec.env[i].1.as_str()).as_str());
        assert(env[i as int] == (spec.env@[i as int].0@, spec.env@[i as int].1@));
        parts.push(part);
        assert(parts.deep_view() =~= before.push(part@));
        assert(parts.deep_view() =~= start + assignments(env).take(i + 1));
        i = i + 1;
    }
    assert(assignments(env).take(i as int) =~= assignments(env));
    let ghost before = parts.deep_view();
    parts.push(spec.command.clone());
    let ghost middle = start + assignments(env) + seq![spec.command@];
    assert(parts.deep_view() =~= before.push(spec.command@));
    assert(parts.deep_view() =~= middle);
    let ghost args = spec.args.deep_view();
    let mut j: usize = 0;
    assert(middle + quoted_args(args).take(0) =~= middle);
    while j < spec.args.len()
        invariant
            j <= spec.args.len(),
            args == spec.args.deep_view(),
            parts.deep_view() == middle + quoted_args(args).take(j as int),
        decreases spec.args.len() - j,
    {
        let ghost before = parts.deep_view();
        let part = shell_quote(spec.args[j].as_str());
        assert(args[j as int] == spec.args@[j as int]@);
        parts.push(part);
        assert(parts.deep_view() =~= before.push(part@));
        assert(parts.deep_view() =~= middle + quoted_args(args).take(j + 1));
        j = j + 1;
    }
    assert(quoted_args(args).take(j as int) =~= quoted_args(args));
    join(&parts, " ")
}

// ---- placement --------------------------------------------------------------------------

/// The dispatches that place a window: a floating one floats, goes to its
/// position and takes its size. Tiled windows, and fullscreen, come once all
/// windows are there: see [`crate::daemon::arranging`].
pub open spec fn placing(address: Seq<char>, placement: PlacementView) -> Seq<DispatchView> {
    let address = canonical(address);
    if placement.floating {
        seq![DispatchView::SetFloating(address)] + (match placement.position {
            Some((x, y)) => seq![DispatchView::MoveWindowPixelExact { address, x, y }],
            None => seq![],
        }) + (match placement.size {
            Some((w, h)) => seq![DispatchView::ResizeWindowPixelExact { address, w, h }],
            None => seq![],
        })
    } else {
        seq![]
    }
}

/// Dispatches to float/position/size a window per its slot placement.
pub fn placement_dispatches(address: &str, placement: &Placement) -> (r: Vec<Dispatch>)
    ensures
        r.deep_view() == placing(address@, placement@),
{
    let mut dispatches: Vec<Dispatch> = Vec::new();
    if placement.floating {
        dispatches.push(Dispatch::SetFloating(WindowAddress::new(address)));
        if let Some((x, y)) = placement.position {
            dispatches.push(
                Dispatch::MoveWindowPixelExact { address: WindowAddress::new(address), x, y },
            );
        }
        if let Some((w, h)) = placement.size {
            dispatches.push(
                Dispatch::ResizeWindowPixelExact { address: WindowAddress::new(address), w, h },
            );
        }
    }
    assert(dispatches.deep_view() =~= placing(address@, placement@));
    dispatches
}

// ---- a restore run ----------------------------------------------------------------------

/// The dispatches that adopt windows, in order.
pub open spec fn adopting(steps: Seq<AdoptStepView>, workspace: Seq<char>) -> Seq<DispatchView>
    decreases steps.len(),
{
    if steps.len() == 0 {
        seq![]
    } else {
        let step = steps.last();
        adopting(steps.drop_last(), workspace) + (if step.needs_move {
            seq![
                DispatchView::MoveToWorkspaceSilent {
                    target: WsTargetView::Name(workspace),
                    address: canonical(step.address),
                },
            ]
        } else {
            seq![]
        }) + placing(step.address, step.placement)
    }
}

/// Where a restore run stands.
#[derive(Debug)]
pub struct RestoreRun {
    /// Slots that became ready.
    pub completed: usize,
    /// Labels of the slots that failed or were skipped.
    pub failed: Vec<String>,
    /// Addresses of the windows that satisfy a slot.
    pub claimed: Vec<String>,
}

/// What a [`RestoreRun`] holds.
#[verifier::ext_equal]
pub struct RestoreRunView {
    /// See [`RestoreRun::completed`].
    pub completed: usize,
    /// See [`RestoreRun::failed`].
    pub failed: Seq<Seq<char>>,
    /// See [`RestoreRun::claimed`].
    pub claimed: Seq<Seq<char>>,
}

impl View for RestoreRun {
    type V = RestoreRunView;

    open spec fn view(&self) -> RestoreRunView {
        RestoreRunView {
            completed: self.completed,
            failed: self.failed.deep_view(),
            claimed: self.claimed.deep_view(),
        }
    }
}

/// The addresses of the windows that a plan adopts.
pub open spec fn adopted(steps: Seq<AdoptStepView>) -> Seq<Seq<char>> {
    Seq::new(steps.len(), |i: int| steps[i].address)
}

/// Whether a step waits for a slot that failed.
pub open spec fn is_blocked(step: LaunchStepView, failed: Seq<Seq<char>>) -> bool {
    exists|i: int| 0 <= i < step.after.len() && failed.contains(#[trigger] step.after[i])
}

/// The labels that have failed once the steps of a wave have been gone
/// through: a blocked step fails at once.
pub open spec fn failing(steps: Seq<LaunchStepView>, failed: Seq<Seq<char>>) -> Seq<Seq<char>>
    decreases steps.len(),
{
    if steps.len() == 0 {
        failed
    } else {
        let before = failing(steps.drop_last(), failed);
        if is_blocked(steps.last(), before) {
            before.push(steps.last().label)
        } else {
            before
        }
    }
}

/// Which steps of a wave launch.
pub open spec fn launching(steps: Seq<LaunchStepView>, failed: Seq<Seq<char>>) -> Seq<bool> {
    Seq::new(steps.len(), |i: int| !is_blocked(steps[i], failing(steps.take(i), failed)))
}

fn has(list: &Vec<String>, s: &str) -> (r: bool)
    ensures
        r == list.deep_view().contains(s@),
{
    let ghost views = list.deep_view();
    let mut i: usize = 0;
    while i < list.len()
        invariant
            i <= list.len(),
            views == list.deep_view(),
            forall|k: int| 0 <= k < i ==> #[trigger] views[k] != s@,
        decreases list.len() - i,
    {
        assert(views[i as int] == list@[i as int]@);
        if same(list[i].as_str(), s) {
            return true;
        }
        i = i + 1;
    }
    false
}

fn blocked(step: &LaunchStep, failed: &Vec<String>) -> (r: bool)
    ensures
        r == is_blocked(step@, failed.deep_view()),
{
    let ghost after = step.after.deep_view();
    let mut i: usize = 0;
    while i < step.after.len()
        invariant
            i <= step.after.len(),
            after == step.after.deep_view(),
            forall|k: int| 0 <= k < i ==> !failed.deep_view().contains(#[trigger] after[k]),
        decreases step.after.len() - i,
    {
        assert(after[i as int] == step.after@[i as int]@);
        if has(failed, step.after[i].as_str()) {
            assert(failed.deep_view().contains(step@.after[i as int]));
            return true;
        }
        i = i + 1;
    }
    false
}

/// The progress report on a slot.
pub open spec fn progress_event(
    plan: RestorePlanView,
    label: Seq<char>,
    state: Seq<char>,
    completed: usize,
    total: usize,
) -> DomainEventView {
    DomainEventView::RestoreProgress { project: plan.project, slot: label, state, completed, total }
}

/// Report progress on a slot.
pub fn progress(
    plan: &RestorePlan,
    label: &str,
    state: &str,
    completed: usize,
    total: usize,
) -> (r: DomainEvent)
    ensures
        r@ == progress_event(plan@, label@, state@, completed, total),
{
    DomainEvent::RestoreProgress {
        project: plan.project.as_str().to_owned(),
        slot: label.to_owned(),
        state: state.to_owned(),
        completed,
        total,
    }
}

/// The dispatches that adopt a plan's windows: move them where they must move,
/// then place them.
pub fn adoption_dispatches(plan: &RestorePlan) -> (r: Vec<Dispatch>)
    ensures
        r.deep_view() == adopting(plan@.adopt, plan@.workspace),
{
    let ghost steps = plan.adopt.deep_view();
    let mut moves: Vec<Dispatch> = Vec::new();
    let mut i: usize = 0;
    assert(steps.take(0) =~= seq![]);
    assert(moves.deep_view() =~= seq![]);
    while i < plan.adopt.len()
        invariant
            i <= plan.adopt.len(),
            steps == plan.adopt.deep_view(),
            moves.deep_view() == adopting(steps.take(i as int), plan@.workspace),
        decreases plan.adopt.len() - i,
    {
        let ghost before = moves.deep_view();
        let step: &AdoptStep = &plan.adopt[i];
        assert(steps[i as int] == step@);
        assert(steps.take(i + 1).drop_last() =~= steps.take(i as int));
        if step.needs_move {
            moves.push(
                Dispatch::MoveToWorkspaceSilent {
                    target: WsTarget::Name(plan.workspace.clone()),
                    address: WindowAddress::new(step.address.as_str()),
                },
            );
        }
        let ghost moved = moves.deep_view();
        assert(moved =~= before + (if step.needs_move {
            seq![
                DispatchView::MoveToWorkspaceSilent {
                    target: WsTargetView::Name(plan@.workspace),
                    address: canonical(step@.address),
                },
            ]
        } else {
            seq![]
        }));
        let mut placing_moves = placement_dispatches(step.address.as_str(), &step.placement);
        let ghost added = placing_moves.deep_view();
        moves.append(&mut placing_moves);
        assert(moves.deep_view() =~= moved + added);
        i = i + 1;
    }
    assert(steps.take(i as int) =~= steps);
    moves
}

impl RestoreRun {
    /// Start a run: nothing launched, the adopted windows claimed.
    pub fn start(plan: &RestorePlan) -> (r: Self)
        ensures
            r@ == (RestoreRunView {
                completed: 0,
                failed: seq![],
                claimed: adopted(plan@.adopt),
            }),
    {
        let ghost steps = plan.adopt.deep_view();
        let mut claimed: Vec<String> = Vec::new();
        let mut i: usize = 0;
        while i < plan.adopt.len()
            invariant
                i <= plan.adopt.len(),
                steps == plan.adopt.deep_view(),
                claimed.len() == i,
                forall|k: int| 0 <= k < i ==> (#[trigger] claimed@[k])@ == steps[k].address,
            decreases plan.adopt.len() - i,
        {
            assert(steps[i as int] == plan.adopt@[i as int]@);
            claimed.push(plan.adopt[i].address.clone());
            i = i + 1;
        }
        let r = RestoreRun { completed: 0, failed: Vec::new(), claimed };
        assert(r.claimed.deep_view() =~= adopted(steps));
        assert(r.failed.deep_view() =~= seq![]);
        r
    }

    /// Go through a wave: says of each step whether it launches. A step that
    /// waits for a failed slot is skipped and counts as failed itself.
    pub fn start_wave(&mut self, wave: &Vec<LaunchStep>) -> (r: Vec<bool>)
        ensures
            r@ == launching(wave.deep_view(), old(self)@.failed),
            final(self)@ == (RestoreRunView {
                failed: failing(wave.deep_view(), old(self)@.failed),
                ..old(self)@
            }),
    {
        let ghost steps = wave.deep_view();
        let ghost failed = self.failed.deep_view();
        let mut launches: Vec<bool> = Vec::new();
        let mut i: usize = 0;
        assert(steps.take(0) =~= seq![]);
        while i < wave.len()
            invariant
                i <= wave.len(),
                steps == wave.deep_view(),
                failed == old(self)@.failed,
                self.failed.deep_view() == failing(steps.take(i as int), failed),
                self.completed == old(self).completed,
                self.claimed == old(self).claimed,
                launches.len() == i,
                forall|k: int|
                    0 <= k < i ==> #[trigger] launches@[k] == launching(steps, failed)[k],
            decreases wave.len() - i,
        {
            let ghost before = self.failed.deep_view();
            assert(steps[i as int] == wave@[i as int]@);
            assert(steps.take(i + 1).drop_last() =~= steps.take(i as int));
            let skip = blocked(&wave[i], &self.failed);
            if skip {
                self.failed.push(wave[i].label.clone());
                assert(self.failed.deep_view() =~= before.push(steps[i as int].label));
            }
            launches.push(!skip);
            i = i + 1;
        }
        assert(steps.take(i as int) =~= steps);
        assert(launches@ =~= launching(steps, failed));
        launches
    }

    /// Record how a launched step ended.
    pub fn step_done(&mut self, label: &str, ready: bool)
        requires
            old(self).completed < usize::MAX,
        ensures
            final(self)@ == (if ready {
                RestoreRunView { completed: (old(self)@.completed + 1) as usize, ..old(self)@ }
            } else {
                RestoreRunView { failed: old(self)@.failed.push(label@), ..old(self)@ }
            }),
    {
        if ready {
            self.completed = self.completed + 1;
        } else {
            let ghost before = self.failed.deep_view();
            self.failed.push(label.to_owned());
            assert(self.failed.deep_view() =~= before.push(label@));
        }
    }

    /// Look at an event while a step waits for its window: the address of the
    /// window that satisfies it, which is then claimed. A window of another
    /// class does not, nor one that is claimed already; without a class the
    /// first unclaimed window does.
    pub fn claim_window(&mut self, identity: &WindowIdentity, event: &DomainEvent) -> (r: Option<
        String,
    >)
        ensures
            r.deep_view() == claimed_by(old(self)@, identity@, event@),
            final(self)@ == (match claimed_by(old(self)@, identity@, event@) {
                Some(address) => RestoreRunView {
                    claimed: old(self)@.claimed.push(address),
                    ..old(self)@
                },
                None => old(self)@,
            }),
    {
        let (address, class) = match event {
            DomainEvent::WindowOpened { address, class, .. } => (address, class),
            _ => {
                return None;
            },
        };
        let matches = match (&identity.class, &identity.initial_class) {
            (Some(wanted), _) => same_class(class.as_str(), wanted.as_str()),
            (None, Some(wanted)) => same_class(class.as_str(), wanted.as_str()),
            (None, None) => true,
        };
        if !matches || has(&self.claimed, address.as_str()) {
            return None;
        }
        let ghost before = self.claimed.deep_view();
        self.claimed.push(address.clone());
        assert(self.claimed.deep_view() =~= before.push(address@));
        Some(address.clone())
    }

    /// The report that ends the run.
    pub fn finish(self, plan: &RestorePlan) -> (r: DomainEvent)
        ensures
            r@ == (DomainEventView::RestoreFinished {
                project: plan@.project,
                adopted: plan@.adopt.len() as usize,
                launched: self@.completed,
                failed: self@.failed,
            }),
    {
        DomainEvent::RestoreFinished {
            project: plan.project.as_str().to_owned(),
            adopted: plan.adopt.len(),
            launched: self.completed,
            failed: self.failed,
        }
    }
}

fn same_class(class: &str, wanted: &str) -> (r: bool)
    ensures
        r == (unicode_lowercase(class@) == unicode_lowercase(wanted@)),
{
    same(to_lowercase(class).as_str(), to_lowercase(wanted).as_str())
}

/// The class by which a slot's window is recognised, if any.
pub open spec fn wanted_class(identity: WindowIdentityView) -> Option<Seq<char>> {
    if identity.class is Some {
        identity.class
    } else {
        identity.initial_class
    }
}

/// The window that an event brings to a waiting slot, if it does.
pub open spec fn claimed_by(
    run: RestoreRunView,
    identity: WindowIdentityView,
    event: DomainEventView,
) -> Option<Seq<char>> {
    match event {
        DomainEventView::WindowOpened { address, class, .. } => {
            let matches = match wanted_class(identity) {
                Some(wanted) => unicode_lowercase(class) == unicode_lowercase(wanted),
                None => true,
            };
            if matches && !run.claimed.contains(address) {
                Some(address)
            } else {
                None
            }
        },
        _ => None,
    }
}

// ---- one step -----------------------------------------------------------------------------

/// What is to be done for a step.
#[derive(Debug)]
pub enum StepAction {
    /// Run a command line through the shell, detached.
    Spawn(String),
    /// Tell Hyprland.
    Tell(Dispatch),
    /// Poll a probe command until it succeeds.
    Probe {
        /// The probe command.
        cmd: String,
        /// Poll interval in milliseconds.
        interval_ms: u64,
        /// When to give up, in milliseconds.
        timeout_ms: u64,
    },
    /// Wait for the slot's window.
    AwaitWindow {
        /// When to give up, in milliseconds.
        timeout_ms: u64,
    },
    /// Wait.
    Sleep {
        /// How long, in milliseconds.
        ms: u64,
    },
    /// Nothing: the step has ended, ready or not.
    Finish(bool),
}

/// What a [`StepAction`] holds.
#[verifier::ext_equal]
pub enum StepActionView {
    /// See [`StepAction::Spawn`].
    Spawn(Seq<char>),
    /// See [`StepAction::Tell`].
    Tell(DispatchView),
    /// See [`StepAction::Probe`].
    Probe {
        /// The probe command.
        cmd: Seq<char>,
        /// Poll interval in milliseconds.
        interval_ms: u64,
        /// When to give up, in milliseconds.
        timeout_ms: u64,
    },
    /// See [`StepAction::AwaitWindow`].
    AwaitWindow {
        /// When to give up, in milliseconds.
        timeout_ms: u64,
    },
    /// See [`StepAction::Sleep`].
    Sleep {
        /// How long, in milliseconds.
        ms: u64,
    },
    /// See [`StepAction::Finish`].
    Finish(bool),
}

impl View for StepAction {
    type V = StepActionView;

    open spec fn view(&self) -> StepActionView {
        match self {
            StepAction::Spawn(command) => StepActionView::Spawn(command@),
            StepAction::Tell(dispatch) => StepActionView::Tell(dispatch@),
            StepAction::Probe { cmd, interval_ms, timeout_ms } => StepActionView::Probe {
                cmd: cmd@,
                interval_ms: *interval_ms,
                timeout_ms: *timeout_ms,
            },
            StepAction::AwaitWindow { timeout_ms } => StepActionView::AwaitWindow {
                timeout_ms: *timeout_ms,
            },
            StepAction::Sleep { ms } => StepActionView::Sleep { ms: *ms },
            StepAction::Finish(ready) => StepActionView::Finish(*ready),
        }
    }
}

/// Where a step stands.
#[derive(Debug, Clone, Copy, PartialEq, Eq, Structural)]
pub enum StepPhase {
    /// It is being launched.
    Launching,
    /// It runs and is not ready yet.
    Waiting,
    /// It is ready; its startup delay passes.
    Settling,
    /// It has ended, ready or not.
    Done(bool),
}

/// How a slot launches: services through the shell, everything else through
/// Hyprland onto the project workspace.
pub open spec fn launch_action(
    step: LaunchStepView,
    workspace: Seq<char>,
    home: Option<Seq<char>>,
) -> StepActionView {
    let command = shell_command(step.spec, home);
    if step.spec.service {
        StepActionView::Spawn(command)
    } else {
        StepActionView::Tell(
            DispatchView::Exec {
                rules: seq!["workspace name:"@ + workspace + " silent"@],
                command,
            },
        )
    }
}

/// How long a step may take to become ready.
pub open spec fn step_timeout(step: LaunchStepView, default_timeout_ms: u64) -> u64 {
    match step.spec.timeout_ms {
        Some(timeout) => timeout,
        None => default_timeout_ms,
    }
}

/// What happens when the pending action of a step has succeeded or not: the
/// next phase, the state to report if any, and the next action. A service has
/// no window to wait for.
pub open spec fn next_of(
    phase: StepPhase,
    step: LaunchStepView,
    success: bool,
    default_timeout_ms: u64,
) -> (StepPhase, Option<Seq<char>>, StepActionView) {
    let timeout_ms = step_timeout(step, default_timeout_ms);
    let settled = (StepPhase::Done(true), Some("ready"@), StepActionView::Finish(true));
    let ready = if step.spec.startup_delay_ms > 0 {
        (
            StepPhase::Settling,
            None,
            StepActionView::Sleep { ms: step.spec.startup_delay_ms },
        )
    } else {
        settled
    };
    match phase {
        StepPhase::Launching => if !success {
            (StepPhase::Done(false), Some("failed"@), StepActionView::Finish(false))
        } else {
            match step.readiness {
                ReadinessView::Delay => ready,
                ReadinessView::Command { cmd, interval_ms } => (
                    StepPhase::Waiting,
                    None,
                    StepActionView::Probe { cmd, interval_ms, timeout_ms },
                ),
                ReadinessView::Window => if step.spec.service {
                    ready
                } else {
                    (StepPhase::Waiting, None, StepActionView::AwaitWindow { timeout_ms })
                },
            }
        },
        StepPhase::Waiting => if success {
            ready
        } else {
            (StepPhase::Done(false), Some("timeout"@), StepActionView::Finish(false))
        },
        StepPhase::Settling => settled,
        StepPhase::Done(ready) => (phase, None, StepActionView::Finish(ready)),
    }
}

/// Start a step: report it as launching and launch it.
pub fn first_action(step: &LaunchStep, workspace: &str, home: &Option<String>) -> (r: (
    &'static str,
    StepAction,
))
    ensures
        r.0@ == "launching"@,
        r.1@ == launch_action(step@, workspace@, home.deep_view()),
{
    let command = build_shell_command(&step.spec, home);
    if step.spec.service {
        return ("launching", StepAction::Spawn(command));
    }
    let mut rule = "workspace name:".to_owned();
    rule.append(workspace);
    rule.append(" silent");
    let mut rules: Vec<String> = Vec::new();
    rules.push(rule);
    assert(rules.deep_view() =~= seq![rule@]);
    ("launching", StepAction::Tell(Dispatch::Exec { rules, command }))
}

/// Go on with a step once its pending action has succeeded or not.
pub fn next_action(
    phase: StepPhase,
    step: &LaunchStep,
    success: bool,
    default_timeout_ms: u64,
) -> (r: (StepPhase, Option<&'static str>, StepAction))
    ensures
        ({
            let (phase, report, action) = next_of(phase, step@, success, default_timeout_ms);
            &&& r.0 == phase
            &&& match (r.1, report) {
                (Some(a), Some(b)) => a@ == b,
                (None, None) => true,
                _ => false,
            }
            &&& r.2@ == action
        }),
{
    let timeout_ms: u64 = match step.spec.timeout_ms {
        Some(timeout) => timeout,
        None => default_timeout_ms,
    };
    match phase {
        StepPhase::Launching => {
            if !success {
                return (StepPhase::Done(false), Some("failed"), StepAction::Finish(false));
            }
            match &step.readiness {
                Readiness::Delay => {},
                Readiness::Command { cmd, interval_ms } => {
                    return (
                        StepPhase::Waiting,
                        None,
                        StepAction::Probe {
                            cmd: cmd.clone(),
                            interval_ms: *interval_ms,
                            timeout_ms,
                        },
                    );
                },
                Readiness::Window => {
                    if !step.spec.service {
                        return (StepPhase::Waiting, None, StepAction::AwaitWindow { timeout_ms });
                    }
                },
            }
        },
        StepPhase::Waiting => {
            if !success {
                return (StepPhase::Done(false), Some("timeout"), StepAction::Finish(false));
            }
        },
        StepPhase::Settling => {
            return (StepPhase::Done(true), Some("ready"), StepAction::Finish(true));
        },
        StepPhase::Done(ready) => {
            return (phase, None, StepAction::Finish(ready));
        },
    }
    if step.spec.startup_delay_ms > 0 {
        return (
            StepPhase::Settling,
            None,
            StepAction::Sleep { ms: step.spec.startup_delay_ms },
        );
    }
    (StepPhase::Done(true), Some("ready"), StepAction::Finish(true))
}

/// What follows a run of a probe command.
#[derive(Debug, Clone, Copy, PartialEq, Eq, Structural)]
pub enum ProbeVerdict {
    /// The slot is ready.
    Ready,
    /// The next run would come too late.
    TimedOut,
    /// Wait for the interval and run it again.
    Again,
}

/// Decide after a run of a probe command that ended at `now`. All in
/// milliseconds.
pub fn after_probe(success: bool, now: u64, interval_ms: u64, deadline: u64) -> (r: ProbeVerdict)
    ensures
        r == (if success {
            ProbeVerdict::Ready
        } else if now + interval_ms > deadline {
            ProbeVerdict::TimedOut
        } else {
            ProbeVerdict::Again
        }),
{
    if success {
        ProbeVerdict::Ready
    } else if now > deadline || interval_ms > deadline - now {
        ProbeVerdict::TimedOut
    } else {
        ProbeVerdict::Again
    }
}

// ---- laws ---------------------------------------------------------------------------------

/// How a POSIX shell reads a word made of single-quoted parts and escaped
/// characters; nothing where a quote stays open.
pub open spec fn shell_word(s: Seq<char>, in_quotes: bool) -> Option<Seq<char>>
    decreases s.len(),
{
    if s.len() == 0 {
        if in_quotes {
            None
        } else {
            Some(seq![])
        }
    } else if s[0] == '\'' {
        shell_word(s.skip(1), !in_quotes)
    } else if !in_quotes && s[0] == '\\' {
        if s.len() == 1 {
            None
        } else {
            match shell_word(s.skip(2), false) {
                Some(rest) => Some(seq![s[1]] + rest),
                None => None,
            }
        }
    } else {
        match shell_word(s.skip(1), in_quotes) {
            Some(rest) => Some(seq![s[0]] + rest),
            None => None,
        }
    }
}

/// An escaped quote inside a quoted part.
proof fn lemma_escaped_quote(rest: Seq<char>)
    ensures
        shell_word("'\\''"@ + rest, true) == (match shell_word(rest, true) {
            Some(tail) => Some(seq!['\''] + tail),
            None => None,
        }),
{
    reveal_strlit("'\\''");
    let a = "'\\''"@ + rest;
    let b = a.skip(1);
    let c = b.skip(2);
    assert(a[0] == '\'');
    assert(b[0] == '\\' && b[1] == '\'');
    assert(c[0] == '\'');
    assert(c.skip(1) =~= rest);
    assert(shell_word(c, false) == shell_word(rest, true));
    assert(shell_word(b, false) == (match shell_word(c, false) {
        Some(tail) => Some(seq![b[1]] + tail),
        None => None,
    }));
    assert(shell_word(a, true) == shell_word(b, false));
}

/// Any other character inside a quoted part.
proof fn lemma_quoted_char(c: char, rest: Seq<char>)
    requires
        c != '\'',
    ensures
        shell_word(seq![c] + rest, true) == (match shell_word(rest, true) {
            Some(tail) => Some(seq![c] + tail),
            None => None,
        }),
{
    assert((seq![c] + rest).skip(1) =~= rest);
}

proof fn lemma_quoted_part(s: Seq<char>, rest: Seq<char>)
    ensures
        shell_word(replaced(s, '\'', "'\\''"@) + rest, true) == (match shell_word(rest, true) {
            Some(tail) => Some(s + tail),
            None => None,
        }),
    decreases s.len(),
{
    let quote = "'\\''"@;
    if s.len() == 0 {
        assert(replaced(s, '\'', quote) + rest =~= rest);
        if let Some(tail) = shell_word(rest, true) {
            assert(s + tail =~= tail);
        }
    } else {
        let front = s.drop_last();
        let c = s.last();
        let piece = if c == '\'' {
            quote
        } else {
            seq![c]
        };
        lemma_quoted_part(front, piece + rest);
        assert(replaced(s, '\'', quote) + rest =~= replaced(front, '\'', quote) + (piece + rest));
        if c == '\'' {
            lemma_escaped_quote(rest);
        } else {
            lemma_quoted_char(c, rest);
        }
        if let Some(tail) = shell_word(rest, true) {
            assert(front + (seq![c] + tail) =~= s + tail);
        }
    }
}

/// A quoted text is read back by a shell as it was, whatever it holds.
pub proof fn law_quoted_text_reads_back(s: Seq<char>)
    ensures
        shell_word(shell_quoted(s), false) == Some(s),
{
    reveal_strlit("'");
    let inner = replaced(s, '\'', "'\\''"@);
    assert("'"@ =~= seq!['\'']);
    assert(shell_quoted(s).skip(1) =~= inner + "'"@);
    lemma_quoted_part(s, "'"@);
    assert("'"@.skip(1) =~= seq![]);
    reveal_with_fuel(shell_word, 2);
    assert(s + seq![] =~= s);
}

proof fn lemma_failing_grows(steps: Seq<LaunchStepView>, failed: Seq<Seq<char>>, n: int)
    requires
        0 <= n <= steps.len(),
    ensures
        forall|label: Seq<char>|
            failing(steps.take(n), failed).contains(label) ==> #[trigger] failing(
                steps,
                failed,
            ).contains(label),
    decreases steps.len() - n,
{
    if n < steps.len() {
        lemma_failing_grows(steps, failed, n + 1);
        let before = failing(steps.take(n), failed);
        let after = failing(steps.take(n + 1), failed);
        assert(steps.take(n + 1).drop_last() =~= steps.take(n));
        assert forall|label: Seq<char>| before.contains(label) implies #[trigger] failing(
            steps,
            failed,
        ).contains(label) by {
            let k = choose|k: int| 0 <= k < before.len() && before[k] == label;
            assert(after[k] == label);
            assert(after.contains(label));
        }
    } else {
        assert(steps.take(n) =~= steps);
    }
}

/// A failure skips the slots that wait for it: in whatever wave they stand,
/// they do not launch and count as failed themselves.
pub proof fn law_failures_skip_dependents(
    steps: Seq<LaunchStepView>,
    failed: Seq<Seq<char>>,
    i: int,
    label: Seq<char>,
)
    requires
        0 <= i < steps.len(),
        failed.contains(label),
        steps[i].after.contains(label),
    ensures
        !launching(steps, failed)[i],
        failing(steps, failed).contains(steps[i].label),
{
    let before = failing(steps.take(i), failed);
    lemma_failing_grows(steps.take(i), failed, 0);
    assert(steps.take(i).take(0) =~= seq![]);
    assert(before.contains(label));
    let d = choose|d: int| 0 <= d < steps[i].after.len() && steps[i].after[d] == label;
    assert(before.contains(steps[i].after[d]));
    assert(is_blocked(steps[i], before));
    assert(steps.take(i + 1).drop_last() =~= steps.take(i));
    let after = failing(steps.take(i + 1), failed);
    assert(after[before.len() as int] == steps[i].label);
    assert(after.contains(steps[i].label));
    lemma_failing_grows(steps, failed, i + 1);
}

/// Adopting windows never touches a numbered workspace: whatever is told, the
/// workspace is given by its name.
pub proof fn law_adoption_goes_by_name(steps: Seq<AdoptStepView>, workspace: Seq<char>)
    ensures
        forall|i: int|
            0 <= i < adopting(steps, workspace).len() ==> (#[trigger] adopting(
                steps,
                workspace,
            )[i]).goes_by_name(),
    decreases steps.len(),
{
    if steps.len() > 0 {
        let before = adopting(steps.drop_last(), workspace);
        law_adoption_goes_by_name(steps.drop_last(), workspace);
        let all = adopting(steps, workspace);
        assert forall|i: int| 0 <= i < all.len() implies (#[trigger] all[i]).goes_by_name() by {
            if i < before.len() {
                assert(all[i] == before[i]);
            }
        }
    }
}

/// A window satisfies at most one slot: once it is claimed, no event claims
/// it again.
pub proof fn law_window_satisfies_one_slot(
    run: RestoreRunView,
    identity: WindowIdentityView,
    event: DomainEventView,
    address: Seq<char>,
)
    requires
        run.claimed.contains(address),
    ensures
        claimed_by(run, identity, event) != Some(address),
{
}

/// How many actions a step has before it at most.
pub open spec fn actions_left(phase: StepPhase) -> nat {
    match phase {
        StepPhase::Launching => 3,
        StepPhase::Waiting => 2,
        StepPhase::Settling => 1,
        StepPhase::Done(_) => 0,
    }
}

/// A step is never hung on: whatever an action's outcome, fewer are left, and
/// the step ends ready only if it launched and became ready.
pub proof fn law_steps_end(
    phase: StepPhase,
    step: LaunchStepView,
    success: bool,
    default_timeout_ms: u64,
)
    requires
        !(phase is Done),
    ensures
        ({
            let (next, report, action) = next_of(phase, step, success, default_timeout_ms);
            &&& actions_left(next) < actions_left(phase)
            &&& next is Done <==> action is Finish
            &&& action matches StepActionView::Finish(ready) ==> next == StepPhase::Done(ready)
                && report is Some
            &&& next == StepPhase::Done(true) ==> success || phase is Settling
        }),
{
}

/// A service is never matched to a window: whatever its readiness, no window
/// is waited for.
pub proof fn law_services_await_no_window(
    phase: StepPhase,
    step: LaunchStepView,
    success: bool,
    default_timeout_ms: u64,
)
    requires
        step.spec.service,
    ensures
        !(next_of(phase, step, success, default_timeout_ms).2 is AwaitWindow),
{
}

proof fn lemma_joined_front(first: Seq<char>, rest: Seq<Seq<char>>, sep: Seq<char>)
    requires
        rest.len() > 0,
    ensures
        joined(seq![first] + rest, sep) == first + sep + joined(rest, sep),
    decreases rest.len(),
{
    let all = seq![first] + rest;
    assert(all.last() == rest.last());
    if rest.len() == 1 {
        assert(all.drop_last() =~= seq![first]);
        reveal_with_fuel(joined, 2);
    } else {
        assert(all.drop_last() =~= seq![first] + rest.drop_last());
        lemma_joined_front(first, rest.drop_last(), sep);
        assert(joined(all, sep) =~= first + sep + joined(rest, sep));
    }
}

/// The command line of a launch is its command; an argument more stands quoted
/// behind it, a variable more stands before it with its quoted value, and a
/// directory is changed to before all of it.
pub proof fn law_command_lines_hold_everything(
    spec: LaunchSpecView,
    home: Option<Seq<char>>,
    arg: Seq<char>,
    variable: (Seq<char>, Seq<char>),
    workdir: Seq<char>,
)
    ensures
        spec.workdir is None && spec.env.len() == 0 && spec.args.len() == 0 ==> shell_command(
            spec,
            home,
        ) == spec.command,
        shell_command(LaunchSpecView { args: spec.args.push(arg), ..spec }, home) == shell_command(
            spec,
            home,
        ) + " "@ + shell_quoted(arg),
        spec.workdir is None ==> shell_command(
            LaunchSpecView { env: seq![variable] + spec.env, ..spec },
            home,
        ) == variable.0 + "="@ + shell_quoted(variable.1) + " "@ + shell_command(spec, home),
        spec.workdir is None ==> shell_command(
            LaunchSpecView { workdir: Some(workdir), ..spec },
            home,
        ) == "cd "@ + shell_quoted(home_expanded(workdir, home)) + " &&"@ + " "@ + shell_command(
            spec,
            home,
        ),
{
    let start = directory_change(spec, home);
    let env = assignments(spec.env);
    let args = quoted_args(spec.args);
    let parts = start + env + seq![spec.command] + args;
    if spec.workdir is None && spec.env.len() == 0 && spec.args.len() == 0 {
        assert(parts =~= seq![spec.command]);
        reveal_with_fuel(joined, 2);
    }
    let longer = LaunchSpecView { args: spec.args.push(arg), ..spec };
    assert(quoted_args(longer.args) =~= args.push(shell_quoted(arg)));
    let more = directory_change(longer, home) + assignments(longer.env) + seq![longer.command]
        + quoted_args(longer.args);
    assert(more =~= parts.push(shell_quoted(arg)));
    assert(more.drop_last() =~= parts);
    assert(more.last() == shell_quoted(arg));
    assert(more.len() > 1);
    if spec.workdir is None {
        let set = LaunchSpecView { env: seq![variable] + spec.env, ..spec };
        let first = variable.0 + "="@ + shell_quoted(variable.1);
        assert(assignments(set.env) =~= seq![first] + env);
        assert(directory_change(set, home) + assignments(set.env) + seq![set.command]
            + quoted_args(set.args) =~= seq![first] + parts);
        lemma_joined_front(first, parts, " "@);
        let there = LaunchSpecView { workdir: Some(workdir), ..spec };
        let change = "cd "@ + shell_quoted(home_expanded(workdir, home)) + " &&"@;
        assert(directory_change(there, home) + assignments(there.env) + seq![there.command]
            + quoted_args(there.args) =~= seq![change] + parts);
        lemma_joined_front(change, parts, " "@);
    }
}

/// A leading tilde stands for the home directory where that is known; any
/// other path stays as it is.
pub proof fn law_tilde_stands_for_home(rest: Seq<char>, home: Seq<char>, path: Seq<char>)
    ensures
        home_expanded("~"@ + rest, Some(home)) == home + rest,
        home_expanded(path, None) == path,
        path.len() == 0 || path[0] != '~' ==> home_expanded(path, Some(home)) == path,
{
    reveal_strlit("~");
    let full = "~"@ + rest;
    assert(full.take(1) =~= "~"@);
    assert(full.skip(1) =~= rest);
    if path.len() > 0 && path[0] != '~' {
        assert(path.take(1)[0] != "~"@[0]);
    }
}

/// A service is started by the shell; everything else by the compositor, on the
/// project's workspace and without going there. Both run the command line of
/// the launch.
pub proof fn law_launches_go_to_the_workspace(
    step: LaunchStepView,
    workspace: Seq<char>,
    home: Option<Seq<char>>,
)
    ensures
        ({
            let line = shell_command(step.spec, home);
            let action = launch_action(step, workspace, home);
            &&& step.spec.service ==> action == StepActionView::Spawn(line)
            &&& !step.spec.service ==> (action matches StepActionView::Tell(
                DispatchView::Exec { rules, command },
            ) && command == line && rules.len() == 1 && rules[0] == "workspace name:"@ + workspace
                + " silent"@)
        }),
{
}

/// A step that has launched is ready at once, or when its probe succeeds, or
/// when its window opens, as its readiness says; what it waits for may take as
/// long as its own timeout says, or else the default one. Once it is ready its
/// startup delay passes. It ends failed, timed out or ready.
pub proof fn law_steps_wait_for_their_readiness(
    step: LaunchStepView,
    success: bool,
    default_timeout_ms: u64,
)
    ensures
        ({
            let (phase, report, action) = next_of(
                StepPhase::Launching,
                step,
                success,
                default_timeout_ms,
            );
            let timeout = if step.spec.timeout_ms is Some {
                step.spec.timeout_ms->0
            } else {
                default_timeout_ms
            };
            let at_once = step.readiness is Delay || step.readiness is Window && step.spec.service;
            &&& !success ==> phase == StepPhase::Done(false) && report == Some("failed"@)
            &&& success && (step.readiness matches ReadinessView::Command { cmd, interval_ms })
                ==> phase is Waiting && report is None && (action matches StepActionView::Probe {
                cmd: probe,
                interval_ms: interval,
                timeout_ms,
            } && timeout_ms == timeout && step.readiness == (ReadinessView::Command {
                cmd: probe,
                interval_ms: interval,
            }))
            &&& success && step.readiness is Window && !step.spec.service ==> phase is Waiting
                && report is None && action == (StepActionView::AwaitWindow { timeout_ms: timeout })
            &&& success && at_once && step.spec.startup_delay_ms == 0 ==> phase == StepPhase::Done(
                true,
            ) && report == Some("ready"@)
            &&& success && at_once && step.spec.startup_delay_ms > 0 ==> phase is Settling
                && report is None && action == (StepActionView::Sleep {
                ms: step.spec.startup_delay_ms,
            })
        }),
        ({
            let (phase, report, action) = next_of(
                StepPhase::Waiting,
                step,
                success,
                default_timeout_ms,
            );
            &&& !success ==> phase == StepPhase::Done(false) && report == Some("timeout"@)
            &&& success && step.spec.startup_delay_ms == 0 ==> phase == StepPhase::Done(true)
                && report == Some("ready"@)
            &&& success && step.spec.startup_delay_ms > 0 ==> phase is Settling && report is None
                && action == (StepActionView::Sleep { ms: step.spec.startup_delay_ms })
        }),
        next_of(StepPhase::Settling, step, success, default_timeout_ms).0 == StepPhase::Done(true),
        next_of(StepPhase::Settling, step, success, default_timeout_ms).1 == Some("ready"@),
{
}

/// A window that opens is claimed by a waiting slot exactly if no slot has
/// claimed it and its class is the one that the slot is recognised by, upper and
/// lower case aside: the class of the slot, or its initial class where it has
/// none, or any where it has neither. Nothing but an opening window is claimed.
pub proof fn law_claims_go_by_class(
    run: RestoreRunView,
    identity: WindowIdentityView,
    address: Seq<char>,
    class: Seq<char>,
    title: Seq<char>,
    workspace: Seq<char>,
    other: DomainEventView,
)
    ensures
        ({
            let opened = DomainEventView::WindowOpened { address, class, title, workspace };
            let fits = match (identity.class, identity.initial_class) {
                (Some(wanted), _) => unicode_lowercase(class) == unicode_lowercase(wanted),
                (None, Some(wanted)) => unicode_lowercase(class) == unicode_lowercase(wanted),
                (None, None) => true,
            };
            &&& fits && !run.claimed.contains(address) ==> claimed_by(run, identity, opened)
                == Some(address)
            &&& !fits || run.claimed.contains(address) ==> claimed_by(run, identity, opened) is None
            &&& !(other is WindowOpened) ==> claimed_by(run, identity, other) is None
        }),
{
}

/// A step launches exactly if nothing that it waits for has failed by then:
/// neither before its wave nor as an earlier step of it. What has failed after
/// a wave is what had failed before it and the steps of it that did not launch.
pub proof fn law_steps_launch_unless_blocked(
    steps: Seq<LaunchStepView>,
    failed: Seq<Seq<char>>,
    i: int,
    label: Seq<char>,
)
    requires
        0 <= i < steps.len(),
    ensures
        launching(steps, failed).len() == steps.len(),
        (forall|d: int|
            0 <= d < steps[i].after.len() ==> !failed.contains(#[trigger] steps[i].after[d])
                && forall|j: int|
                0 <= j < i ==> (#[trigger] steps[j]).label != steps[i].after[d]) ==> launching(
            steps,
            failed,
        )[i],
        failing(steps, failed).contains(label) <==> failed.contains(label) || exists|j: int|
            0 <= j < steps.len() && (#[trigger] steps[j]).label == label && !launching(
                steps,
                failed,
            )[j],
{
    lemma_failing_held(steps, failed, label);
    if forall|d: int|
        0 <= d < steps[i].after.len() ==> !failed.contains(#[trigger] steps[i].after[d]) && forall|
            j: int,
        |
            0 <= j < i ==> (#[trigger] steps[j]).label != steps[i].after[d] {
        let before = failing(steps.take(i), failed);
        assert forall|d: int| 0 <= d < steps[i].after.len() implies !before.contains(
            #[trigger] steps[i].after[d],
        ) by {
            lemma_failing_held(steps.take(i), failed, steps[i].after[d]);
            assert forall|j: int| 0 <= j < i implies (#[trigger] steps.take(i)[j]).label
                != steps[i].after[d] by {
                assert(steps[j].label != steps[i].after[d]);
            }
        }
    }
}

proof fn lemma_failing_held(
    steps: Seq<LaunchStepView>,
    failed: Seq<Seq<char>>,
    label: Seq<char>,
)
    ensures
        failing(steps, failed).contains(label) <==> failed.contains(label) || exists|j: int|
            0 <= j < steps.len() && (#[trigger] steps[j]).label == label && !launching(
                steps,
                failed,
            )[j],
    decreases steps.len(),
{
    if steps.len() > 0 {
        let front = steps.drop_last();
        let end = steps.len() - 1;
        lemma_failing_held(front, failed, label);
        let before = failing(front, failed);
        let now = failing(steps, failed);
        assert(steps.take(end) =~= front);
        assert forall|j: int| 0 <= j < front.len() implies #[trigger] launching(front, failed)[j]
            == launching(steps, failed)[j] by {
            assert(front.take(j) =~= steps.take(j));
        }
        if now.contains(label) {
            let k = choose|k: int| 0 <= k < now.len() && now[k] == label;
            if k < before.len() {
                assert(before[k] == label);
                assert(before.contains(label));
                if !failed.contains(label) {
                    let j = choose|j: int|
                        0 <= j < front.len() && (#[trigger] front[j]).label == label && !launching(
                            front,
                            failed,
                        )[j];
                    assert(steps[j].label == label && !launching(steps, failed)[j]);
                }
            } else {
                assert(steps[end].label == label && !launching(steps, failed)[end]);
            }
        }
        if failed.contains(label) || exists|j: int|
            0 <= j < steps.len() && (#[trigger] steps[j]).label == label && !launching(
                steps,
                failed,
            )[j] {
            if before.contains(label) {
                let k = choose|k: int| 0 <= k < before.len() && before[k] == label;
                assert(now[k] == label);
            } else {
                let j = choose|j: int|
                    0 <= j < steps.len() && (#[trigger] steps[j]).label == label && !launching(
                        steps,
                        failed,
                    )[j];
                if j < front.len() {
                    assert(front[j].label == label && !launching(front, failed)[j]);
                }
                assert(now[before.len() as int] == label);
            }
        }
    }
}

} // verus!
