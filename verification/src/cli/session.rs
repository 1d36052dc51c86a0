//! How the client talks to the daemon: which line answers a request, what a
//! query means, and how a restore run is followed to its end.

use vstd::prelude::*;

use crate::domain::events::DomainEvent;
use crate::domain::events::DomainEventView;
use crate::domain::restore::{AdoptStep, LaunchStep, RestorePlan};
use crate::domain::restore::{launch_total, AdoptStepView, LaunchStepView, RestorePlanView};
use crate::numbers::{parse_unsigned, render};
use crate::numbers::{decimal, law_written_numbers_read_back, natural_value};
use crate::pieces::{join, trim};
use crate::pieces::{is_blank, joined, law_trimming_takes_off_white_space, trimmed};
use crate::proto::{ErrorBody, ProjectSummary, Reply, Request, RequestEnvelope, PROTOCOL_VERSION};
use crate::proto::{code_text, ErrorBodyView};
use crate::text::same;
use crate::text::{finishes, holds, is_space};

verus! {

/// Process exit code used when the daemon is unreachable.
pub const EXIT_DAEMON_DOWN: u8 = 3;

// ---- requests -----------------------------------------------------------------------------

/// The next request, under the next id.
pub fn next_request(next_id: u64, request: Request) -> (r: (RequestEnvelope, u64))
    requires
        next_id < u64::MAX,
    ensures
        r.0.v == PROTOCOL_VERSION,
        r.0.id == next_id,
        r.0.request == request,
        r.1 == next_id + 1,
{
    (RequestEnvelope { v: PROTOCOL_VERSION, id: next_id, request }, next_id + 1)
}

/// A line from the daemon.
#[derive(Debug)]
pub enum Incoming<T> {
    /// A response.
    Response {
        /// The id of the request.
        id: u64,
        /// Its outcome; a failure should come with an error body.
        outcome: Result<T, Option<ErrorBody>>,
    },
    /// A pushed event.
    Event,
    /// A line that is neither.
    Unparseable(String),
    /// The connection was closed.
    Closed,
}

/// What a line means to a client that waits for a response.
#[derive(Debug)]
pub enum Verdict<T> {
    /// Wait for the next line.
    Wait,
    /// The request succeeded.
    Success(T),
    /// The request failed, and why.
    Failure(String),
}

/// What is said of a failed request.
pub open spec fn failure_text(error: ErrorBodyView) -> Seq<char> {
    error.message + " ("@ + code_text(error.code) + ")"@
}

/// Judge a line while waiting for the response to a request: events and stale
/// responses are passed over.
pub fn judge<T>(id: u64, incoming: Incoming<T>) -> (r: Verdict<T>)
    ensures
        match incoming {
            Incoming::Response { id: other, outcome } => if other != id {
                r is Wait
            } else {
                match outcome {
                    Ok(reply) => r == Verdict::Success(reply),
                    Err(Some(error)) => r matches Verdict::Failure(text) && text@
                        == failure_text(error@),
                    Err(None) => r matches Verdict::Failure(text) && text@
                        == "failed response without error body"@,
                }
            },
            Incoming::Event => r is Wait,
            Incoming::Unparseable(line) => r matches Verdict::Failure(text) && text@
                == "daemon sent an unparseable line: "@ + line@,
            Incoming::Closed => r matches Verdict::Failure(text) && text@
                == "daemon closed the connection before responding"@,
        },
{
    match incoming {
        Incoming::Response { id: other, outcome } => {
            if other != id {
                return Verdict::Wait;
            }
            match outcome {
                Ok(reply) => Verdict::Success(reply),
                Err(None) => Verdict::Failure("failed response without error body".to_owned()),
                Err(Some(error)) => {
                    let mut text = error.message.clone();
                    text.append(" (");
                    text.append(error.code.text());
                    text.append(")");
                    Verdict::Failure(text)
                },
            }
        },
        Incoming::Event => Verdict::Wait,
        Incoming::Unparseable(line) => {
            let mut text = "daemon sent an unparseable line: ".to_owned();
            text.append(line.as_str());
            Verdict::Failure(text)
        },
        Incoming::Closed => Verdict::Failure(
            "daemon closed the connection before responding".to_owned(),
        ),
    }
}

/// What is said when the daemon cannot be reached.
pub fn unreachable_text(path: &str) -> (r: String)
    ensures
        r@ == "daemon not running (cannot connect to "@ + path@
            + ") \u{2014} start it with `workspace-daemon` or check `workspace doctor`"@,
{
    let mut out = "daemon not running (cannot connect to ".to_owned();
    out.append(path);
    out.append(") \u{2014} start it with `workspace-daemon` or check `workspace doctor`");
    out
}

// ---- questions ----------------------------------------------------------------------------

/// Whether an answer confirms.
pub open spec fn is_yes(answer: Seq<char>) -> bool {
    trimmed(answer) == "y"@ || trimmed(answer) == "Y"@ || trimmed(answer) == "yes"@
}

/// Whether an answer to a question confirms.
pub fn confirms(answer: &str) -> (r: bool)
    ensures
        r == is_yes(answer@),
{
    let answer = trim(answer);
    same(answer.as_str(), "y") || same(answer.as_str(), "Y") || same(answer.as_str(), "yes")
}

/// The position that a query asks for, if it is a 1-based number.
pub open spec fn position_of(query: Seq<char>) -> Option<int> {
    match natural_value(query) {
        Some(n) => if 1 <= n <= usize::MAX {
            Some(n)
        } else {
            None
        },
        None => None,
    }
}

/// Read `--index N`: the 1-based position in the panel order, or what to say
/// of it.
pub fn read_position(query: &str) -> (r: Result<usize, String>)
    ensures
        match (r, position_of(query@)) {
            (Ok(n), Some(expected)) => n == expected,
            (Err(text), None) => text@ == "error: --index takes a 1-based number, got '"@ + query@
                + "'"@,
            _ => false,
        },
{
    match parse_unsigned(query) {
        Some(n) if n >= 1 && n <= usize::MAX as u64 => Ok(n as usize),
        _ => {
            let mut text = "error: --index takes a 1-based number, got '".to_owned();
            text.append(query);
            text.append("'");
            Err(text)
        },
    }
}

/// The slug of the project at a 1-based position, or what to say when there
/// is none.
pub fn project_at(projects: &Vec<ProjectSummary>, position: usize) -> (r: Result<String, String>)
    requires
        position >= 1,
    ensures
        match r {
            Ok(slug) => position <= projects.len() && slug@ == projects@[position - 1]@.slug,
            Err(text) => position > projects.len() && text@ == "error: no project at position "@
                + decimal(position as nat) + " (there are "@ + decimal(projects.len() as nat)
                + ")"@,
        },
{
    if position <= projects.len() {
        return Ok(projects[position - 1].slug.as_str().to_owned());
    }
    let mut text = "error: no project at position ".to_owned();
    text.append(render(position as u64).as_str());
    text.append(" (there are ");
    text.append(render(projects.len() as u64).as_str());
    text.append(")");
    Err(text)
}

// ---- groups -------------------------------------------------------------------------------

/// `workspace group <cmd>`.
#[derive(Debug)]
pub enum GroupCmd {
    /// Create a group.
    Create {
        /// Project query.
        project: String,
        /// Display name.
        name: String,
        /// Explicit slug.
        slug: Option<String>,
    },
    /// Put a window into a group.
    Add {
        /// Project query.
        project: String,
        /// Group slug.
        group: String,
        /// Window address.
        address: String,
    },
    /// Take a window out of a group.
    Remove {
        /// Project query.
        project: String,
        /// Group slug.
        group: String,
        /// Window address.
        address: String,
    },
    /// Park a group's windows off-screen.
    Hide {
        /// Project query.
        project: String,
        /// Group slug.
        group: String,
    },
    /// Bring a group's windows back.
    Show {
        /// Project query.
        project: String,
        /// Group slug.
        group: String,
    },
    /// Focus a group.
    Focus {
        /// Project query.
        project: String,
        /// Group slug.
        group: String,
    },
    /// Move a group to another project.
    Move {
        /// Project query.
        project: String,
        /// Group slug.
        group: String,
        /// Destination project query.
        to: String,
    },
}

/// The request of a group command.
pub fn group_request(cmd: GroupCmd) -> (r: Request)
    ensures
        r == (match cmd {
            GroupCmd::Create { project, name, slug } => Request::GroupCreate {
                project,
                name,
                slug,
            },
            GroupCmd::Add { project, group, address } => Request::GroupAdd {
                project,
                group,
                address,
            },
            GroupCmd::Remove { project, group, address } => Request::GroupRemove {
                project,
                group,
                address,
            },
            GroupCmd::Hide { project, group } => Request::GroupHide { project, group },
            GroupCmd::Show { project, group } => Request::GroupShow { project, group },
            GroupCmd::Focus { project, group } => Request::GroupFocus { project, group },
            GroupCmd::Move { project, group, to } => Request::GroupMove { project, group, to },
        }),
{
    match cmd {
        GroupCmd::Create { project, name, slug } => Request::GroupCreate { project, name, slug },
        GroupCmd::Add { project, group, address } => Request::GroupAdd { project, group, address },
        GroupCmd::Remove { project, group, address } => Request::GroupRemove {
            project,
            group,
            address,
        },
        GroupCmd::Hide { project, group } => Request::GroupHide { project, group },
        GroupCmd::Show { project, group } => Request::GroupShow { project, group },
        GroupCmd::Focus { project, group } => Request::GroupFocus { project, group },
        GroupCmd::Move { project, group, to } => Request::GroupMove { project, group, to },
    }
}

// ---- restore ------------------------------------------------------------------------------

/// The line about an adopted window.
pub open spec fn adopt_text(step: AdoptStepView) -> Seq<char> {
    "  adopt   "@ + step.label + " ("@ + step.address + ")"@ + (if step.needs_move {
        " -> move to project workspace"@
    } else {
        ""@
    })
}

/// The line about a launched slot.
pub open spec fn launch_text(wave: nat, step: LaunchStepView) -> Seq<char> {
    "  launch  [wave "@ + decimal(wave) + "] "@ + step.label + " ("@ + step.spec.command + ")"@
}

/// The lines about the slots of a wave.
pub open spec fn wave_text(number: nat, wave: Seq<LaunchStepView>) -> Seq<Seq<char>> {
    Seq::new(wave.len(), |i: int| launch_text(number, wave[i]))
}

/// The lines about the first waves.
pub open spec fn waves_text(waves: Seq<Seq<LaunchStepView>>) -> Seq<Seq<char>>
    decreases waves.len(),
{
    if waves.len() == 0 {
        seq![]
    } else {
        waves_text(waves.drop_last()) + wave_text(waves.len(), waves.last())
    }
}

/// The line about a window that is left alone.
pub open spec fn extra_text(address: Seq<char>) -> Seq<char> {
    "  keep    "@ + address + " (no matching slot)"@
}

/// The lines that show a plan.
pub open spec fn plan_text(plan: RestorePlanView) -> Seq<Seq<char>> {
    seq!["plan for '"@ + plan.project + "':"@] + Seq::new(
        plan.adopt.len(),
        |i: int| adopt_text(plan.adopt[i]),
    ) + waves_text(plan.waves) + Seq::new(plan.extra.len(), |i: int| extra_text(plan.extra[i]))
}

fn around(before: &str, text: &str, after: &str) -> (r: String)
    ensures
        r@ == before@ + text@ + after@,
{
    let mut out = before.to_owned();
    out.append(text);
    out.append(after);
    out
}

fn adopt_line(step: &AdoptStep) -> (r: String)
    ensures
        r@ == adopt_text(step@),
{
    let mut out = around("  adopt   ", step.label.as_str(), " (");
    out.append(step.address.as_str());
    out.append(")");
    out.append(
        if step.needs_move {
            " -> move to project workspace"
        } else {
            ""
        },
    );
    out
}

fn launch_line(wave: usize, step: &LaunchStep) -> (r: String)
    ensures
        r@ == launch_text(wave as nat, step@),
{
    let mut out = around("  launch  [wave ", render(wave as u64).as_str(), "] ");
    out.append(step.label.as_str());
    out.append(" (");
    out.append(step.spec.command.as_str());
    out.append(")");
    out
}

/// Show a plan.
pub fn plan_lines(plan: &RestorePlan) -> (r: Vec<String>)
    ensures
        r.deep_view() == plan_text(plan@),
{
    let mut out: Vec<String> = Vec::new();
    out.push(around("plan for '", plan.project.as_str(), "':"));
    let ghost head = out.deep_view();
    assert(head =~= seq!["plan for '"@ + plan@.project + "':"@]);
    let ghost adopt_views = plan.adopt.deep_view();
    let ghost adopts = Seq::new(adopt_views.len(), |i: int| adopt_text(adopt_views[i]));
    let mut i: usize = 0;
    assert(head + adopts.take(0) =~= head);
    while i < plan.adopt.len()
        invariant
            i <= plan.adopt.len(),
            adopt_views == plan.adopt.deep_view(),
            adopts == Seq::new(adopt_views.len(), |i: int| adopt_text(adopt_views[i])),
            out.deep_view() == head + adopts.take(i as int),
        decreases plan.adopt.len() - i,
    {
        let ghost before = out.deep_view();
        assert(adopt_views[i as int] == plan.adopt@[i as int]@);
        let line = adopt_line(&plan.adopt[i]);
        out.push(line);
        assert(out.deep_view() =~= before.push(line@));
        assert(out.deep_view() =~= head + adopts.take(i + 1));
        i = i + 1;
    }
    assert(adopts.take(i as int) =~= adopts);
    let ghost middle = head + adopts;
    let ghost waves = plan.waves.deep_view();
    let mut w: usize = 0;
    assert(waves.take(0) =~= seq![]);
    assert(middle + waves_text(waves.take(0)) =~= middle);
    while w < plan.waves.len()
        invariant
            w <= plan.waves.len(),
            waves == plan.waves.deep_view(),
            out.deep_view() == middle + waves_text(waves.take(w as int)),
        decreases plan.waves.len() - w,
    {
        let ghost before = out.deep_view();
        let wave = &plan.waves[w];
        let ghost steps = wave.deep_view();
        assert(waves[w as int] == steps);
        let ghost text = wave_text((w + 1) as nat, steps);
        let mut k: usize = 0;
        assert(before + text.take(0) =~= before);
        while k < wave.len()
            invariant
                w < plan.waves.len(),
                k <= wave.len(),
                steps == wave.deep_view(),
                text == wave_text((w + 1) as nat, steps),
                out.deep_view() == before + text.take(k as int),
            decreases wave.len() - k,
        {
            let ghost so_far = out.deep_view();
            assert(steps[k as int] == wave@[k as int]@);
            let line = launch_line(w + 1, &wave[k]);
            out.push(line);
            assert(out.deep_view() =~= so_far.push(line@));
            assert(out.deep_view() =~= before + text.take(k + 1));
            k = k + 1;
        }
        proof {
            assert(text.take(k as int) =~= text);
            assert(waves.take(w + 1).drop_last() =~= waves.take(w as int));
            assert(out.deep_view() =~= middle + (waves_text(waves.take(w as int)) + text));
        }
        w = w + 1;
    }
    assert(waves.take(w as int) =~= waves);
    let ghost most = middle + waves_text(waves);
    let ghost extra = plan.extra.deep_view();
    let ghost extras = Seq::new(extra.len(), |i: int| extra_text(extra[i]));
    let mut e: usize = 0;
    assert(most + extras.take(0) =~= most);
    while e < plan.extra.len()
        invariant
            e <= plan.extra.len(),
            extra == plan.extra.deep_view(),
            extras == Seq::new(extra.len(), |i: int| extra_text(extra[i])),
            out.deep_view() == most + extras.take(e as int),
        decreases plan.extra.len() - e,
    {
        let ghost before = out.deep_view();
        assert(extra[e as int] == plan.extra@[e as int]@);
        let line = around("  keep    ", plan.extra[e].as_str(), " (no matching slot)");
        out.push(line);
        assert(out.deep_view() =~= before.push(line@));
        assert(out.deep_view() =~= most + extras.take(e + 1));
        e = e + 1;
    }
    assert(extras.take(e as int) =~= extras);
    out
}

/// What is said when a restore run starts.
pub fn restoring_line(plan: &RestorePlan) -> (r: String)
    requires
        launch_total(plan@.waves) <= usize::MAX,
    ensures
        r@ == "restoring '"@ + plan@.project + "': adopting "@ + decimal(plan@.adopt.len())
            + ", launching "@ + decimal(launch_total(plan@.waves)),
{
    let mut out = around("restoring '", plan.project.as_str(), "': adopting ");
    out.append(render(plan.adopt.len() as u64).as_str());
    out.append(", launching ");
    out.append(render(plan.launch_count() as u64).as_str());
    out
}

/// What an event means to a client that follows a restore run.
#[derive(Debug)]
pub enum RestoreNote {
    /// Nothing.
    Nothing,
    /// Say this and go on.
    Progress(String),
    /// Say this and exit with the code.
    Finished(String, u8),
}

/// What an event says about a restore run: the line, and the exit code if the
/// run is over.
pub open spec fn restore_text(event: DomainEventView) -> Option<(Seq<char>, Option<u8>)> {
    match event {
        DomainEventView::RestoreProgress { slot, state, .. } => Some(
            ("  "@ + slot + ": "@ + state, None),
        ),
        DomainEventView::RestoreFinished { adopted, launched, failed, .. } => {
            let counts = decimal(adopted as nat) + " adopted, "@ + decimal(launched as nat)
                + " launched"@;
            if failed.len() == 0 {
                Some(("done: "@ + counts, Some(0u8)))
            } else {
                Some(
                    (
                        "finished with failures: "@ + counts + ", failed: "@ + joined(failed, ", "@),
                        Some(1u8),
                    ),
                )
            }
        },
        _ => None,
    }
}

/// Follow a restore run by its events.
pub fn restore_note(event: &DomainEvent) -> (r: RestoreNote)
    ensures
        match (r, restore_text(event@)) {
            (RestoreNote::Nothing, None) => true,
            (RestoreNote::Progress(line), Some((text, None))) => line@ == text,
            (RestoreNote::Finished(line, code), Some((text, Some(expected)))) => line@ == text
                && code == expected,
            _ => false,
        },
{
    match event {
        DomainEvent::RestoreProgress { slot, state, .. } => {
            let mut line = around("  ", slot.as_str(), ": ");
            line.append(state.as_str());
            RestoreNote::Progress(line)
        },
        DomainEvent::RestoreFinished { adopted, launched, failed, .. } => {
            let mut counts = render(*adopted as u64);
            counts.append(" adopted, ");
            counts.append(render(*launched as u64).as_str());
            counts.append(" launched");
            if failed.len() == 0 {
                let mut line = "done: ".to_owned();
                line.append(counts.as_str());
                RestoreNote::Finished(line, 0)
            } else {
                let mut line = around("finished with failures: ", counts.as_str(), ", failed: ");
                line.append(join(failed, ", ").as_str());
                RestoreNote::Finished(line, 1)
            }
        },
        _ => RestoreNote::Nothing,
    }
}

/// A restore run is followed to its end: its last event ends the client, with
/// success exactly when no slot failed.
pub proof fn law_restore_ends_with_its_last_event(event: DomainEventView)
    ensures
        event is RestoreFinished <==> (restore_text(event) matches Some((_, Some(_)))),
        event matches DomainEventView::RestoreFinished { failed, .. } ==> (restore_text(
            event,
        ) matches Some((_, Some(code))) && (code == 0 <==> failed.len() == 0)),
{
}

proof fn lemma_holds_part(before: Seq<char>, text: Seq<char>, after: Seq<char>)
    ensures
        holds(before + text + after, text),
{
    let all = before + text + after;
    let at = before.len() as int;
    assert(all.subrange(at, at + text.len() as int) =~= text);
}

/// Whether a line is about a step that launches a slot.
pub open spec fn tells_of_launch(line: Seq<char>, wave: int, step: LaunchStepView) -> bool {
    &&& holds(line, decimal((wave + 1) as nat))
    &&& holds(line, step.label)
    &&& holds(line, step.spec.command)
}

/// Whether some line is about a step that launches a slot.
pub open spec fn is_told(lines: Seq<Seq<char>>, wave: int, step: LaunchStepView) -> bool {
    exists|i: int| 0 <= i < lines.len() && tells_of_launch(#[trigger] lines[i], wave, step)
}

proof fn lemma_launch_line(wave: int, step: LaunchStepView)
    requires
        0 <= wave,
    ensures
        tells_of_launch(launch_text((wave + 1) as nat, step), wave, step),
{
    let number = decimal((wave + 1) as nat);
    let line = launch_text((wave + 1) as nat, step);
    let a = "  launch  [wave "@;
    let b = "] "@;
    let c = " ("@;
    let d = ")"@;
    assert(line =~= a + number + (b + step.label + c + step.spec.command + d));
    lemma_holds_part(a, number, b + step.label + c + step.spec.command + d);
    assert(line =~= (a + number + b) + step.label + (c + step.spec.command + d));
    lemma_holds_part(a + number + b, step.label, c + step.spec.command + d);
    lemma_holds_part(a + number + b + step.label + c, step.spec.command, d);
}

proof fn lemma_waves_text(waves: Seq<Seq<LaunchStepView>>, w: int, k: int) -> (at: int)
    requires
        0 <= w < waves.len(),
        0 <= k < waves[w].len(),
    ensures
        0 <= at < waves_text(waves).len(),
        waves_text(waves)[at] == launch_text((w + 1) as nat, waves[w][k]),
    decreases waves.len(),
{
    let front = waves.drop_last();
    if w < front.len() {
        let at = lemma_waves_text(front, w, k);
        assert(front[w] == waves[w]);
        at
    } else {
        waves_text(front).len() + k
    }
}

/// A plan is shown with all its steps: every adopted window by label and
/// address, every launched slot by its wave, label and command, and every
/// window that is left alone by its address.
pub proof fn law_plans_show_every_step(plan: RestorePlanView)
    ensures
        holds(plan_text(plan)[0], plan.project),
        forall|i: int|
            0 <= i < plan.adopt.len() ==> holds(
                #[trigger] plan_text(plan)[i + 1],
                plan.adopt[i].label,
            ) && holds(plan_text(plan)[i + 1], plan.adopt[i].address),
        forall|w: int, k: int|
            0 <= w < plan.waves.len() && 0 <= k < plan.waves[w].len() ==> is_told(
                plan_text(plan),
                w,
                #[trigger] plan.waves[w][k],
            ),
        forall|i: int|
            0 <= i < plan.extra.len() ==> holds(
                plan_text(plan)[plan_text(plan).len() - plan.extra.len() + i],
                #[trigger] plan.extra[i],
            ),
{
    let lines = plan_text(plan);
    lemma_holds_part("plan for '"@, plan.project, "':"@);
    assert forall|i: int| 0 <= i < plan.adopt.len() implies holds(
        #[trigger] plan_text(plan)[i + 1],
        plan.adopt[i].label,
    ) && holds(plan_text(plan)[i + 1], plan.adopt[i].address) by {
        let step = plan.adopt[i];
        let end = if step.needs_move {
            " -> move to project workspace"@
        } else {
            ""@
        };
        let a = "  adopt   "@;
        let b = " ("@;
        let c = ")"@;
        assert(lines[i + 1] == adopt_text(step));
        assert(lines[i + 1] =~= a + step.label + (b + step.address + c + end));
        lemma_holds_part(a, step.label, b + step.address + c + end);
        assert(lines[i + 1] =~= (a + step.label + b) + step.address + (c + end));
        lemma_holds_part(a + step.label + b, step.address, c + end);
    }
    assert forall|w: int, k: int|
        0 <= w < plan.waves.len() && 0 <= k < plan.waves[w].len() implies is_told(
        plan_text(plan),
        w,
        #[trigger] plan.waves[w][k],
    ) by {
        let at = lemma_waves_text(plan.waves, w, k);
        lemma_launch_line(w, plan.waves[w][k]);
        assert(lines[1 + plan.adopt.len() + at] == waves_text(plan.waves)[at]);
        assert(tells_of_launch(lines[1 + plan.adopt.len() + at], w, plan.waves[w][k]));
    }
    assert forall|i: int| 0 <= i < plan.extra.len() implies holds(
        plan_text(plan)[plan_text(plan).len() - plan.extra.len() + i],
        #[trigger] plan.extra[i],
    ) by {
        let line = lines[lines.len() - plan.extra.len() + i];
        assert(line == extra_text(plan.extra[i]));
        lemma_holds_part("  keep    "@, plan.extra[i], " (no matching slot)"@);
    }
}

/// What happens to a slot is passed on with its name and state while the run
/// goes on; the last line tells how many windows were adopted and launched.
pub proof fn law_restore_notes_tell_what_happened(event: DomainEventView)
    ensures
        event matches DomainEventView::RestoreProgress { slot, state, .. } ==> (restore_text(
            event,
        ) matches Some((line, None)) && holds(line, slot) && finishes(line, state)),
        event matches DomainEventView::RestoreFinished { adopted, launched, .. } ==> (restore_text(
            event,
        ) matches Some((line, _)) && holds(line, decimal(adopted as nat)) && holds(
            line,
            decimal(launched as nat),
        )),
{
    match event {
        DomainEventView::RestoreProgress { slot, state, .. } => {
            let line = "  "@ + slot + ": "@ + state;
            assert(line =~= "  "@ + slot + (": "@ + state));
            lemma_holds_part("  "@, slot, ": "@ + state);
            assert(line.skip(line.len() - state.len()) =~= state);
        },
        DomainEventView::RestoreFinished { adopted, launched, failed, .. } => {
            let a = decimal(adopted as nat);
            let b = decimal(launched as nat);
            let (front, end) = if failed.len() == 0 {
                ("done: "@, seq![])
            } else {
                ("finished with failures: "@, ", failed: "@ + joined(failed, ", "@))
            };
            let counts = a + " adopted, "@ + b + " launched"@;
            let line = front + counts + end;
            assert(restore_text(event) matches Some((said, _)) && said =~= line);
            let m = " adopted, "@;
            let e = " launched"@;
            assert(line =~= front + a + (m + b + e + end));
            lemma_holds_part(front, a, m + b + e + end);
            assert(line =~= (front + a + m) + b + (e + end));
            lemma_holds_part(front + a + m, b, e + end);
        },
        _ => {},
    }
}

/// Positions count from one: every number from one on is read as it is
/// written, and zero is none.
pub proof fn law_positions_count_from_one(n: nat)
    requires
        n <= usize::MAX,
    ensures
        position_of(decimal(n)) == (if n == 0 {
            None
        } else {
            Some(n as int)
        }),
{
    law_written_numbers_read_back(n);
}

/// White space around an answer makes no difference, and an answer without a
/// `y` confirms nothing.
pub proof fn law_only_yes_confirms(answer: Seq<char>)
    ensures
        is_yes(answer) ==> answer.contains('y') || answer.contains('Y'),
        is_yes(answer) == is_yes(trimmed(answer)),
{
    reveal_strlit("y");
    reveal_strlit("Y");
    reveal_strlit("yes");
    law_trimming_takes_off_white_space(answer);
    let t = trimmed(answer);
    let (before, after) = choose|before: Seq<char>, after: Seq<char>|
        is_blank(before) && is_blank(after) && #[trigger] (before + t + after) == answer;
    if t.len() > 0 {
        assert(answer[before.len() as int] == t[0]);
    }
    law_trimming_takes_off_white_space(t);
    lemma_trimmed_stays(t);
}

proof fn lemma_trimmed_stays(t: Seq<char>)
    requires
        t.len() > 0 ==> !is_space(t[0]) && !is_space(t.last()),
    ensures
        trimmed(t) == t,
{
    assert(t.skip(0) =~= t);
}

} // verus!
