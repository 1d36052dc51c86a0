//! What is kept of a project's windows and brought back: saving, editing,
//! importing, restoring, recovering and what the tasks around the daemon
//! report, field by field.

use vstd::prelude::*;

use crate::daemon::capture::title_pattern_of;
use crate::daemon::commands::{slot_index, Command, Effect};
use crate::daemon::editing::{edited_args, profile_args, slot_named};
use crate::daemon::importing::{free_from, law_a_slug_is_always_free, numbered};
use crate::daemon::launcher::{adopting, placing};
use crate::daemon::requests::{Gathered, OutcomeView};
use crate::daemon::saving::{
    captured_index, kept_slot, matched_slot, monitor_name, saved_windows, services, slot_for,
    window_slots, CapturedView,
};
use crate::daemon::serving::{
    all_but_projects_stay, is_meant, is_meant_or_active, other_projects_stay,
};
use crate::daemon::state::{id_index, slug_index, StateView};
use crate::daemon::tracking::{
    announces, is_silent, other_windows_stay, settings_stay, surroundings_stay,
};
use crate::domain::events::DomainEventView;
use crate::domain::model::{is_slug, AppSlotView, PlacementView, ProjectId, ProjectView};
use crate::domain::restore::{candidates, reconciliation, restore_plan, AdoptStepView};
use crate::domain::world::{
    all_annotated, annotated, by_address, by_id, is_window_list, law_hydrate_preserves_assignments,
    lemma_filed, lemma_filed_by_address, lemma_window_list, window_list, AssignmentSourceView,
    MonitorInfoView, TrackedWindowView, WorkspaceInfoView, WorldView,
};
use crate::hypr::ctl::{DispatchView, WsTargetView};
use crate::hypr::model::canonical;
use crate::outside::hyphenated;
use crate::proto::{ReplyView, RequestView};
use crate::text::begins;

verus! {

// ---- places ------------------------------------------------------------------------------

proof fn lemma_id_at(projects: Seq<ProjectView>, i: int, from: int)
    requires
        0 <= from <= i < projects.len(),
        forall|j: int| from <= j < i ==> (#[trigger] projects[j]).id != projects[i].id,
    ensures
        id_index(projects, projects[i].id, from) == Some(i),
    decreases i - from,
{
    if from < i {
        assert(projects[from].id != projects[i].id);
        lemma_id_at(projects, i, from + 1);
    }
}

proof fn lemma_slug_somewhere(projects: Seq<ProjectView>, slug: Seq<char>, from: int)
    requires
        0 <= from,
    ensures
        match slug_index(projects, slug, from) {
            Some(i) => from <= i < projects.len() && projects[i].slug == slug,
            None => forall|j: int|
                from <= j < projects.len() ==> (#[trigger] projects[j]).slug != slug,
        },
    decreases projects.len() - from,
{
    if from < projects.len() {
        lemma_slug_somewhere(projects, slug, from + 1);
    }
}

proof fn lemma_slot_at(apps: Seq<AppSlotView>, k: int, from: int)
    requires
        0 <= from <= k < apps.len(),
        forall|j: int|
            from <= j < k ==> hyphenated((#[trigger] apps[j]).slot_id) != hyphenated(
                apps[k].slot_id,
            ),
    ensures
        slot_named(apps, hyphenated(apps[k].slot_id), from) == Some(k),
    decreases k - from,
{
    if from < k {
        assert(hyphenated(apps[from].slot_id) != hyphenated(apps[k].slot_id));
        lemma_slot_at(apps, k, from + 1);
    }
}

// ---- editing -----------------------------------------------------------------------------

proof fn lemma_profile_args(args: Seq<Seq<char>>, choosing: bool)
    ensures
        forall|arg: Seq<char>| #[trigger]
            profile_args(args, choosing).contains(arg) <==> args.contains(arg) && begins(
                arg,
                "--profile-directory"@,
            ) == choosing,
    decreases args.len(),
{
    if args.len() > 0 {
        let front = args.drop_last();
        lemma_profile_args(front, choosing);
        let before = profile_args(front, choosing);
        let now = profile_args(args, choosing);
        assert forall|arg: Seq<char>| #[trigger] now.contains(arg) <==> args.contains(arg)
            && begins(arg, "--profile-directory"@) == choosing by {
            if now.contains(arg) {
                let k = choose|k: int| 0 <= k < now.len() && now[k] == arg;
                if k < before.len() {
                    assert(before[k] == arg);
                    assert(before.contains(arg));
                    let j = choose|j: int| 0 <= j < front.len() && front[j] == arg;
                    assert(args[j] == arg);
                } else {
                    assert(args[args.len() - 1] == arg);
                }
            }
            if args.contains(arg) && begins(arg, "--profile-directory"@) == choosing {
                let j = choose|j: int| 0 <= j < args.len() && args[j] == arg;
                if j < front.len() {
                    assert(front[j] == arg);
                    assert(before.contains(arg));
                    let k = choose|k: int| 0 <= k < before.len() && before[k] == arg;
                    assert(now[k] == arg);
                } else {
                    assert(now[before.len() as int] == arg);
                }
            }
        }
    }
}

/// An edit of a slot sets the command, the directory and the profile that it
/// gives and keeps what it does not give: the rest of the launch settings, the
/// slot's identity, name, group and placement, the other slots and projects.
pub proof fn law_edits_set_what_they_give(
    state: StateView,
    query: Seq<char>,
    slot_id: Seq<char>,
    command: Option<Seq<char>>,
    workdir: Option<Seq<char>>,
    profile: Option<Seq<char>>,
    i: int,
    k: int,
    id: ProjectId,
    uptime: u64,
    gathered: Gathered,
    after: StateView,
    outcome: OutcomeView,
)
    requires
        is_meant(state, query, i),
        0 <= k < state.projects[i].apps.len(),
        hyphenated(state.projects[i].apps[k].slot_id) == slot_id,
        forall|j: int|
            0 <= j < k ==> hyphenated((#[trigger] state.projects[i].apps[j]).slot_id) != slot_id,
        (after, outcome) == state.answered(
            RequestView::SlotUpdate { project: query, slot_id, command, workdir, profile },
            id,
            uptime,
            gathered,
        ),
    ensures
        ({
            let had = state.projects[i].apps[k];
            let has = after.projects[i].apps[k];
            let line = match (command, had.launch) {
                (Some(line), _) => line,
                (None, Some(launch)) => launch.command,
                (None, None) => seq![],
            };
            &&& after.projects[i].apps.len() == state.projects[i].apps.len()
            &&& forall|j: int|
                0 <= j < state.projects[i].apps.len() && j != k
                    ==> #[trigger] after.projects[i].apps[j] == state.projects[i].apps[j]
            &&& after.projects[i] == (ProjectView {
                apps: after.projects[i].apps,
                ..state.projects[i]
            })
            &&& other_projects_stay(state, after, i)
            &&& all_but_projects_stay(state, after)
            &&& is_silent(state, after)
            &&& has == (AppSlotView { launch: has.launch, ..had })
            &&& line.len() == 0 ==> has.launch is None
            &&& line.len() > 0 ==> (has.launch matches Some(launch) && {
                &&& launch.command == line
                &&& workdir matches Some(dir) ==> launch.workdir == (if dir.len() == 0 {
                    None
                } else {
                    Some(dir)
                })
                &&& had.launch matches Some(old) ==> {
                    &&& workdir is None ==> launch.workdir == old.workdir
                    &&& launch.env == old.env
                    &&& launch.after == old.after
                    &&& launch.startup_delay_ms == old.startup_delay_ms
                    &&& launch.timeout_ms == old.timeout_ms
                    &&& launch.readiness == old.readiness
                    &&& launch.service == old.service
                    &&& command is None && profile is None ==> launch.args == old.args
                    &&& command is Some && profile is None ==> forall|arg: Seq<char>| #[trigger]
                        launch.args.contains(arg) <==> old.args.contains(arg) && begins(
                            arg,
                            "--profile-directory"@,
                        )
                    &&& command is None && profile is Some ==> forall|arg: Seq<char>|
                        !begins(arg, "--profile-directory"@) ==> (#[trigger] launch.args.contains(
                            arg,
                        ) <==> old.args.contains(arg))
                }
                &&& profile is Some && profile->0.len() > 0 ==> launch.args.len() > 0
                    && launch.args.last() == "--profile-directory="@ + profile->0 && forall|n: int|
                    0 <= n < launch.args.len() - 1 ==> !begins(
                        #[trigger] launch.args[n],
                        "--profile-directory"@,
                    )
                &&& profile is Some && profile->0.len() == 0 ==> forall|n: int|
                    0 <= n < launch.args.len() ==> !begins(
                        #[trigger] launch.args[n],
                        "--profile-directory"@,
                    )
            })
        }),
        outcome == OutcomeView::Reply(
            Ok(ReplyView::SlotUpdated { project: state.projects[i].slug, slot_id }),
        ),
{
    reveal_strlit("--profile-directory");
    reveal_strlit("--profile-directory=");
    lemma_id_at(state.projects, i, 0);
    lemma_slot_at(state.projects[i].apps, k, 0);
    let had = state.projects[i].apps[k];
    let args = match had.launch {
        Some(launch) => launch.args,
        None => seq![],
    };
    lemma_profile_args(args, true);
    let rest = if command is Some {
        profile_args(args, true)
    } else {
        args
    };
    lemma_profile_args(rest, false);
    let kept = profile_args(rest, false);
    let all = edited_args(args, command, profile);
    if let Some(name) = profile {
        assert forall|n: int| 0 <= n < kept.len() implies !begins(
            #[trigger] kept[n],
            "--profile-directory"@,
        ) by {
            assert(kept.contains(kept[n]));
        }
        assert forall|n: int|
            0 <= n < all.len() && !(name.len() > 0 && n == all.len() - 1) implies !begins(
            #[trigger] all[n],
            "--profile-directory"@,
        ) by {
            assert(all[n] == kept[n]);
        }
        let own = "--profile-directory="@ + name;
        assert(own.take("--profile-directory"@.len() as int) =~= "--profile-directory"@);
        assert forall|arg: Seq<char>|
            !begins(arg, "--profile-directory"@) implies (#[trigger] all.contains(arg)
            <==> kept.contains(arg)) by {
            if all.contains(arg) {
                let n = choose|n: int| 0 <= n < all.len() && all[n] == arg;
                assert(kept[n] == arg);
            }
            if kept.contains(arg) {
                let n = choose|n: int| 0 <= n < kept.len() && kept[n] == arg;
                assert(all[n] == arg);
            }
        }
    }
}

// ---- importing ---------------------------------------------------------------------------

/// An imported project is as its file says but for its id, and for its slug
/// where another has it: with force it takes that one's place and id; without,
/// it comes last, under its own slug if that is free and else under that slug
/// with a number, which no project has.
pub proof fn law_imports_are_as_their_file_says(
    state: StateView,
    toml: Seq<char>,
    force: bool,
    id: ProjectId,
    uptime: u64,
    gathered: Gathered,
    after: StateView,
    outcome: OutcomeView,
)
    requires
        gathered.imported matches Ok(file) ==> is_slug(file@.slug),
        (after, outcome) == state.answered(
            RequestView::ProjectImport { toml, force },
            id,
            uptime,
            gathered,
        ),
    ensures
        gathered.imported is Err ==> after == state && (outcome matches OutcomeView::Reply(Err(_))),
        gathered.imported matches Ok(file) ==> {
            let known = exists|j: int|
                0 <= j < state.projects.len() && (#[trigger] state.projects[j]).slug == file@.slug;
            &&& after.projects.len() == state.projects.len() ==> forall|j: int|
                0 <= j < state.projects.len() ==> #[trigger] after.projects[j]
                    == state.projects[j] || force && state.projects[j].slug == file@.slug
                    && after.projects[j] == (ProjectView { id: state.projects[j].id, ..file@ })
            &&& after.projects.len() != state.projects.len() ==> {
                let made = after.projects.last();
                &&& after.projects.len() == state.projects.len() + 1
                &&& after.projects.drop_last() == state.projects
                &&& made == (ProjectView { id, slug: made.slug, ..file@ })
                &&& !known ==> made.slug == file@.slug
                &&& known ==> !force && exists|n: nat| made.slug == #[trigger] numbered(
                    file@.slug,
                    n,
                )
                &&& forall|j: int|
                    0 <= j < state.projects.len() ==> (#[trigger] state.projects[j]).slug
                        != made.slug
            }
            &&& known && force ==> (outcome matches OutcomeView::Reply(
                Ok(ReplyView::Project(shown)),
            ) && shown.slug == file@.slug && shown.name == file@.name) && exists|j: int|
                0 <= j < state.projects.len() && (#[trigger] after.projects[j]) == (ProjectView {
                    id: state.projects[j].id,
                    ..file@
                }) && state.projects[j].slug == file@.slug
            &&& !known && (forall|w: i64| #[trigger]
                state.world.workspaces.dom().contains(w) ==> state.world.workspaces[w].name
                    != state.config.general.workspace_prefix + file@.slug) ==> after.projects.len()
                == state.projects.len() + 1
        },
        all_but_projects_stay(state, after),
{
    if let Ok(file) = gathered.imported {
        let slug = file@.slug;
        lemma_slug_somewhere(state.projects, slug, 0);
        match slug_index(state.projects, slug, 0) {
            Some(i) => {
                assert(state.projects[i].slug == slug);
                if force {
                    assert(after.projects[i] == (ProjectView { id: state.projects[i].id, ..file@ }));
                } else {
                    law_a_slug_is_always_free(state.projects, slug);
                    lemma_free_from(state.projects, slug, 1);
                    let made = free_from(state.projects, slug, 1)->0;
                    lemma_slug_somewhere(state.projects, made, 0);
                }
            },
            None => {},
        }
        if after.projects.len() != state.projects.len() {
            assert(after.projects.drop_last() =~= state.projects);
        }
    }
}

proof fn lemma_free_from(projects: Seq<ProjectView>, slug: Seq<char>, n: nat)
    ensures
        free_from(projects, slug, n) matches Some(free) ==> slug_index(projects, free, 0) is None
            && exists|m: nat| free == #[trigger] numbered(slug, m),
    decreases projects.len() + 1 - n,
{
    if n <= projects.len() && slug_index(projects, numbered(slug, n), 0) is Some {
        lemma_free_from(projects, slug, n + 1);
    }
}

// ---- saving ------------------------------------------------------------------------------

/// Whether a window counts as one of a project's: it is assigned to the
/// project, or it is on the project's workspace and assigned to none.
pub open spec fn counts_for(
    state: StateView,
    project: ProjectView,
    window: TrackedWindowView,
) -> bool {
    match window.assignment {
        Some((owner, _)) => owner == project.id,
        None => window.facts.workspace == state.config.general.workspace_prefix + project.slug,
    }
}

/// Whether a slot records how a window looks: what it is recognised by, where
/// it is and how, and its group.
pub open spec fn records_looks(
    slot: AppSlotView,
    window: TrackedWindowView,
    monitors: Seq<MonitorInfoView>,
) -> bool {
    let facts = window.facts;
    &&& facts.class.len() > 0 ==> slot.identity.class == Some(facts.class)
    &&& facts.class.len() == 0 ==> slot.identity.class is None
    &&& facts.initial_class.len() > 0 ==> slot.identity.initial_class == Some(facts.initial_class)
    &&& facts.initial_class.len() == 0 ==> slot.identity.initial_class is None
    &&& slot.identity.executable == facts.executable
    &&& slot.identity.title_pattern == title_pattern_of(facts)
    &&& slot.placement.floating == facts.floating
    &&& slot.placement.position == Some(facts.at)
    &&& slot.placement.size == Some(facts.size)
    &&& slot.placement.fullscreen == facts.fullscreen
    &&& slot.placement.monitor matches Some(name) ==> exists|m: int|
        0 <= m < monitors.len() && (#[trigger] monitors[m]).id == facts.monitor
            && monitors[m].name == name
    &&& slot.placement.monitor is None ==> forall|m: int|
        0 <= m < monitors.len() ==> (#[trigger] monitors[m]).id != facts.monitor
    &&& window.assignment matches Some((_, group)) ==> slot.group == group
    &&& window.assignment is None ==> slot.group is None
}

/// Whether a slot is new and records how a window was captured.
pub open spec fn is_new_slot(slot: AppSlotView, captured: CapturedView) -> bool {
    slot.slot_id == captured.slot_id && slot.name is None && slot.launch == captured.launch
}

/// Whether a slot goes on from an older one: it keeps its id, its name and what
/// a capture does not tell, and takes the command, the arguments and the
/// directory from the capture.
pub open spec fn goes_on_from(slot: AppSlotView, old: AppSlotView, captured: CapturedView) -> bool {
    &&& slot.slot_id == old.slot_id
    &&& slot.name == old.name
    &&& captured.launch is None ==> slot.launch == old.launch
    &&& old.launch is None ==> slot.launch == captured.launch
    &&& captured.launch is Some && old.launch is Some ==> (slot.launch matches Some(launch) && {
        let found = captured.launch->0;
        let kept = old.launch->0;
        &&& launch.command == found.command
        &&& launch.args == found.args
        &&& launch.workdir == found.workdir
        &&& launch.env == kept.env
        &&& launch.after == kept.after
        &&& launch.startup_delay_ms == kept.startup_delay_ms
        &&& launch.timeout_ms == kept.timeout_ms
        &&& launch.readiness == kept.readiness
        &&& launch.service == kept.service
    })
}

/// Whether a slot is that of a window, as it was captured: a new one, or one
/// that goes on from an old slot which the window satisfies.
pub open spec fn is_slot_for(
    state: StateView,
    project: ProjectView,
    window: TrackedWindowView,
    captured: CapturedView,
    matched: Seq<(u128, Seq<char>)>,
    slot: AppSlotView,
) -> bool {
    &&& captured.address == window.address
    &&& records_looks(slot, window, state.world.monitors)
    &&& {
        ||| is_new_slot(slot, captured)
        ||| exists|o: int|
            0 <= o < project.apps.len() && goes_on_from(slot, #[trigger] project.apps[o], captured)
                && matched.contains((project.apps[o].slot_id, window.address))
    }
    &&& (forall|m: int| 0 <= m < matched.len() ==> (#[trigger] matched[m]).1 != window.address)
        ==> is_new_slot(slot, captured)
}

proof fn lemma_monitor(monitors: Seq<MonitorInfoView>, id: i64, from: int)
    requires
        0 <= from,
    ensures
        match monitor_name(monitors, id, from) {
            Some(name) => exists|m: int|
                from <= m < monitors.len() && (#[trigger] monitors[m]).id == id && monitors[m].name
                    == name,
            None => forall|m: int|
                from <= m < monitors.len() ==> (#[trigger] monitors[m]).id != id,
        },
    decreases monitors.len() - from,
{
    if from < monitors.len() {
        lemma_monitor(monitors, id, from + 1);
        if monitors[from].id == id {
            assert(monitors[from].id == id);
        }
    }
}

proof fn lemma_matched_slot(matched: Seq<(u128, Seq<char>)>, address: Seq<char>, from: int)
    requires
        0 <= from,
    ensures
        match matched_slot(matched, address, from) {
            Some(slot) => matched.contains((slot, address)),
            None => forall|m: int|
                from <= m < matched.len() ==> (#[trigger] matched[m]).1 != address,
        },
    decreases matched.len() - from,
{
    if from < matched.len() {
        lemma_matched_slot(matched, address, from + 1);
        if matched[from].1 == address {
            assert(matched[from] == (matched[from].0, address));
        }
    }
}

proof fn lemma_slot_index(apps: Seq<AppSlotView>, slot_id: u128, from: int)
    requires
        0 <= from,
    ensures
        slot_index(apps, slot_id, from) matches Some(k) ==> from <= k < apps.len()
            && apps[k].slot_id == slot_id,
    decreases apps.len() - from,
{
    if from < apps.len() {
        lemma_slot_index(apps, slot_id, from + 1);
    }
}

proof fn lemma_captured_index(captured: Seq<CapturedView>, address: Seq<char>, from: int)
    requires
        0 <= from,
    ensures
        match captured_index(captured, address, from) {
            Some(c) => from <= c < captured.len() && captured[c].address == address,
            None => forall|c: int|
                from <= c < captured.len() ==> (#[trigger] captured[c]).address != address,
        },
    decreases captured.len() - from,
{
    if from < captured.len() {
        lemma_captured_index(captured, address, from + 1);
    }
}

proof fn lemma_slot_for(
    state: StateView,
    project: ProjectView,
    window: TrackedWindowView,
    captured: CapturedView,
    matched: Seq<(u128, Seq<char>)>,
)
    requires
        captured.address == window.address,
    ensures
        is_slot_for(
            state,
            project,
            window,
            captured,
            matched,
            slot_for(
                window,
                state.world.monitors,
                captured,
                kept_slot(project, matched, window.address),
            ),
        ),
{
    let kept = kept_slot(project, matched, window.address);
    let slot = slot_for(window, state.world.monitors, captured, kept);
    lemma_monitor(state.world.monitors, window.facts.monitor, 0);
    lemma_matched_slot(matched, window.address, 0);
    if let Some(found) = matched_slot(matched, window.address, 0) {
        lemma_slot_index(project.apps, found, 0);
        if let Some(o) = slot_index(project.apps, found, 0) {
            assert(goes_on_from(slot, project.apps[o], captured));
        }
    }
}

proof fn lemma_window_slots(
    state: StateView,
    windows: Seq<TrackedWindowView>,
    project: ProjectView,
    matched: Seq<(u128, Seq<char>)>,
    captured: Seq<CapturedView>,
)
    ensures
        ({
            let slots = window_slots(windows, project, matched, state.world.monitors, captured);
            &&& forall|w: int|
                0 <= w < windows.len() && captured_index(
                    captured,
                    (#[trigger] windows[w]).address,
                    0,
                ) is Some ==> exists|n: int|
                    0 <= n < slots.len() && is_slot_for(
                        state,
                        project,
                        windows[w],
                        captured[captured_index(captured, windows[w].address, 0)->0],
                        matched,
                        #[trigger] slots[n],
                    )
            &&& forall|n: int|
                0 <= n < slots.len() ==> is_slot_among(
                    state,
                    project,
                    windows,
                    captured,
                    matched,
                    #[trigger] slots[n],
                )
        }),
    decreases windows.len(),
{
    if windows.len() > 0 {
        let front = windows.drop_last();
        let last = windows.last();
        lemma_window_slots(state, front, project, matched, captured);
        let monitors = state.world.monitors;
        let before = window_slots(front, project, matched, monitors, captured);
        let now = window_slots(windows, project, matched, monitors, captured);
        lemma_captured_index(captured, last.address, 0);
        if let Some(c) = captured_index(captured, last.address, 0) {
            lemma_slot_for(state, project, last, captured[c], matched);
        }
        assert forall|w: int|
            0 <= w < windows.len() && captured_index(
                captured,
                (#[trigger] windows[w]).address,
                0,
            ) is Some implies exists|n: int|
            0 <= n < now.len() && is_slot_for(
                state,
                project,
                windows[w],
                captured[captured_index(captured, windows[w].address, 0)->0],
                matched,
                #[trigger] now[n],
            ) by {
            let c = captured[captured_index(captured, windows[w].address, 0)->0];
            if w < front.len() {
                assert(front[w] == windows[w]);
                let n = choose|n: int|
                    0 <= n < before.len() && is_slot_for(
                        state,
                        project,
                        front[w],
                        c,
                        matched,
                        #[trigger] before[n],
                    );
                assert(now[n] == before[n]);
                assert(is_slot_for(state, project, windows[w], c, matched, now[n]));
            } else {
                assert(is_slot_for(
                    state,
                    project,
                    windows[w],
                    c,
                    matched,
                    now[before.len() as int],
                ));
            }
        }
        assert forall|n: int| 0 <= n < now.len() implies is_slot_among(
            state,
            project,
            windows,
            captured,
            matched,
            #[trigger] now[n],
        ) by {
            if n < before.len() {
                assert(now[n] == before[n]);
                let (w, c) = choose|w: int, c: int|
                    0 <= w < front.len() && 0 <= c < captured.len() && is_slot_for(
                        state,
                        project,
                        #[trigger] front[w],
                        #[trigger] captured[c],
                        matched,
                        before[n],
                    );
                assert(windows[w] == front[w]);
                assert(is_slot_for(state, project, windows[w], captured[c], matched, now[n]));
            } else {
                let c = captured_index(captured, last.address, 0)->0;
                let w = windows.len() - 1;
                assert(is_slot_for(state, project, windows[w], captured[c], matched, now[n]));
            }
        }
    }
}

/// Whether a slot is that of one of the windows, as it was captured.
pub open spec fn is_slot_among(
    state: StateView,
    project: ProjectView,
    windows: Seq<TrackedWindowView>,
    captured: Seq<CapturedView>,
    matched: Seq<(u128, Seq<char>)>,
    slot: AppSlotView,
) -> bool {
    exists|w: int, c: int|
        0 <= w < windows.len() && 0 <= c < captured.len() && is_slot_for(
            state,
            project,
            #[trigger] windows[w],
            #[trigger] captured[c],
            matched,
            slot,
        )
}

proof fn lemma_saved_windows(
    state: StateView,
    windows: Seq<TrackedWindowView>,
    project: ProjectView,
)
    ensures
        forall|w: TrackedWindowView| #[trigger]
            saved_windows(windows, project, state.workspace_of(project.slug)).contains(w)
                <==> windows.contains(w) && counts_for(state, project, w),
    decreases windows.len(),
{
    if windows.len() > 0 {
        let front = windows.drop_last();
        let workspace = state.workspace_of(project.slug);
        lemma_saved_windows(state, front, project);
        let before = saved_windows(front, project, workspace);
        let now = saved_windows(windows, project, workspace);
        assert forall|w: TrackedWindowView| #[trigger] now.contains(w) <==> windows.contains(w)
            && counts_for(state, project, w) by {
            if now.contains(w) {
                let k = choose|k: int| 0 <= k < now.len() && now[k] == w;
                if k < before.len() {
                    assert(before[k] == w);
                    assert(before.contains(w));
                    let j = choose|j: int| 0 <= j < front.len() && front[j] == w;
                    assert(windows[j] == w);
                } else {
                    assert(windows[windows.len() - 1] == w);
                }
            }
            if windows.contains(w) && counts_for(state, project, w) {
                let j = choose|j: int| 0 <= j < windows.len() && windows[j] == w;
                if j < front.len() {
                    assert(front[j] == w);
                    assert(before.contains(w));
                    let k = choose|k: int| 0 <= k < before.len() && before[k] == w;
                    assert(now[k] == w);
                } else {
                    assert(now[before.len() as int] == w);
                }
            }
        }
    }
}

/// The windows of a project are those that count for it, wherever they are.
proof fn lemma_windows_of(state: StateView, list: Seq<TrackedWindowView>, project: ProjectView)
    requires
        is_window_list(state.world.windows, list),
    ensures
        forall|w: TrackedWindowView| #[trigger]
            state.windows_of(project).contains(w) <==> state.world.windows.dom().contains(
                w.address,
            ) && state.world.windows[w.address] == w && counts_for(state, project, w),
{
    lemma_window_list(state.world.windows, list, list);
    lemma_saved_windows(state, list, project);
    assert forall|w: TrackedWindowView| #[trigger]
        state.windows_of(project).contains(w) <==> state.world.windows.dom().contains(w.address)
            && state.world.windows[w.address] == w && counts_for(state, project, w) by {
        lemma_filed(list, w);
    }
}

proof fn lemma_services(apps: Seq<AppSlotView>)
    ensures
        forall|slot: AppSlotView| #[trigger]
            services(apps).contains(slot) <==> apps.contains(slot) && slot.launch is Some
                && slot.launch->0.service,
    decreases apps.len(),
{
    if apps.len() > 0 {
        let front = apps.drop_last();
        lemma_services(front);
        let before = services(front);
        let now = services(apps);
        assert forall|slot: AppSlotView| #[trigger] now.contains(slot) <==> apps.contains(slot)
            && slot.launch is Some && slot.launch->0.service by {
            if now.contains(slot) {
                let k = choose|k: int| 0 <= k < now.len() && now[k] == slot;
                if k < before.len() {
                    assert(before[k] == slot);
                    assert(before.contains(slot));
                    let j = choose|j: int| 0 <= j < front.len() && front[j] == slot;
                    assert(apps[j] == slot);
                } else {
                    assert(apps[apps.len() - 1] == slot);
                }
            }
            if apps.contains(slot) && slot.launch is Some && slot.launch->0.service {
                let j = choose|j: int| 0 <= j < apps.len() && apps[j] == slot;
                if j < front.len() {
                    assert(front[j] == slot);
                    assert(before.contains(slot));
                    let k = choose|k: int| 0 <= k < before.len() && before[k] == slot;
                    assert(now[k] == slot);
                } else {
                    assert(now[before.len() as int] == slot);
                }
            }
        }
    }
}

proof fn lemma_meant(state: StateView, query: Option<Seq<char>>, i: int)
    requires
        is_meant_or_active(state, query, i),
    ensures
        state.save_place(query) matches Ok(at) && at == i,
{
    lemma_id_at(state.projects, i, 0);
}

/// A saved project has a slot for every one of its windows that was captured,
/// which records how the window looks, and keeps every service; it has no
/// other slots. Nothing else of it, and no other project, changes.
pub proof fn law_saving_records_every_window(
    state: StateView,
    query: Option<Seq<char>>,
    i: int,
    list: Seq<TrackedWindowView>,
    id: ProjectId,
    uptime: u64,
    gathered: Gathered,
    after: StateView,
    outcome: OutcomeView,
)
    requires
        is_meant_or_active(state, query, i),
        is_window_list(state.world.windows, list),
        (after, outcome) == state.answered(
            RequestView::ProjectSave { project: query },
            id,
            uptime,
            gathered,
        ),
    ensures
        ({
            let project = state.projects[i];
            let apps = after.projects[i].apps;
            let captured = gathered.captured.deep_view();
            let matched = reconciliation(project, state.windows_of(project)).matched;
            &&& forall|a: Seq<char>, c: int|
                (#[trigger] state.world.windows.dom().contains(a)) && counts_for(
                    state,
                    project,
                    state.world.windows[a],
                ) && 0 <= c < captured.len() && (#[trigger] captured[c]).address == a && (forall|
                    d: int,
                |
                    0 <= d < c ==> (#[trigger] captured[d]).address != a) ==> has_slot_for(
                    state,
                    project,
                    state.world.windows[a],
                    captured[c],
                    matched,
                    apps,
                )
            &&& forall|slot: AppSlotView|
                project.apps.contains(slot) && slot.launch is Some && slot.launch->0.service
                    ==> #[trigger] apps.contains(slot)
            &&& forall|n: int|
                0 <= n < apps.len() ==> project.apps.contains(#[trigger] apps[n])
                    && apps[n].launch is Some && apps[n].launch->0.service || is_slot_among(
                    state,
                    project,
                    state.windows_of(project),
                    captured,
                    matched,
                    apps[n],
                )
            &&& forall|w: TrackedWindowView| #[trigger]
                state.windows_of(project).contains(w) <==> state.world.windows.dom().contains(
                    w.address,
                ) && state.world.windows[w.address] == w && counts_for(state, project, w)
            &&& after.projects[i] == (ProjectView { apps, ..project })
            &&& other_projects_stay(state, after, i)
            &&& all_but_projects_stay(state, after)
            &&& is_silent(state, after)
            &&& outcome matches OutcomeView::Reply(Ok(ReplyView::Saved { project: told, slots }))
                && told == project.slug && (apps.len() <= usize::MAX ==> slots == apps.len())
        }),
{
    let project = state.projects[i];
    let apps = after.projects[i].apps;
    let captured = gathered.captured.deep_view();
    let windows = state.windows_of(project);
    let matched = reconciliation(project, windows).matched;
    lemma_meant(state, query, i);
    lemma_windows_of(state, list, project);
    lemma_services(project.apps);
    lemma_window_slots(state, windows, project, matched, captured);
    let kept = services(project.apps);
    let slots = window_slots(windows, project, matched, state.world.monitors, captured);
    assert(apps == kept + slots);
    assert forall|a: Seq<char>, c: int|
        (#[trigger] state.world.windows.dom().contains(a)) && counts_for(
            state,
            project,
            state.world.windows[a],
        ) && 0 <= c < captured.len() && (#[trigger] captured[c]).address == a && (forall|d: int|
            0 <= d < c ==> (#[trigger] captured[d]).address != a) implies has_slot_for(
        state,
        project,
        state.world.windows[a],
        captured[c],
        matched,
        apps,
    ) by {
        let window = state.world.windows[a];
        lemma_filed_by_address(list);
        assert(window.address == a);
        assert(windows.contains(window));
        let w = choose|w: int| 0 <= w < windows.len() && windows[w] == window;
        lemma_captured_index(captured, a, 0);
        let found = captured_index(captured, a, 0)->0;
        lemma_first_captured(captured, c, 0);
        assert(found == c);
        let n = choose|n: int|
            0 <= n < slots.len() && is_slot_for(
                state,
                project,
                windows[w],
                captured[c],
                matched,
                #[trigger] slots[n],
            );
        assert(apps[kept.len() + n] == slots[n]);
    }
    assert forall|slot: AppSlotView|
        project.apps.contains(slot) && slot.launch is Some
            && slot.launch->0.service implies #[trigger] apps.contains(slot) by {
        assert(kept.contains(slot));
        let k = choose|k: int| 0 <= k < kept.len() && kept[k] == slot;
        assert(apps[k] == slot);
    }
    assert forall|n: int| 0 <= n < apps.len() implies project.apps.contains(#[trigger] apps[n])
        && apps[n].launch is Some && apps[n].launch->0.service || is_slot_among(
        state,
        project,
        windows,
        captured,
        matched,
        apps[n],
    ) by {
        if n < kept.len() {
            assert(kept[n] == apps[n]);
            assert(kept.contains(apps[n]));
        } else {
            assert(slots[n - kept.len()] == apps[n]);
        }
    }
}

proof fn lemma_first_captured(captured: Seq<CapturedView>, c: int, from: int)
    requires
        0 <= from <= c < captured.len(),
        forall|d: int|
            from <= d < c ==> (#[trigger] captured[d]).address != captured[c].address,
    ensures
        captured_index(captured, captured[c].address, from) == Some(c),
    decreases c - from,
{
    if from < c {
        assert(captured[from].address != captured[c].address);
        lemma_first_captured(captured, c, from + 1);
    }
}

/// Whether some of the slots is that of a window, as it was captured.
pub open spec fn has_slot_for(
    state: StateView,
    project: ProjectView,
    window: TrackedWindowView,
    captured: CapturedView,
    matched: Seq<(u128, Seq<char>)>,
    apps: Seq<AppSlotView>,
) -> bool {
    exists|n: int|
        0 <= n < apps.len() && is_slot_for(
            state,
            project,
            window,
            captured,
            matched,
            #[trigger] apps[n],
        )
}

/// A preview shows the very slots that saving would add to the services, and
/// changes nothing.
pub proof fn law_previews_show_what_saving_adds(
    state: StateView,
    query: Option<Seq<char>>,
    i: int,
    id: ProjectId,
    uptime: u64,
    gathered: Gathered,
    after: StateView,
    outcome: OutcomeView,
)
    requires
        is_meant_or_active(state, query, i),
        (after, outcome) == state.answered(
            RequestView::ProjectCapture { project: query },
            id,
            uptime,
            gathered,
        ),
    ensures
        after == state,
        outcome matches OutcomeView::Reply(Ok(ReplyView::Preview { project, apps })) && {
            let saved = state.answered(
                RequestView::ProjectSave { project: query },
                id,
                uptime,
                gathered,
            ).0.projects[i].apps;
            &&& project == state.projects[i].slug
            &&& apps.len() <= saved.len()
            &&& saved.skip(saved.len() - apps.len()) == apps
            &&& forall|n: int|
                0 <= n < saved.len() - apps.len() ==> (#[trigger] saved[n]).launch is Some
                    && saved[n].launch->0.service
        },
{
    lemma_meant(state, query, i);
    let kept = services(state.projects[i].apps);
    lemma_services(state.projects[i].apps);
    let apps = state.slots_now(state.projects[i], gathered.captured.deep_view());
    let saved = kept + apps;
    assert(saved.skip(saved.len() - apps.len()) =~= apps);
    assert forall|n: int| 0 <= n < saved.len() - apps.len() implies (
    #[trigger] saved[n]).launch is Some && saved[n].launch->0.service by {
        assert(kept[n] == saved[n]);
        assert(kept.contains(kept[n]));
    }
}

/// Closing a project asks every one of its windows to close, and no other;
/// nothing changes before they do.
pub proof fn law_closing_asks_every_window(
    state: StateView,
    query: Option<Seq<char>>,
    i: int,
    list: Seq<TrackedWindowView>,
    id: ProjectId,
    uptime: u64,
    gathered: Gathered,
    after: StateView,
    outcome: OutcomeView,
)
    requires
        is_meant_or_active(state, query, i),
        is_window_list(state.world.windows, list),
        (after, outcome) == state.answered(
            RequestView::ProjectClose { project: query },
            id,
            uptime,
            gathered,
        ),
    ensures
        after == state,
        outcome is DispatchThen,
        ({
            let project = state.projects[i];
            let told = outcome->dispatches;
            &&& forall|a: Seq<char>| #[trigger]
                state.world.windows.dom().contains(a) && counts_for(
                    state,
                    project,
                    state.world.windows[a],
                ) ==> told.contains(DispatchView::CloseWindow(canonical(a)))
            &&& forall|k: int|
                0 <= k < told.len() ==> closes_one(state, project, #[trigger] told[k])
            &&& outcome->DispatchThen_result matches ReplyView::Closed { project: slug, windows }
                && slug == project.slug && (told.len() <= usize::MAX ==> windows == told.len())
        }),
{
    let project = state.projects[i];
    lemma_meant(state, query, i);
    lemma_windows_of(state, list, project);
    let windows = state.windows_of(project);
    let told = outcome->dispatches;
    lemma_filed_by_address(list);
    assert forall|a: Seq<char>| #[trigger]
        state.world.windows.dom().contains(a) && counts_for(
            state,
            project,
            state.world.windows[a],
        ) implies told.contains(DispatchView::CloseWindow(canonical(a))) by {
        assert(windows.contains(state.world.windows[a]));
        let k = choose|k: int| 0 <= k < windows.len() && windows[k] == state.world.windows[a];
        assert(told[k] == DispatchView::CloseWindow(canonical(a)));
    }
    assert forall|k: int| 0 <= k < told.len() implies closes_one(
        state,
        project,
        #[trigger] told[k],
    ) by {
        assert(windows.contains(windows[k]));
        assert(state.world.windows.dom().contains(windows[k].address));
    }
}

/// Whether a dispatch asks a window of a project to close.
pub open spec fn closes_one(state: StateView, project: ProjectView, told: DispatchView) -> bool {
    exists|a: Seq<char>| #[trigger]
        state.world.windows.dom().contains(a) && counts_for(
            state,
            project,
            state.world.windows[a],
        ) && told == DispatchView::CloseWindow(canonical(a))
}

// ---- restoring ---------------------------------------------------------------------------

proof fn lemma_candidates(windows: Seq<TrackedWindowView>, project: ProjectView)
    ensures
        forall|w: TrackedWindowView| #[trigger]
            candidates(windows, project).contains(w) <==> windows.contains(w) && may_satisfy(
                w,
                project,
            ),
    decreases windows.len(),
{
    if windows.len() > 0 {
        let front = windows.drop_last();
        lemma_candidates(front, project);
        let before = candidates(front, project);
        let now = candidates(windows, project);
        assert forall|w: TrackedWindowView| #[trigger] now.contains(w) <==> windows.contains(w)
            && may_satisfy(w, project) by {
            if now.contains(w) {
                let k = choose|k: int| 0 <= k < now.len() && now[k] == w;
                if k < before.len() {
                    assert(before[k] == w);
                    assert(before.contains(w));
                    let j = choose|j: int| 0 <= j < front.len() && front[j] == w;
                    assert(windows[j] == w);
                } else {
                    assert(windows[windows.len() - 1] == w);
                }
            }
            if windows.contains(w) && may_satisfy(w, project) {
                let j = choose|j: int| 0 <= j < windows.len() && windows[j] == w;
                if j < front.len() {
                    assert(front[j] == w);
                    assert(before.contains(w));
                    let k = choose|k: int| 0 <= k < before.len() && before[k] == w;
                    assert(now[k] == w);
                } else {
                    assert(now[before.len() as int] == w);
                }
            }
        }
    }
}

/// Whether a window may satisfy a slot of a project: no other project has it.
pub open spec fn may_satisfy(window: TrackedWindowView, project: ProjectView) -> bool {
    match window.assignment {
        Some((owner, _)) => owner == project.id,
        None => true,
    }
}

/// Restoring a project plans with every window that no other project has, and
/// no other. A dry run reports the plan; otherwise the plan is carried out for
/// that project, and the client is told of it. A project whose dependencies
/// cannot be ordered is refused. The state stays as it is.
pub proof fn law_restoring_plans_with_free_windows(
    state: StateView,
    query: Option<Seq<char>>,
    dry_run: bool,
    i: int,
    list: Seq<TrackedWindowView>,
    id: ProjectId,
    uptime: u64,
    gathered: Gathered,
    after: StateView,
    outcome: OutcomeView,
)
    requires
        is_meant_or_active(state, query, i),
        is_window_list(state.world.windows, list),
        (after, outcome) == state.answered(
            RequestView::ProjectRestore { project: query, dry_run },
            id,
            uptime,
            gathered,
        ),
    ensures
        after == state,
        exists|free: Seq<TrackedWindowView>|
            {
                &&& forall|w: TrackedWindowView| #[trigger]
                    free.contains(w) <==> state.world.windows.dom().contains(w.address)
                        && state.world.windows[w.address] == w && may_satisfy(w, state.projects[i])
                &&& match #[trigger] restore_plan(
                    state.projects[i],
                    free,
                    state.config.general.workspace_prefix,
                ) {
                    Ok(plan) => if dry_run {
                        outcome == OutcomeView::Reply(Ok(ReplyView::Plan(plan)))
                    } else {
                        outcome == (OutcomeView::Restore {
                            project: state.projects[i].id,
                            plan,
                            result: ReplyView::Started(plan),
                        })
                    },
                    Err(_) => outcome matches OutcomeView::Reply(Err(_)),
                }
            },
{
    let project = state.projects[i];
    lemma_id_at(state.projects, i, 0);
    lemma_window_list(state.world.windows, list, list);
    lemma_candidates(list, project);
    let free = candidates(list, project);
    assert forall|w: TrackedWindowView| #[trigger] free.contains(w)
        <==> state.world.windows.dom().contains(w.address) && state.world.windows[w.address] == w
        && may_satisfy(w, project) by {
        lemma_filed(list, w);
    }
    assert(restore_plan(project, free, state.config.general.workspace_prefix) == restore_plan(
        project,
        candidates(window_list(state.world.windows), project),
        state.config.general.workspace_prefix,
    ));
}

/// A window that was found to satisfy a slot belongs to the project, in the
/// slot's group, as restored for that slot. If the slot's window floats, it is
/// made to, put where it was and given its size, so far as these were recorded;
/// a tiled one is left for later.
pub proof fn law_correlated_windows_are_restored(
    state: StateView,
    command: Command,
    after: StateView,
    effect: Effect,
)
    requires
        command is CorrelateRestore,
        state.leads_to(command, after, effect),
    ensures
        ({
            let address = command->CorrelateRestore_address@;
            let slot_id = command->CorrelateRestore_slot_id;
            let owner = command->CorrelateRestore_project_id;
            let group = command->CorrelateRestore_group.deep_view();
            &&& after.world.windows.dom() == state.world.windows.dom()
            &&& state.world.windows.dom().contains(address) ==> after.world.windows[address] == (
            TrackedWindowView {
                assignment: Some((owner, group)),
                assigned_by: Some(AssignmentSourceView::Restore(slot_id)),
                ..state.world.windows[address]
            })
            &&& other_windows_stay(state, after, address)
            &&& surroundings_stay(state, after)
            &&& settings_stay(state, after)
            &&& is_silent(state, after)
            &&& effect is Tell
            &&& forall|i: int, k: int|
                0 <= i < state.projects.len() && (#[trigger] state.projects[i]).id == owner && (
                forall|j: int| 0 <= j < i ==> (#[trigger] state.projects[j]).id != owner) && 0 <= k
                    < state.projects[i].apps.len() && (#[trigger] state.projects[i].apps[k]).slot_id
                    == slot_id && (forall|j: int|
                    0 <= j < k ==> (#[trigger] state.projects[i].apps[j]).slot_id != slot_id)
                    ==> places(
                    effect->Tell_0.deep_view(),
                    address,
                    state.projects[i].apps[k].placement,
                )
            &&& (forall|i: int| 0 <= i < state.projects.len() ==> (#[trigger] state.projects[i]).id
                != owner) ==> effect->Tell_0.deep_view().len() == 0
        }),
{
    let slot_id = command->CorrelateRestore_slot_id;
    let owner = command->CorrelateRestore_project_id;
    assert(after.world.windows.dom() =~= state.world.windows.dom());
    assert forall|i: int, k: int|
        0 <= i < state.projects.len() && (#[trigger] state.projects[i]).id == owner && (forall|
            j: int,
        |
            0 <= j < i ==> (#[trigger] state.projects[j]).id != owner) && 0 <= k
            < state.projects[i].apps.len() && (#[trigger] state.projects[i].apps[k]).slot_id
            == slot_id && (forall|j: int|
            0 <= j < k ==> (#[trigger] state.projects[i].apps[j]).slot_id != slot_id) implies places(
        effect->Tell_0.deep_view(),
        command->CorrelateRestore_address@,
        state.projects[i].apps[k].placement,
    ) by {
        lemma_id_at(state.projects, i, 0);
        lemma_first_slot(state.projects[i].apps, k, 0);
    }
    if forall|i: int| 0 <= i < state.projects.len() ==> (#[trigger] state.projects[i]).id != owner {
        lemma_no_id(state.projects, owner, 0);
    }
}

proof fn lemma_first_slot(apps: Seq<AppSlotView>, k: int, from: int)
    requires
        0 <= from <= k < apps.len(),
        forall|j: int| from <= j < k ==> (#[trigger] apps[j]).slot_id != apps[k].slot_id,
    ensures
        slot_index(apps, apps[k].slot_id, from) == Some(k),
    decreases k - from,
{
    if from < k {
        assert(apps[from].slot_id != apps[k].slot_id);
        lemma_first_slot(apps, k, from + 1);
    }
}

proof fn lemma_no_id(projects: Seq<ProjectView>, id: ProjectId, from: int)
    requires
        0 <= from,
        forall|i: int| 0 <= i < projects.len() ==> (#[trigger] projects[i]).id != id,
    ensures
        id_index(projects, id, from) is None,
    decreases projects.len() - from,
{
    if from < projects.len() {
        assert(projects[from].id != id);
        lemma_no_id(projects, id, from + 1);
    }
}

/// Whether dispatches place a window: a floating one floats, then goes to its
/// position, then takes its size; a tiled one is left alone.
pub open spec fn places(
    told: Seq<DispatchView>,
    address: Seq<char>,
    placement: PlacementView,
) -> bool {
    let key = canonical(address);
    &&& !placement.floating ==> told.len() == 0
    &&& placement.floating ==> {
        &&& told.len() > 0
        &&& told[0] == DispatchView::SetFloating(key)
        &&& placement.position is Some ==> told.len() > 1 && {
            let (x, y) = placement.position->0;
            told[1] == (DispatchView::MoveWindowPixelExact { address: key, x, y })
        }
        &&& placement.size is Some ==> {
            let (w, h) = placement.size->0;
            told.last() == (DispatchView::ResizeWindowPixelExact { address: key, w, h })
        }
        &&& told.len() == 1 + (if placement.position is Some {
            1int
        } else {
            0
        }) + (if placement.size is Some {
            1int
        } else {
            0
        })
    }
}

/// Placing a window as its slot says floats, moves and resizes it, so far as
/// the slot says.
pub proof fn law_placing_follows_the_slot(address: Seq<char>, placement: PlacementView)
    ensures
        places(placing(address, placement), address, placement),
{
}

/// Adopting windows goes through the steps in order: what is told for a step
/// comes behind what is told for those before it, moves the window exactly if
/// it needs to and places it as its slot says.
pub proof fn law_adopting_goes_step_by_step(
    steps: Seq<AdoptStepView>,
    workspace: Seq<char>,
)
    requires
        steps.len() > 0,
    ensures
        ({
            let step = steps.last();
            let before = adopting(steps.drop_last(), workspace);
            let all = adopting(steps, workspace);
            let own = all.skip(before.len() as int);
            &&& before.len() <= all.len()
            &&& all.take(before.len() as int) == before
            &&& step.needs_move ==> own.len() > 0 && own[0] == (
            DispatchView::MoveToWorkspaceSilent {
                target: WsTargetView::Name(workspace),
                address: canonical(step.address),
            }) && places(own.skip(1), step.address, step.placement)
            &&& !step.needs_move ==> places(own, step.address, step.placement)
        }),
{
    let step = steps.last();
    let before = adopting(steps.drop_last(), workspace);
    let all = adopting(steps, workspace);
    let own = all.skip(before.len() as int);
    let placed = placing(step.address, step.placement);
    law_placing_follows_the_slot(step.address, step.placement);
    assert(all.take(before.len() as int) =~= before);
    if step.needs_move {
        assert(own.skip(1) =~= placed);
    } else {
        assert(own =~= placed);
    }
}

// ---- dumps and notices -------------------------------------------------------------------

proof fn lemma_dumped(
    known: Map<Seq<char>, TrackedWindowView>,
    list: Seq<TrackedWindowView>,
    i: int,
)
    requires
        0 <= i < list.len(),
        forall|j: int| i < j < list.len() ==> (#[trigger] list[j]).address != list[i].address,
    ensures
        by_address(all_annotated(known, list)).dom().contains(
            list[i].address,
        ),
        by_address(all_annotated(known, list))[list[i].address]
            == annotated(known, list[i]),
    decreases list.len(),
{
    let marked = all_annotated(known, list);
    if i < list.len() - 1 {
        let front = list.drop_last();
        assert(marked.drop_last() =~= all_annotated(known, front));
        assert(list[list.len() - 1].address != list[i].address);
        assert forall|j: int| i < j < front.len() implies (#[trigger] front[j]).address
            != front[i].address by {
            assert(list[j].address != list[i].address);
        }
        lemma_dumped(known, front, i);
    }
}

proof fn lemma_dumped_workspace(list: Seq<WorkspaceInfoView>, i: int)
    requires
        0 <= i < list.len(),
        forall|j: int| i < j < list.len() ==> (#[trigger] list[j]).id != list[i].id,
    ensures
        by_id(list).dom().contains(list[i].id),
        by_id(list)[list[i].id] == list[i],
    decreases list.len(),
{
    if i < list.len() - 1 {
        let front = list.drop_last();
        assert(list[list.len() - 1].id != list[i].id);
        assert forall|j: int| i < j < front.len() implies (#[trigger] front[j]).id
            != front[i].id by {
            assert(list[j].id != list[i].id);
        }
        lemma_dumped_workspace(front, i);
    }
}

/// A full dump replaces everything that is seen of the compositor: a window
/// that it lists is known by what the dump says of it and keeps the assignment
/// it had, and workspaces, monitors and the focus are those of the dump. What
/// the dump does not tell of stays.
pub proof fn law_dumps_replace_what_is_seen(
    state: StateView,
    command: Command,
    after: StateView,
    effect: Effect,
)
    requires
        command is Hydrate,
        state.leads_to(command, after, effect),
    ensures
        ({
            let windows = command->Hydrate_windows.deep_view();
            let workspaces = command->Hydrate_workspaces.deep_view();
            &&& forall|i: int|
                0 <= i < windows.len() && (forall|j: int|
                    i < j < windows.len() ==> (#[trigger] windows[j]).address
                        != windows[i].address) ==> {
                    let seen = #[trigger] windows[i];
                    let has = after.world.windows[seen.address];
                    &&& after.world.windows.dom().contains(seen.address)
                    &&& has.address == seen.address
                    &&& has.stable_id == seen.stable_id
                    &&& has.facts == seen.facts
                    &&& state.world.windows.dom().contains(seen.address) ==> has.assignment
                        == state.world.windows[seen.address].assignment && has.assigned_by
                        == state.world.windows[seen.address].assigned_by
                    &&& !state.world.windows.dom().contains(seen.address) ==> has == seen
                }
            &&& forall|a: Seq<char>| #[trigger]
                after.world.windows.dom().contains(a) ==> exists|i: int|
                    0 <= i < windows.len() && (#[trigger] windows[i]).address == a
            &&& forall|i: int|
                0 <= i < workspaces.len() && (forall|j: int|
                    i < j < workspaces.len() ==> (#[trigger] workspaces[j]).id
                        != workspaces[i].id) ==> after.world.workspaces.dom().contains(
                    (#[trigger] workspaces[i]).id,
                ) && after.world.workspaces[workspaces[i].id] == workspaces[i]
            &&& after.world.monitors == command->Hydrate_monitors.deep_view()
            &&& after.world.focused_window == command->Hydrate_focused_window.deep_view()
            &&& after.world.focused_workspace == state.world.focused_workspace
            &&& after.world.active_project == state.world.active_project
            &&& after.world.hypr_connected == state.world.hypr_connected
            &&& settings_stay(state, after)
            &&& is_silent(state, after)
            &&& effect is Nothing
        }),
{
    let windows = command->Hydrate_windows.deep_view();
    let workspaces = command->Hydrate_workspaces.deep_view();
    assert forall|i: int|
        0 <= i < windows.len() && (forall|j: int|
            i < j < windows.len() ==> (#[trigger] windows[j]).address
                != windows[i].address) implies {
        let seen = #[trigger] windows[i];
        let has = after.world.windows[seen.address];
        &&& after.world.windows.dom().contains(seen.address)
        &&& has == annotated(state.world.windows, seen)
    } by {
        lemma_dumped(state.world.windows, windows, i);
    }
    assert forall|a: Seq<char>| #[trigger] after.world.windows.dom().contains(a) implies exists|
        i: int,
    |
        0 <= i < windows.len() && (#[trigger] windows[i]).address == a by {
        law_hydrate_preserves_assignments(
            state.world,
            windows,
            workspaces,
            command->Hydrate_monitors.deep_view(),
            command->Hydrate_focused_window.deep_view(),
            a,
        );
    }
    assert forall|i: int|
        0 <= i < workspaces.len() && (forall|j: int|
            i < j < workspaces.len() ==> (#[trigger] workspaces[j]).id
                != workspaces[i].id) implies after.world.workspaces.dom().contains(
        (#[trigger] workspaces[i]).id,
    ) && after.world.workspaces[workspaces[i].id] == workspaces[i] by {
        lemma_dumped_workspace(workspaces, i);
    }
}

/// What the tasks around the daemon report is announced as it is: the
/// connection, progress of a restore run, a newer version and the end. The
/// first and the third are remembered; nothing else changes.
pub proof fn law_notices_are_passed_on(
    state: StateView,
    command: Command,
    after: StateView,
    effect: Effect,
)
    requires
        state.leads_to(command, after, effect),
    ensures
        command matches Command::HyprConnection(up) ==> {
            &&& after.world == (WorldView { hypr_connected: up, ..state.world })
            &&& settings_stay(state, after)
            &&& announces(state, after, DomainEventView::HyprConnection { up })
            &&& effect is Nothing
        },
        command matches Command::RestoreEvent(event) ==> {
            &&& after.world == state.world
            &&& settings_stay(state, after)
            &&& announces(state, after, event@)
            &&& effect is Nothing
        },
        command matches Command::UpdateAvailable(version) ==> {
            &&& after.update == Some(version@)
            &&& after.world == state.world
            &&& after.projects == state.projects
            &&& after.config == state.config
            &&& after.rules == state.rules
            &&& after.version == state.version
            &&& announces(state, after, DomainEventView::UpdateAvailable { version: version@ })
            &&& effect is Nothing
        },
        command is Shutdown ==> {
            &&& after.world == state.world
            &&& settings_stay(state, after)
            &&& announces(state, after, DomainEventView::ShuttingDown)
            &&& effect is Stop
        },
{
    if after.outbox.len() > 0 {
        assert(command is HyprConnection ==> after.outbox.drop_last() =~= state.outbox);
        assert(command is RestoreEvent ==> after.outbox.drop_last() =~= state.outbox);
        assert(command is UpdateAvailable ==> after.outbox.drop_last() =~= state.outbox);
        assert(command is Shutdown ==> after.outbox.drop_last() =~= state.outbox);
    }
}

/// A command that only asks for something leaves the state as it is.
pub proof fn law_asking_changes_nothing(
    state: StateView,
    command: Command,
    after: StateView,
    effect: Effect,
)
    requires
        state.leads_to(command, after, effect),
        command is Arrange || command is Persist,
    ensures
        after == state,
        command is Arrange ==> effect is Arrange,
        command is Persist ==> effect is Save,
{
}

} // verus!
