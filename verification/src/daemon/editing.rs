//! Requests that show and edit a project's definition: its slots' launch
//! settings and the order of the projects.

use vstd::prelude::*;

use crate::daemon::capture::plain_launch;
use crate::daemon::requests::{around, refuse, Outcome};
use crate::daemon::requests::{refused, OutcomeView};
use crate::daemon::state::StateActor;
use crate::daemon::state::StateView;
use crate::domain::listing::{law_listings_are_sorted, listing};
use crate::domain::model::{AppSlot, LaunchSpec, Project};
use crate::domain::model::{AppSlotView, LaunchSpecView, ProjectView};
use crate::domain::search::is_resolvable;
use crate::outside::id_text;
use crate::outside::hyphenated;
use crate::proto::{ErrorCode, Reply};
use crate::proto::ReplyView;
use crate::text::{is_empty, same, starts_with};
use crate::text::begins;

verus! {

// ---- launch settings ------------------------------------------------------------------

/// Whether an argument chooses a browser profile.
pub open spec fn is_profile(arg: Seq<char>) -> bool {
    begins(arg, "--profile-directory"@)
}

/// The arguments that choose a profile, or those that do not.
pub open spec fn profile_args(args: Seq<Seq<char>>, choosing: bool) -> Seq<Seq<char>>
    decreases args.len(),
{
    if args.len() == 0 {
        seq![]
    } else {
        let before = profile_args(args.drop_last(), choosing);
        if is_profile(args.last()) == choosing {
            before.push(args.last())
        } else {
            before
        }
    }
}

/// The arguments after an edit: a new command line holds all of them but the
/// profile, which a field of its own sets or clears.
pub open spec fn edited_args(
    args: Seq<Seq<char>>,
    command: Option<Seq<char>>,
    profile: Option<Seq<char>>,
) -> Seq<Seq<char>> {
    let rest = if command is Some {
        profile_args(args, true)
    } else {
        args
    };
    match profile {
        None => rest,
        Some(name) => profile_args(rest, false) + (if name.len() == 0 {
            seq![]
        } else {
            seq!["--profile-directory="@ + name]
        }),
    }
}

/// The launch settings of a slot after an edit. What is absent stays; an empty
/// directory or profile is cleared, and without a command there is no launch.
pub open spec fn edited_launch(
    launch: Option<LaunchSpecView>,
    command: Option<Seq<char>>,
    workdir: Option<Seq<char>>,
    profile: Option<Seq<char>>,
) -> Option<LaunchSpecView> {
    let base = match launch {
        Some(spec) => spec,
        None => plain_launch(seq![], seq![], None),
    };
    let line = match command {
        Some(line) => line,
        None => base.command,
    };
    if line.len() == 0 {
        None
    } else {
        Some(
            LaunchSpecView {
                command: line,
                args: edited_args(base.args, command, profile),
                workdir: match workdir {
                    None => base.workdir,
                    Some(dir) => if dir.len() == 0 {
                        None
                    } else {
                        Some(dir)
                    },
                },
                ..base
            },
        )
    }
}

/// The first slot whose id has the text, at `from` or later.
pub open spec fn slot_named(apps: Seq<AppSlotView>, id: Seq<char>, from: int) -> Option<int>
    decreases apps.len() - from,
{
    if from < 0 || from >= apps.len() {
        None
    } else if hyphenated(apps[from].slot_id) == id {
        Some(from)
    } else {
        slot_named(apps, id, from + 1)
    }
}

/// A project with other launch settings for a slot.
pub open spec fn with_launch(
    project: ProjectView,
    at: int,
    launch: Option<LaunchSpecView>,
) -> ProjectView {
    ProjectView {
        apps: project.apps.update(at, AppSlotView { launch, ..project.apps[at] }),
        ..project
    }
}

// ---- order ----------------------------------------------------------------------------

/// Where a slug stands in an order, from `from` on.
pub open spec fn order_index(order: Seq<Seq<char>>, slug: Seq<char>, from: int) -> Option<int>
    decreases order.len() - from,
{
    if from < 0 || from >= order.len() {
        None
    } else if order[from] == slug {
        Some(from)
    } else {
        order_index(order, slug, from + 1)
    }
}

/// Whether an order names every project, and nothing besides.
pub open spec fn orders_all(order: Seq<Seq<char>>, projects: Seq<ProjectView>) -> bool {
    &&& order.len() == projects.len()
    &&& order.len() <= u32::MAX
    &&& forall|i: int|
        0 <= i < projects.len() ==> order_index(order, (#[trigger] projects[i]).slug, 0) is Some
}

/// Projects with the positions that an order gives them.
pub open spec fn positioned(projects: Seq<ProjectView>, order: Seq<Seq<char>>) -> Seq<ProjectView> {
    Seq::new(
        projects.len(),
        |i: int|
            ProjectView {
                position: order_index(order, projects[i].slug, 0)->0 as u32,
                ..projects[i]
            },
    )
}

impl StateView {
    /// `project.get`.
    pub open spec fn detailed(self, query: Seq<char>) -> OutcomeView {
        match self.resolved(query) {
            Err(error) => OutcomeView::Reply(Err(error)),
            Ok(project) => OutcomeView::Reply(Ok(ReplyView::Details(project))),
        }
    }

    /// `project.reorder`.
    pub open spec fn reordered(self, order: Seq<Seq<char>>) -> (StateView, OutcomeView) {
        if orders_all(order, self.projects) {
            (
                StateView { projects: positioned(self.projects, order), ..self },
                OutcomeView::Reply(
                    Ok(ReplyView::Reordered { projects: self.projects.len() as usize }),
                ),
            )
        } else {
            (
                self,
                refused(ErrorCode::BadRequest, "the order must name every project once"@),
            )
        }
    }

    /// `slot.update`.
    pub open spec fn slot_updated(
        self,
        query: Seq<char>,
        slot_id: Seq<char>,
        command: Option<Seq<char>>,
        workdir: Option<Seq<char>>,
        profile: Option<Seq<char>>,
    ) -> (StateView, OutcomeView) {
        match self.place_of(query) {
            Err(error) => (self, OutcomeView::Reply(Err(error))),
            Ok(i) => {
                let project = self.projects[i];
                match slot_named(project.apps, slot_id, 0) {
                    None => (
                        self,
                        refused(
                            ErrorCode::NotFound,
                            "project '"@ + project.slug + "' has no slot "@ + slot_id,
                        ),
                    ),
                    Some(k) => {
                        let launch = edited_launch(
                            project.apps[k].launch,
                            command,
                            workdir,
                            profile,
                        );
                        (
                            StateView {
                                projects: self.projects.update(i, with_launch(project, k, launch)),
                                ..self
                            },
                            OutcomeView::Reply(
                                Ok(ReplyView::SlotUpdated { project: project.slug, slot_id }),
                            ),
                        )
                    },
                }
            },
        }
    }
}

// ---- carrying it out ------------------------------------------------------------------

fn pick_args(args: &Vec<String>, choosing: bool) -> (r: Vec<String>)
    ensures
        r.deep_view() == profile_args(args.deep_view(), choosing),
{
    let ghost views = args.deep_view();
    let mut out: Vec<String> = Vec::new();
    let mut i: usize = 0;
    assert(views.take(0) =~= seq![]);
    assert(out.deep_view() =~= seq![]);
    while i < args.len()
        invariant
            i <= args.len(),
            views == args.deep_view(),
            out.deep_view() == profile_args(views.take(i as int), choosing),
        decreases args.len() - i,
    {
        assert(views.take(i + 1).drop_last() =~= views.take(i as int));
        assert(views[i as int] == args@[i as int]@);
        if starts_with(args[i].as_str(), "--profile-directory") == choosing {
            let ghost before = out.deep_view();
            out.push(args[i].clone());
            assert(out.deep_view() =~= before.push(views[i as int]));
        }
        i = i + 1;
    }
    assert(views.take(i as int) =~= views);
    out
}

fn edit_args(args: &Vec<String>, has_command: bool, profile: &Option<String>) -> (r: Vec<String>)
    ensures
        forall|command: Option<Seq<char>>|
            command is Some == has_command ==> r.deep_view() == #[trigger] edited_args(
                args.deep_view(),
                command,
                profile.deep_view(),
            ),
{
    let rest = if has_command {
        pick_args(args, true)
    } else {
        let all = args.clone();
        assert(all.deep_view() =~= args.deep_view());
        all
    };
    match profile {
        None => rest,
        Some(name) => {
            let mut out = pick_args(&rest, false);
            let ghost before = out.deep_view();
            if !is_empty(name.as_str()) {
                let mut arg = "--profile-directory=".to_owned();
                arg.append(name.as_str());
                out.push(arg);
                assert(out.deep_view() =~= before + seq![arg@]);
            } else {
                assert(out.deep_view() =~= before + seq![]);
            }
            out
        },
    }
}

/// The launch settings of a slot after an edit.
pub fn edit_launch(
    launch: &Option<LaunchSpec>,
    command: Option<String>,
    workdir: Option<String>,
    profile: Option<String>,
) -> (r: Option<LaunchSpec>)
    ensures
        r.deep_view() == edited_launch(
            launch.deep_view(),
            command.deep_view(),
            workdir.deep_view(),
            profile.deep_view(),
        ),
{
    let base = match launch {
        Some(spec) => spec.clone(),
        None => LaunchSpec::default(),
    };
    let args = edit_args(&base.args, command.is_some(), &profile);
    assert(args.deep_view() == edited_args(
        base@.args,
        command.deep_view(),
        profile.deep_view(),
    ));
    let workdir = match workdir {
        None => base.workdir.clone(),
        Some(dir) => if is_empty(dir.as_str()) {
            None
        } else {
            Some(dir)
        },
    };
    let line = match command {
        Some(line) => line,
        None => base.command.clone(),
    };
    if is_empty(line.as_str()) {
        None
    } else {
        let edited = LaunchSpec { command: line, args, workdir, ..base };
        assert(edited@ =~= (LaunchSpecView {
            command: line@,
            args: args.deep_view(),
            workdir: workdir.deep_view(),
            ..base@
        }));
        Some(edited)
    }
}

fn find_named(apps: &Vec<AppSlot>, id: &str) -> (r: Option<usize>)
    ensures
        match (r, slot_named(apps.deep_view(), id@, 0)) {
            (Some(i), Some(j)) => i == j && i < apps.len(),
            (None, None) => true,
            _ => false,
        },
{
    let ghost views = apps.deep_view();
    let mut i: usize = 0;
    while i < apps.len()
        invariant
            i <= apps.len(),
            views == apps.deep_view(),
            slot_named(views, id@, 0) == slot_named(views, id@, i as int),
        decreases apps.len() - i,
    {
        assert(views[i as int] == apps@[i as int]@);
        if same(id_text(apps[i].slot_id).as_str(), id) {
            return Some(i);
        }
        i = i + 1;
    }
    None
}

fn find_in_order(order: &Vec<String>, slug: &str) -> (r: Option<usize>)
    ensures
        match (r, order_index(order.deep_view(), slug@, 0)) {
            (Some(i), Some(j)) => i == j && i < order.len(),
            (None, None) => true,
            _ => false,
        },
{
    let ghost views = order.deep_view();
    let mut i: usize = 0;
    while i < order.len()
        invariant
            i <= order.len(),
            views == order.deep_view(),
            order_index(views, slug@, 0) == order_index(views, slug@, i as int),
        decreases order.len() - i,
    {
        assert(views[i as int] == order@[i as int]@);
        if same(order[i].as_str(), slug) {
            return Some(i);
        }
        i = i + 1;
    }
    None
}

fn names_all(order: &Vec<String>, projects: &Vec<Project>) -> (r: bool)
    ensures
        r == orders_all(order.deep_view(), projects.deep_view()),
{
    let ghost views = projects.deep_view();
    if order.len() != projects.len() || order.len() as u64 > u32::MAX as u64 {
        return false;
    }
    let mut i: usize = 0;
    while i < projects.len()
        invariant
            i <= projects.len(),
            views == projects.deep_view(),
            forall|k: int|
                0 <= k < i ==> order_index(
                    order.deep_view(),
                    (#[trigger] views[k]).slug,
                    0,
                ) is Some,
        decreases projects.len() - i,
    {
        assert(views[i as int] == projects@[i as int]@);
        if find_in_order(order, projects[i].slug.as_str()).is_none() {
            return false;
        }
        i = i + 1;
    }
    true
}

impl StateActor {
    pub(crate) fn project_get(&self, query: &str) -> (r: Outcome)
        requires
            is_resolvable(query@, self@.projects),
        ensures
            r@ == self@.detailed(query@),
    {
        match self.resolve(query) {
            Ok(project) => Outcome::Reply(Ok(Reply::Details(project.clone()))),
            Err(error) => Outcome::Reply(Err(error)),
        }
    }

    pub(crate) fn project_reorder(&mut self, order: &Vec<String>) -> (r: Outcome)
        ensures
            (final(self)@, r@) == old(self)@.reordered(order.deep_view()),
    {
        let ghost views = order.deep_view();
        let ghost before = self.projects.deep_view();
        if !names_all(order, &self.projects) {
            return refuse(
                ErrorCode::BadRequest,
                "the order must name every project once".to_owned(),
            );
        }
        let mut i: usize = 0;
        while i < self.projects.len()
            invariant
                i <= self.projects.len(),
                self.projects.len() == before.len(),
                views == order.deep_view(),
                before == old(self)@.projects,
                orders_all(views, before),
                self@ == (StateView { projects: self@.projects, ..old(self)@ }),
                forall|k: int|
                    0 <= k < i ==> (#[trigger] self.projects@[k])@ == positioned(
                        before,
                        views,
                    )[k],
                forall|k: int|
                    i <= k < self.projects.len() ==> (#[trigger] self.projects@[k])@ == before[k],
            decreases self.projects.len() - i,
        {
            let mut project = self.projects[i].clone();
            assert(project@ == before[i as int]);
            assert(order_index(views, before[i as int].slug, 0) is Some);
            if let Some(at) = find_in_order(order, project.slug.as_str()) {
                project.position = at as u32;
            }
            assert(project@ =~= positioned(before, views)[i as int]);
            self.projects.set(i, project);
            i = i + 1;
        }
        assert(self.projects.deep_view() =~= positioned(before, views));
        Outcome::Reply(Ok(Reply::Reordered { projects: self.projects.len() }))
    }

    pub(crate) fn slot_update(
        &mut self,
        query: &str,
        slot_id: String,
        command: Option<String>,
        workdir: Option<String>,
        profile: Option<String>,
    ) -> (r: Outcome)
        requires
            is_resolvable(query@, old(self)@.projects),
        ensures
            (final(self)@, r@) == old(self)@.slot_updated(
                query@,
                slot_id@,
                command.deep_view(),
                workdir.deep_view(),
                profile.deep_view(),
            ),
    {
        let i: usize = match self.place(query) {
            Ok(i) => i,
            Err(error) => {
                return Outcome::Reply(Err(error));
            },
        };
        let ghost before = self.projects.deep_view();
        let mut project = self.projects[i].clone();
        assert(project@ == before[i as int]);
        let k: usize = match find_named(&project.apps, slot_id.as_str()) {
            Some(k) => k,
            None => {
                let mut message = around("project '", project.slug.as_str(), "' has no slot ");
                message.append(slot_id.as_str());
                return refuse(ErrorCode::NotFound, message);
            },
        };
        let ghost apps = project.apps.deep_view();
        let mut slot = project.apps[k].clone();
        assert(slot@ == apps[k as int]);
        slot.launch = edit_launch(&slot.launch, command, workdir, profile);
        project.apps.set(k, slot);
        assert(project.apps.deep_view() =~= apps.update(k as int, slot@));
        assert(project@ =~= with_launch(before[i as int], k as int, slot@.launch));
        let slug = project.slug.clone();
        self.projects.set(i, project);
        assert(self.projects.deep_view() =~= before.update(i as int, project@));
        Outcome::Reply(Ok(Reply::SlotUpdated { project: slug, slot_id }))
    }
}

// ---- laws -----------------------------------------------------------------------------

/// After reordering, projects are listed in the order that was given.
pub proof fn law_listings_follow_the_order(
    projects: Seq<ProjectView>,
    order: Seq<Seq<char>>,
    i: int,
    j: int,
)
    requires
        orders_all(order, projects),
        0 <= i < j < projects.len(),
    ensures
        ({
            let listed = listing(positioned(projects, order));
            &&& listed.len() == projects.len()
            &&& order_index(order, listed[i].slug, 0) matches Some(a) && order_index(
                order,
                listed[j].slug,
                0,
            ) matches Some(b) && a <= b
        }),
{
    broadcast use vstd::seq_lib::group_to_multiset_ensures;

    let placed = positioned(projects, order);
    let listed = listing(placed);
    law_listings_are_sorted(placed);
    assert forall|k: int| 0 <= k < listed.len() implies exists|n: int|
        0 <= n < projects.len() && placed[n] == #[trigger] listed[k] by {
        assert(listed.to_multiset().count(listed[k]) > 0);
        assert(placed.to_multiset().count(listed[k]) > 0);
        assert(placed.contains(listed[k]));
    }
    let m = choose|m: int| 0 <= m < projects.len() && placed[m] == listed[i];
    let n = choose|n: int| 0 <= n < projects.len() && placed[n] == listed[j];
    assert(projects[m].slug == listed[i].slug);
    assert(projects[n].slug == listed[j].slug);
    lemma_order_index(order, listed[i].slug, 0);
    lemma_order_index(order, listed[j].slug, 0);
}

proof fn lemma_order_index(order: Seq<Seq<char>>, slug: Seq<char>, from: int)
    requires
        0 <= from,
    ensures
        order_index(order, slug, from) matches Some(i) ==> from <= i < order.len(),
    decreases order.len() - from,
{
    if from < order.len() && order[from] != slug {
        lemma_order_index(order, slug, from + 1);
    }
}

/// An edit touches nothing but the launch settings of the one slot.
pub proof fn law_edits_touch_one_slot(
    project: ProjectView,
    at: int,
    launch: Option<LaunchSpecView>,
    k: int,
)
    requires
        0 <= at < project.apps.len(),
        0 <= k < project.apps.len(),
    ensures
        k != at ==> with_launch(project, at, launch).apps[k] == project.apps[k],
        with_launch(project, at, launch).apps[at].slot_id == project.apps[at].slot_id,
        with_launch(project, at, project.apps[at].launch) == project,
{
    assert(with_launch(project, at, project.apps[at].launch).apps =~= project.apps);
}

} // verus!
