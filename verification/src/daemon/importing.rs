//! `project.import`: a project file becomes a project, under another slug where
//! its own is taken, or in place of the one that has it.

use vstd::prelude::*;

use crate::daemon::requests::{lemma_slug_index, refused, OutcomeView};
use crate::daemon::requests::{refuse, Outcome};
use crate::daemon::state::{find_slug, StateActor};
use crate::daemon::state::{slug_index, StateView};
use crate::domain::events::DomainEvent;
use crate::domain::events::DomainEventView;
use crate::domain::model::{Project, ProjectId, Slug};
use crate::domain::model::{is_slug, is_slug_char, ProjectView};
use crate::numbers::render;
use crate::numbers::{decimal, digit_char};
use crate::proto::{ErrorCode, Reply};
use crate::proto::ReplyView;
use crate::text::is_digit;

verus! {

/// A slug with a number behind it.
pub open spec fn numbered(slug: Seq<char>, n: nat) -> Seq<char> {
    slug + "-"@ + decimal(n)
}

/// The slug under the smallest number from `n` on that no project has. There
/// are never more numbers to try than projects.
pub open spec fn free_from(projects: Seq<ProjectView>, slug: Seq<char>, n: nat) -> Option<Seq<char>>
    decreases projects.len() + 1 - n,
{
    if n > projects.len() {
        None
    } else if slug_index(projects, numbered(slug, n), 0) is None {
        Some(numbered(slug, n))
    } else {
        free_from(projects, slug, n + 1)
    }
}

impl StateView {
    /// `project.import` of what a file holds, or of a file that is refused. `id`
    /// is a fresh one; a project that is replaced keeps its own, and with it
    /// its windows.
    pub open spec fn imported(
        self,
        file: Result<ProjectView, Seq<char>>,
        force: bool,
        id: ProjectId,
    ) -> (StateView, OutcomeView) {
        match file {
            Err(message) => (self, refused(ErrorCode::BadRequest, message)),
            Ok(project) => match slug_index(self.projects, project.slug, 0) {
                None => self.adding(ProjectView { id, ..project }),
                Some(i) => if force {
                    let replaced = ProjectView { id: self.projects[i].id, ..project };
                    (
                        StateView { projects: self.projects.update(i, replaced), ..self }.emitting(
                            DomainEventView::ProjectRenamed {
                                slug: replaced.slug,
                                name: replaced.name,
                            },
                        ),
                        OutcomeView::Reply(Ok(ReplyView::Project(self.summary(replaced)))),
                    )
                } else {
                    let slug = free_from(self.projects, project.slug, 1)->0;
                    self.adding(ProjectView { id, slug, ..project })
                },
            },
        }
    }
}

// ---- a free slug ----------------------------------------------------------------------

proof fn lemma_digit_char(d: nat)
    requires
        d < 10,
    ensures
        is_digit(digit_char(d)),
        forall|e: nat| e < 10 && #[trigger] digit_char(e) == digit_char(d) ==> e == d,
{
}

/// A decimal text is not empty and made of digits.
proof fn lemma_decimal_digits(n: nat)
    ensures
        decimal(n).len() > 0,
        forall|i: int| 0 <= i < decimal(n).len() ==> is_digit(#[trigger] decimal(n)[i]),
    decreases n,
{
    lemma_digit_char(n % 10);
    if n < 10 {
        lemma_digit_char(n);
    } else {
        lemma_decimal_digits(n / 10);
    }
}

/// Distinct numbers have distinct texts.
proof fn lemma_decimal_injective(a: nat, b: nat)
    requires
        decimal(a) == decimal(b),
    ensures
        a == b,
    decreases a,
{
    let x = decimal(a);
    let y = decimal(b);
    lemma_digit_char(a % 10);
    lemma_decimal_digits(a / 10);
    lemma_decimal_digits(b / 10);
    assert(x.last() == digit_char(a % 10));
    assert(y.last() == digit_char(b % 10));
    assert(a % 10 == b % 10);
    if a < 10 {
        assert(x.len() == 1);
        assert(b < 10);
    } else {
        assert(x.len() >= 2);
        assert(b >= 10);
        assert(x.drop_last() =~= decimal(a / 10));
        assert(y.drop_last() =~= decimal(b / 10));
        lemma_decimal_injective(a / 10, b / 10);
    }
}

/// A numbered slug is a slug, and another one.
proof fn lemma_numbered(slug: Seq<char>, n: nat)
    requires
        is_slug(slug),
    ensures
        is_slug(numbered(slug, n)),
        numbered(slug, n) != slug,
        forall|m: nat| #[trigger] numbered(slug, m) == numbered(slug, n) ==> m == n,
{
    reveal_strlit("-");
    lemma_decimal_digits(n);
    let all = numbered(slug, n);
    assert(all.len() == slug.len() + 1 + decimal(n).len());
    assert(all.last() == decimal(n).last());
    assert forall|i: int| 0 <= i < all.len() implies is_slug_char(#[trigger] all[i]) by {
        if i < slug.len() {
            assert(all[i] == slug[i]);
        } else if i > slug.len() {
            assert(all[i] == decimal(n)[i - slug.len() - 1]);
        }
    }
    assert forall|m: nat| #[trigger] numbered(slug, m) == all implies m == n by {
        assert(numbered(slug, m).skip(slug.len() as int + 1) =~= decimal(m));
        assert(all.skip(slug.len() as int + 1) =~= decimal(n));
        lemma_decimal_injective(m, n);
    }
}

/// Where the `k`-th of the slugs to try stands: the slug itself, then the
/// numbered ones.
spec fn holder(projects: Seq<ProjectView>, slug: Seq<char>, k: int) -> int {
    if k == 0 {
        slug_index(projects, slug, 0)->0
    } else {
        slug_index(projects, numbered(slug, k as nat), 0)->0
    }
}

proof fn lemma_all_taken(projects: Seq<ProjectView>, slug: Seq<char>, n: nat)
    requires
        free_from(projects, slug, n) is None,
    ensures
        forall|m: nat|
            n <= m <= projects.len() ==> slug_index(
                projects,
                #[trigger] numbered(slug, m),
                0,
            ) is Some,
    decreases projects.len() + 1 - n,
{
    if n <= projects.len() {
        lemma_all_taken(projects, slug, n + 1);
    }
}

/// One of the numbers is always free: there are fewer projects than slugs to
/// try.
pub proof fn law_a_slug_is_always_free(projects: Seq<ProjectView>, slug: Seq<char>)
    requires
        is_slug(slug),
        slug_index(projects, slug, 0) is Some,
    ensures
        free_from(projects, slug, 1) matches Some(free) && is_slug(free) && slug_index(
            projects,
            free,
            0,
        ) is None,
{
    if free_from(projects, slug, 1) is None {
        lemma_all_taken(projects, slug, 1);
        let count = projects.len() as int;
        let holders = Seq::new((count + 1) as nat, |k: int| holder(projects, slug, k));
        assert forall|k: int| 0 <= k < holders.len() implies 0 <= #[trigger] holders[k] < count
            && projects[holders[k]].slug == (if k == 0 {
            slug
        } else {
            numbered(slug, k as nat)
        }) by {
            if k == 0 {
                lemma_slug_index(projects, slug, 0);
            } else {
                lemma_slug_index(projects, numbered(slug, k as nat), 0);
            }
        }
        assert(holders.no_duplicates()) by {
            assert forall|a: int, b: int|
                0 <= a < holders.len() && 0 <= b < holders.len() && a != b implies holders[a]
                != holders[b] by {
                if a == 0 {
                    lemma_numbered(slug, b as nat);
                } else {
                    lemma_numbered(slug, a as nat);
                }
            }
        }
        holders.unique_seq_to_set();
        vstd::set_lib::lemma_int_range(0, count);
        assert(holders.to_set().subset_of(vstd::set_lib::set_int_range(0, count))) by {
            assert forall|x: int| holders.to_set().contains(x) implies 0 <= x < count by {
                let k = choose|k: int| 0 <= k < holders.len() && holders[k] == x;
                assert(0 <= holders[k] < count);
            }
        }
        vstd::set_lib::lemma_len_subset(
            holders.to_set(),
            vstd::set_lib::set_int_range(0, count),
        );
    }
    lemma_free(projects, slug, 1);
}

proof fn lemma_free(projects: Seq<ProjectView>, slug: Seq<char>, n: nat)
    requires
        is_slug(slug),
    ensures
        free_from(projects, slug, n) matches Some(free) ==> is_slug(free) && slug_index(
            projects,
            free,
            0,
        ) is None,
    decreases projects.len() + 1 - n,
{
    if n <= projects.len() {
        lemma_numbered(slug, n);
        lemma_free(projects, slug, n + 1);
    }
}

// ---- carrying it out ------------------------------------------------------------------

fn free_slug(projects: &Vec<Project>, slug: &Slug) -> (r: Slug)
    requires
        slug_index(projects.deep_view(), slug@, 0) is Some,
    ensures
        Some(r@) == free_from(projects.deep_view(), slug@, 1),
{
    let text = slug.as_str();
    let ghost views = projects.deep_view();
    proof {
        law_a_slug_is_always_free(views, slug@);
    }
    let mut n: usize = 1;
    while n <= projects.len()
        invariant
            1 <= n,
            views == projects.deep_view(),
            text@ == slug@,
            is_slug(text@),
            n <= projects.len() + 1,
            free_from(views, slug@, 1) is Some,
            free_from(views, slug@, 1) == free_from(views, slug@, n as nat),
        decreases projects.len() + 1 - n,
    {
        let mut wanted = text.to_owned();
        wanted.append("-");
        wanted.append(render(n as u64).as_str());
        proof {
            lemma_numbered(slug@, n as nat);
        }
        if find_slug(projects, wanted.as_str()).is_none() {
            if let Ok(free) = Slug::parse(wanted.as_str()) {
                return free;
            }
        }
        if n == projects.len() {
            assert(free_from(views, slug@, (n + 1) as nat) is None);
            return slug.clone();
        }
        n = n + 1;
    }
    slug.clone()
}

impl StateActor {
    pub(crate) fn project_import(
        &mut self,
        file: Result<Project, String>,
        force: bool,
        id: ProjectId,
    ) -> (r: Outcome)
        requires
            old(self)@.has_room(),
        ensures
            (final(self)@, r@) == old(self)@.imported(file_view(file), force, id),
    {
        let project = match file {
            Ok(project) => project,
            Err(message) => {
                return refuse(ErrorCode::BadRequest, message);
            },
        };
        match find_slug(&self.projects, project.slug.as_str()) {
            None => {
                let fresh = Project { id, ..project };
                assert(fresh@ =~= (ProjectView { id, ..project@ }));
                self.add_project(fresh)
            },
            Some(i) => if force {
                let ghost before = self.projects.deep_view();
                let kept = self.projects[i].id;
                assert(before[i as int].id == kept);
                let replaced = Project { id: kept, ..project };
                assert(replaced@ =~= (ProjectView { id: kept, ..project@ }));
                let summary = self.summary(&replaced);
                let slug = replaced.slug.as_str().to_owned();
                let name = replaced.name.clone();
                self.projects.set(i, replaced);
                assert(self.projects.deep_view() =~= before.update(i as int, replaced@));
                self.emit(DomainEvent::ProjectRenamed { slug, name });
                Outcome::Reply(Ok(Reply::Project(summary)))
            } else {
                let slug = free_slug(&self.projects, &project.slug);
                let renamed = Project { id, slug, ..project };
                assert(renamed@ =~= (ProjectView { id, slug: slug@, ..project@ }));
                self.add_project(renamed)
            },
        }
    }
}

/// What reading a project file gave.
pub open spec fn file_view(file: Result<Project, String>) -> Result<ProjectView, Seq<char>> {
    match file {
        Ok(project) => Ok(project@),
        Err(message) => Err(message@),
    }
}

// ---- laws -----------------------------------------------------------------------------

/// Without force, importing never touches a project that is there.
pub proof fn law_imports_replace_nothing_unasked(
    state: StateView,
    file: Result<ProjectView, Seq<char>>,
    id: ProjectId,
    k: int,
)
    requires
        0 <= k < state.projects.len(),
    ensures
        state.imported(file, false, id).0.projects.len() >= state.projects.len(),
        state.imported(file, false, id).0.projects[k] == state.projects[k],
{
}

/// What was exported is imported as it was but for its id, under its own slug
/// where that is free and its workspace is.
pub proof fn law_exports_import_again(
    state: StateView,
    project: ProjectView,
    force: bool,
    id: ProjectId,
)
    requires
        slug_index(state.projects, project.slug, 0) is None,
        !crate::domain::world::workspace_named(
            state.world.workspaces,
            state.workspace_of(project.slug),
        ),
    ensures
        state.imported(Ok(project), force, id).0.projects == state.projects.push(
            ProjectView { id, ..project },
        ),
{
}

/// Whether a project has the slug with the number behind it.
pub open spec fn is_numbered_taken(projects: Seq<ProjectView>, slug: Seq<char>, n: nat) -> bool {
    exists|j: int|
        0 <= j < projects.len() && (#[trigger] projects[j]).slug == slug + "-"@ + decimal(n)
}

/// The slug that is free is the wanted one with the smallest number, from the
/// given one on, that makes it no project's.
pub proof fn law_free_slugs_count_up(projects: Seq<ProjectView>, slug: Seq<char>, n: nat)
    ensures
        free_from(projects, slug, n) matches Some(free) ==> exists|m: nat|
            {
                &&& m >= n
                &&& free == slug + "-"@ + #[trigger] decimal(m)
                &&& !is_numbered_taken(projects, slug, m)
                &&& forall|k: nat| n <= k < m ==> #[trigger] is_numbered_taken(projects, slug, k)
            },
    decreases projects.len() + 1 - n,
{
    if n <= projects.len() {
        let tried = numbered(slug, n);
        lemma_slug_index(projects, tried, 0);
        if slug_index(projects, tried, 0) is None {
            assert(!is_numbered_taken(projects, slug, n));
            assert(free_from(projects, slug, n) == Some(slug + "-"@ + decimal(n)));
        } else {
            law_free_slugs_count_up(projects, slug, n + 1);
            let i = slug_index(projects, tried, 0)->0;
            assert(projects[i].slug == slug + "-"@ + decimal(n));
            assert(is_numbered_taken(projects, slug, n));
            if let Some(free) = free_from(projects, slug, n) {
                let m = choose|m: nat|
                    {
                        &&& m >= n + 1
                        &&& free == slug + "-"@ + #[trigger] decimal(m)
                        &&& !is_numbered_taken(projects, slug, m)
                        &&& forall|k: nat|
                            n + 1 <= k < m ==> #[trigger] is_numbered_taken(projects, slug, k)
                    };
                assert forall|k: nat| n <= k < m implies #[trigger] is_numbered_taken(
                    projects,
                    slug,
                    k,
                ) by {
                    if k == n {
                    }
                }
                assert(free == slug + "-"@ + decimal(m));
            }
        }
    }
}

} // verus!
