//! The order of projects in listings: by their manual position, then by slug.

use vstd::prelude::*;

use crate::domain::model::Project;
use crate::domain::model::ProjectView;
use crate::domain::search::project_views;
use crate::text::comes_before;
use crate::text::{lemma_precedes_total, lemma_precedes_transitive, precedes};

verus! {

/// Whether a project sorts before another: by a lower position, ties by slug.
pub open spec fn sorts_before(a: ProjectView, b: ProjectView) -> bool {
    a.position < b.position || a.position == b.position && precedes(a.slug, b.slug)
}

/// A project put into a listing, behind those that do not sort after it.
pub open spec fn listed_with(order: Seq<ProjectView>, project: ProjectView) -> Seq<ProjectView>
    decreases order.len(),
{
    if order.len() > 0 && sorts_before(project, order.last()) {
        listed_with(order.drop_last(), project).push(order.last())
    } else {
        order.push(project)
    }
}

/// The projects in listing order.
pub open spec fn listing(projects: Seq<ProjectView>) -> Seq<ProjectView>
    decreases projects.len(),
{
    if projects.len() == 0 {
        seq![]
    } else {
        listed_with(listing(projects.drop_last()), projects.last())
    }
}

proof fn lemma_listed_with(order: Seq<ProjectView>, project: ProjectView, at: int)
    requires
        0 <= at <= order.len(),
        forall|i: int| at <= i < order.len() ==> sorts_before(project, #[trigger] order[i]),
        at > 0 ==> !sorts_before(project, order[at - 1]),
    ensures
        listed_with(order, project) == order.insert(at, project),
    decreases order.len(),
{
    if at < order.len() {
        let front = order.drop_last();
        assert(sorts_before(project, order[order.len() - 1]));
        lemma_listed_with(front, project, at);
        assert(order.insert(at, project) =~= front.insert(at, project).push(order.last()));
    } else {
        assert(order.insert(at, project) =~= order.push(project));
    }
}

/// Whether `a` sorts before `b`.
fn is_before(a: &Project, b: &Project) -> (r: bool)
    ensures
        r == sorts_before(a@, b@),
{
    a.position < b.position || (a.position == b.position && comes_before(
        a.slug.as_str(),
        b.slug.as_str(),
    ))
}

/// The projects in listing order.
pub fn in_listing_order(projects: &Vec<Project>) -> (r: Vec<&Project>)
    ensures
        project_views(r@) == listing(projects.deep_view()),
{
    let ghost all = projects.deep_view();
    let mut order: Vec<&Project> = Vec::new();
    let mut i: usize = 0;
    proof {
        assert(all.take(0) =~= seq![]);
        assert(project_views(order@) =~= seq![]);
    }
    while i < projects.len()
        invariant
            i <= projects.len(),
            all == projects.deep_view(),
            project_views(order@) == listing(all.take(i as int)),
        decreases projects.len() - i,
    {
        let ghost before = project_views(order@);
        let ghost project = all[i as int];
        proof {
            assert(all.take(i + 1).drop_last() =~= all.take(i as int));
            assert(project == projects@[i as int]@);
        }
        let mut at: usize = order.len();
        while at > 0 && is_before(&projects[i], order[at - 1])
            invariant
                i < projects.len(),
                at <= order.len(),
                before == project_views(order@),
                project == projects@[i as int]@,
                forall|k: int| at <= k < before.len() ==> sorts_before(project, #[trigger] before[k]),
            decreases at,
        {
            assert(before[at - 1] == order@[at - 1]@);
            at = at - 1;
        }
        proof {
            if at > 0 {
                assert(before[at - 1] == order@[at - 1]@);
            }
            lemma_listed_with(before, project, at as int);
        }
        order.insert(at, &projects[i]);
        proof {
            assert(project_views(order@) =~= before.insert(at as int, project));
        }
        i = i + 1;
    }
    proof {
        assert(all.take(i as int) =~= all);
    }
    order
}

// ---- laws -----------------------------------------------------------------------

/// Whether projects stand in listing order.
pub open spec fn is_listing_order(order: Seq<ProjectView>) -> bool {
    forall|i: int, j: int|
        0 <= i < j < order.len() ==> !sorts_before(#[trigger] order[j], #[trigger] order[i])
}

proof fn lemma_sorts(a: ProjectView, b: ProjectView, c: ProjectView)
    ensures
        !sorts_before(a, a),
        sorts_before(a, b) ==> !sorts_before(b, a),
        !sorts_before(b, a) && !sorts_before(c, b) ==> !sorts_before(c, a),
{
    lemma_precedes_total(a.slug, a.slug);
    lemma_precedes_total(a.slug, b.slug);
    lemma_precedes_total(b.slug, c.slug);
    lemma_precedes_total(a.slug, c.slug);
    if precedes(a.slug, b.slug) && precedes(b.slug, a.slug) {
        lemma_precedes_transitive(a.slug, b.slug, a.slug);
    }
    if precedes(a.slug, b.slug) && precedes(b.slug, c.slug) {
        lemma_precedes_transitive(a.slug, b.slug, c.slug);
    }
    if precedes(c.slug, a.slug) && precedes(a.slug, c.slug) {
        lemma_precedes_transitive(a.slug, c.slug, a.slug);
    }
}

proof fn lemma_listed_with_sorted(order: Seq<ProjectView>, project: ProjectView)
    requires
        is_listing_order(order),
    ensures
        is_listing_order(listed_with(order, project)),
        listed_with(order, project).to_multiset() == order.to_multiset().insert(project),
    decreases order.len(),
{
    broadcast use vstd::seq_lib::group_to_multiset_ensures;

    let all = listed_with(order, project);
    if order.len() > 0 && sorts_before(project, order.last()) {
        let front = order.drop_last();
        let last = order.last();
        lemma_listed_with_sorted(front, project);
        let before = listed_with(front, project);
        assert(order =~= front.push(last));
        assert(all =~= before.push(last));
        assert forall|i: int, j: int| 0 <= i < j < all.len() implies !sorts_before(
            #[trigger] all[j],
            #[trigger] all[i],
        ) by {
            if j == before.len() {
                assert(before.to_multiset().count(before[i]) > 0) by {
                    assert(before.contains(before[i]));
                }
                if before[i] == project {
                    lemma_sorts(project, last, project);
                } else {
                    assert(front.to_multiset().count(before[i]) > 0);
                    assert(front.contains(before[i]));
                    let k = choose|k: int| 0 <= k < front.len() && front[k] == before[i];
                    assert(!sorts_before(order[order.len() - 1], order[k]));
                }
            }
        }
        assert(all.to_multiset() =~= order.to_multiset().insert(project));
    } else {
        assert forall|i: int, j: int| 0 <= i < j < all.len() implies !sorts_before(
            #[trigger] all[j],
            #[trigger] all[i],
        ) by {
            if j == order.len() {
                let last = order[order.len() - 1];
                if i < order.len() - 1 {
                    assert(!sorts_before(last, order[i]));
                }
                lemma_sorts(order[i], last, project);
            }
        }
    }
}

/// A listing holds each project once and in order: a lower position first,
/// equal positions by slug.
pub proof fn law_listings_are_sorted(projects: Seq<ProjectView>)
    ensures
        is_listing_order(listing(projects)),
        listing(projects).to_multiset() == projects.to_multiset(),
        listing(projects).len() == projects.len(),
    decreases projects.len(),
{
    broadcast use vstd::seq_lib::group_to_multiset_ensures;

    if projects.len() > 0 {
        let front = projects.drop_last();
        law_listings_are_sorted(front);
        lemma_listed_with_sorted(listing(front), projects.last());
        assert(projects =~= front.push(projects.last()));
        assert(listing(projects).len() == listing(projects).to_multiset().len());
    } else {
        assert(listing(projects) =~= projects);
    }
}

/// Projects are listed by their positions, and those of one position by their
/// slugs.
pub proof fn law_listings_go_by_position(projects: Seq<ProjectView>, i: int, j: int)
    requires
        0 <= i < j < projects.len(),
    ensures
        listing(projects)[i].position < listing(projects)[j].position || listing(projects)[i].position
            == listing(projects)[j].position && !precedes(
            listing(projects)[j].slug,
            listing(projects)[i].slug,
        ),
{
    law_listings_are_sorted(projects);
    let order = listing(projects);
    assert(!sorts_before(order[j], order[i]));
}

} // verus!
