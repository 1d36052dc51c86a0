//! `search`: projects and windows that fit a query, best first.

use vstd::prelude::*;

use crate::daemon::state::StateActor;
use crate::daemon::state::StateView;
use crate::domain::listing::in_listing_order;
use crate::domain::listing::{law_listings_are_sorted, listing};
use crate::domain::model::Project;
use crate::domain::model::ProjectView;
use crate::domain::search::{better_of, fitting};
use crate::domain::search::{better, project_views, text_score};
use crate::domain::world::TrackedWindow;
use crate::domain::world::{
    is_window_list, lemma_filed, lemma_filed_by_address, lemma_window_list, window_list,
    TrackedWindowView,
};
use crate::proto::{Hit, HitKind};
use crate::proto::HitView;

verus! {

// ---- what fits ------------------------------------------------------------------------

/// What a query finds in a project: its slug or its name fits.
pub open spec fn project_hit(query: Seq<char>, project: ProjectView) -> Option<HitView> {
    match better(text_score(query, project.slug), text_score(query, project.name)) {
        Some(score) => Some(
            HitView { kind: HitKind::Project, key: project.slug, label: project.name, score },
        ),
        None => None,
    }
}

/// What a query finds in a window: its title or its class fits.
pub open spec fn window_hit(query: Seq<char>, window: TrackedWindowView) -> Option<HitView> {
    match better(text_score(query, window.facts.title), text_score(query, window.facts.class)) {
        Some(score) => Some(
            HitView {
                kind: HitKind::Window,
                key: window.address,
                label: window.facts.title,
                score,
            },
        ),
        None => None,
    }
}

/// What a query finds among projects, in their order.
pub open spec fn project_hits(query: Seq<char>, projects: Seq<ProjectView>) -> Seq<HitView>
    decreases projects.len(),
{
    if projects.len() == 0 {
        seq![]
    } else {
        let before = project_hits(query, projects.drop_last());
        match project_hit(query, projects.last()) {
            Some(hit) => before.push(hit),
            None => before,
        }
    }
}

/// What a query finds among windows, in their order.
pub open spec fn window_hits(query: Seq<char>, windows: Seq<TrackedWindowView>) -> Seq<HitView>
    decreases windows.len(),
{
    if windows.len() == 0 {
        seq![]
    } else {
        let before = window_hits(query, windows.drop_last());
        match window_hit(query, windows.last()) {
            Some(hit) => before.push(hit),
            None => before,
        }
    }
}

/// A hit put into a ranking after those that score no less.
pub open spec fn put_in(ranking: Seq<HitView>, hit: HitView) -> Seq<HitView>
    decreases ranking.len(),
{
    if ranking.len() > 0 && ranking.last().score < hit.score {
        put_in(ranking.drop_last(), hit).push(ranking.last())
    } else {
        ranking.push(hit)
    }
}

/// Hits best first; equal scores keep their order.
pub open spec fn best_first(hits: Seq<HitView>) -> Seq<HitView>
    decreases hits.len(),
{
    if hits.len() == 0 {
        seq![]
    } else {
        put_in(best_first(hits.drop_last()), hits.last())
    }
}

impl StateView {
    /// What a query finds: projects in listing order and windows by ascending
    /// address, best first.
    pub open spec fn found(self, query: Seq<char>) -> Seq<HitView> {
        best_first(
            project_hits(query, listing(self.projects)) + window_hits(
                query,
                window_list(self.world.windows),
            ),
        )
    }
}

// ---- finding it -----------------------------------------------------------------------

fn hit_of_project(query: &str, project: &Project) -> (r: Option<Hit>)
    ensures
        r.deep_view() == project_hit(query@, project@),
{
    let slug = fitting(query, project.slug.as_str());
    match better_of(slug, fitting(query, project.name.as_str())) {
        Some(score) => Some(
            Hit {
                kind: HitKind::Project,
                key: project.slug.as_str().to_owned(),
                label: project.name.clone(),
                score,
            },
        ),
        None => None,
    }
}

fn hit_of_window(query: &str, window: &TrackedWindow) -> (r: Option<Hit>)
    ensures
        r.deep_view() == window_hit(query@, window@),
{
    let title = fitting(query, window.facts.title.as_str());
    match better_of(title, fitting(query, window.facts.class.as_str())) {
        Some(score) => Some(
            Hit {
                kind: HitKind::Window,
                key: window.address.clone(),
                label: window.facts.title.clone(),
                score,
            },
        ),
        None => None,
    }
}

/// Putting a hit before the tail that scores less.
proof fn lemma_put_in(ranking: Seq<HitView>, hit: HitView, at: int)
    requires
        0 <= at <= ranking.len(),
        forall|i: int| at <= i < ranking.len() ==> (#[trigger] ranking[i]).score < hit.score,
        at > 0 ==> ranking[at - 1].score >= hit.score,
    ensures
        put_in(ranking, hit) == ranking.insert(at, hit),
    decreases ranking.len(),
{
    if at < ranking.len() {
        let front = ranking.drop_last();
        lemma_put_in(front, hit, at);
        assert(ranking.insert(at, hit) =~= front.insert(at, hit).push(ranking.last()));
    } else {
        assert(ranking.insert(at, hit) =~= ranking.push(hit));
    }
}

fn put(ranking: &mut Vec<Hit>, hit: Hit)
    ensures
        final(ranking).deep_view() == put_in(old(ranking).deep_view(), hit@),
{
    let ghost before = ranking.deep_view();
    let mut at: usize = ranking.len();
    while at > 0 && ranking[at - 1].score < hit.score
        invariant
            at <= ranking.len(),
            before == ranking.deep_view(),
            before == old(ranking).deep_view(),
            forall|i: int| at <= i < before.len() ==> (#[trigger] before[i]).score < hit.score,
        decreases at,
    {
        assert(before[at - 1] == ranking@[at - 1]@);
        at = at - 1;
    }
    proof {
        if at > 0 {
            assert(before[at - 1] == ranking@[at - 1]@);
        }
        lemma_put_in(before, hit@, at as int);
    }
    ranking.insert(at, hit);
    assert(ranking.deep_view() =~= before.insert(at as int, hit@));
}

/// Hits best first; equal scores keep their order.
pub fn rank(hits: &Vec<Hit>) -> (r: Vec<Hit>)
    ensures
        r.deep_view() == best_first(hits.deep_view()),
{
    let ghost views = hits.deep_view();
    let mut out: Vec<Hit> = Vec::new();
    let mut i: usize = 0;
    assert(views.take(0) =~= seq![]);
    assert(out.deep_view() =~= seq![]);
    while i < hits.len()
        invariant
            i <= hits.len(),
            views == hits.deep_view(),
            out.deep_view() == best_first(views.take(i as int)),
        decreases hits.len() - i,
    {
        assert(views.take(i + 1).drop_last() =~= views.take(i as int));
        assert(views[i as int] == hits@[i as int]@);
        put(&mut out, hits[i].clone());
        i = i + 1;
    }
    assert(views.take(i as int) =~= views);
    out
}

impl StateActor {
    /// What a query finds, best first.
    pub fn find(&self, query: &str) -> (r: Vec<Hit>)
        ensures
            r.deep_view() == self@.found(query@),
    {
        let projects = in_listing_order(&self.projects);
        let ghost all = listing(self@.projects);
        let mut out: Vec<Hit> = Vec::new();
        let mut i: usize = 0;
        assert(all.take(0) =~= seq![]);
        assert(out.deep_view() =~= seq![]);
        while i < projects.len()
            invariant
                i <= projects.len(),
                all == project_views(projects@),
                out.deep_view() == project_hits(query@, all.take(i as int)),
            decreases projects.len() - i,
        {
            assert(all.take(i + 1).drop_last() =~= all.take(i as int));
            assert(all[i as int] == projects@[i as int]@);
            if let Some(hit) = hit_of_project(query, projects[i]) {
                let ghost before = out.deep_view();
                out.push(hit);
                assert(out.deep_view() =~= before.push(hit@));
            }
            i = i + 1;
        }
        assert(all.take(i as int) =~= all);
        let ghost first = project_hits(query@, all);
        let windows = self.world.windows.sorted();
        let ghost views = windows.deep_view();
        proof {
            lemma_window_list(self@.world.windows, views, views);
        }
        let mut k: usize = 0;
        assert(views.take(0) =~= seq![]);
        assert(first + window_hits(query@, views.take(0)) =~= first);
        while k < windows.len()
            invariant
                k <= windows.len(),
                views == windows.deep_view(),
                out.deep_view() == first + window_hits(query@, views.take(k as int)),
            decreases windows.len() - k,
        {
            assert(views.take(k + 1).drop_last() =~= views.take(k as int));
            assert(views[k as int] == windows@[k as int]@);
            if let Some(hit) = hit_of_window(query, &windows[k]) {
                let ghost hits = window_hits(query@, views.take(k as int));
                let ghost before = out.deep_view();
                out.push(hit);
                assert(out.deep_view() =~= before.push(hit@));
                assert(first + hits.push(hit@) =~= (first + hits).push(hit@));
            }
            k = k + 1;
        }
        assert(views.take(k as int) =~= views);
        rank(&out)
    }
}

// ---- laws -----------------------------------------------------------------------------

/// Whether hits are listed best first.
pub open spec fn scores_fall(hits: Seq<HitView>) -> bool {
    forall|i: int, j: int|
        0 <= i < j < hits.len() ==> (#[trigger] hits[i]).score >= (#[trigger] hits[j]).score
}

proof fn lemma_put_in_falls(ranking: Seq<HitView>, hit: HitView)
    requires
        scores_fall(ranking),
    ensures
        scores_fall(put_in(ranking, hit)),
        put_in(ranking, hit).to_multiset() == ranking.to_multiset().insert(hit),
        ranking.len() > 0 && ranking.last().score < hit.score ==> put_in(
            ranking,
            hit,
        ).last().score == ranking.last().score,
        forall|i: int|
            0 <= i < put_in(ranking, hit).len() ==> {
                let x = #[trigger] put_in(ranking, hit)[i];
                x == hit || ranking.contains(x)
            },
    decreases ranking.len(),
{
    broadcast use vstd::seq_lib::group_to_multiset_ensures;

    let all = put_in(ranking, hit);
    if ranking.len() > 0 && ranking.last().score < hit.score {
        let front = ranking.drop_last();
        let last = ranking.last();
        lemma_put_in_falls(front, hit);
        let inner = put_in(front, hit);
        assert(ranking =~= front.push(last));
        assert(all.to_multiset() =~= ranking.to_multiset().insert(hit));
        assert forall|i: int| 0 <= i < all.len() implies {
            let x = #[trigger] all[i];
            x == hit || ranking.contains(x)
        } by {
            if i < inner.len() {
                assert(all[i] == inner[i]);
                if inner[i] != hit {
                    let k = choose|k: int| 0 <= k < front.len() && front[k] == inner[i];
                    assert(ranking[k] == inner[i]);
                }
            } else {
                assert(ranking[ranking.len() - 1] == last);
            }
        }
        assert forall|i: int, j: int| 0 <= i < j < all.len() implies (#[trigger] all[i]).score >= (
        #[trigger] all[j]).score by {
            if j < inner.len() {
                assert(inner[i].score >= inner[j].score);
            } else {
                assert(all[i] == inner[i]);
                if inner[i] != hit {
                    let k = choose|k: int| 0 <= k < front.len() && front[k] == inner[i];
                    assert(ranking[k].score >= ranking[ranking.len() - 1].score);
                }
            }
        }
    } else {
        assert forall|i: int| 0 <= i < all.len() implies {
            let x = #[trigger] all[i];
            x == hit || ranking.contains(x)
        } by {
            if i < ranking.len() {
                assert(ranking[i] == all[i]);
            }
        }
        assert forall|i: int, j: int| 0 <= i < j < all.len() implies (#[trigger] all[i]).score >= (
        #[trigger] all[j]).score by {
            if j == ranking.len() {
                assert(ranking[i].score >= ranking[ranking.len() - 1].score);
            }
        }
    }
}

/// The best hits come first, and ranking neither drops nor invents one.
pub proof fn law_best_hits_come_first(hits: Seq<HitView>)
    ensures
        scores_fall(best_first(hits)),
        best_first(hits).to_multiset() == hits.to_multiset(),
    decreases hits.len(),
{
    broadcast use vstd::seq_lib::group_to_multiset_ensures;

    if hits.len() > 0 {
        let front = hits.drop_last();
        law_best_hits_come_first(front);
        lemma_put_in_falls(best_first(front), hits.last());
        assert(hits =~= front.push(hits.last()));
    }
}

proof fn lemma_project_hits(query: Seq<char>, projects: Seq<ProjectView>)
    ensures
        forall|h: HitView| #[trigger]
            project_hits(query, projects).contains(h) <==> exists|i: int|
                0 <= i < projects.len() && project_hit(query, #[trigger] projects[i]) == Some(h),
    decreases projects.len(),
{
    if projects.len() > 0 {
        let front = projects.drop_last();
        lemma_project_hits(query, front);
        let before = project_hits(query, front);
        let now = project_hits(query, projects);
        assert forall|h: HitView| #[trigger] now.contains(h) <==> exists|i: int|
            0 <= i < projects.len() && project_hit(query, #[trigger] projects[i]) == Some(h) by {
            if now.contains(h) {
                let k = choose|k: int| 0 <= k < now.len() && now[k] == h;
                if k < before.len() {
                    assert(before[k] == h);
                    assert(before.contains(h));
                    let i = choose|i: int|
                        0 <= i < front.len() && project_hit(query, #[trigger] front[i]) == Some(h);
                    assert(projects[i] == front[i]);
                } else {
                    assert(project_hit(query, projects[projects.len() - 1]) == Some(h));
                }
            }
            if exists|i: int|
                0 <= i < projects.len() && project_hit(query, #[trigger] projects[i]) == Some(h) {
                let i = choose|i: int|
                    0 <= i < projects.len() && project_hit(query, #[trigger] projects[i]) == Some(
                        h,
                    );
                if i < front.len() {
                    assert(front[i] == projects[i]);
                    assert(before.contains(h));
                    let k = choose|k: int| 0 <= k < before.len() && before[k] == h;
                    assert(now[k] == h);
                } else {
                    assert(now[before.len() as int] == h);
                }
            }
        }
    }
}

proof fn lemma_window_hits(query: Seq<char>, windows: Seq<TrackedWindowView>)
    ensures
        forall|h: HitView| #[trigger]
            window_hits(query, windows).contains(h) <==> exists|i: int|
                0 <= i < windows.len() && window_hit(query, #[trigger] windows[i]) == Some(h),
    decreases windows.len(),
{
    if windows.len() > 0 {
        let front = windows.drop_last();
        lemma_window_hits(query, front);
        let before = window_hits(query, front);
        let now = window_hits(query, windows);
        assert forall|h: HitView| #[trigger] now.contains(h) <==> exists|i: int|
            0 <= i < windows.len() && window_hit(query, #[trigger] windows[i]) == Some(h) by {
            if now.contains(h) {
                let k = choose|k: int| 0 <= k < now.len() && now[k] == h;
                if k < before.len() {
                    assert(before[k] == h);
                    assert(before.contains(h));
                    let i = choose|i: int|
                        0 <= i < front.len() && window_hit(query, #[trigger] front[i]) == Some(h);
                    assert(windows[i] == front[i]);
                } else {
                    assert(window_hit(query, windows[windows.len() - 1]) == Some(h));
                }
            }
            if exists|i: int|
                0 <= i < windows.len() && window_hit(query, #[trigger] windows[i]) == Some(h) {
                let i = choose|i: int|
                    0 <= i < windows.len() && window_hit(query, #[trigger] windows[i]) == Some(h);
                if i < front.len() {
                    assert(front[i] == windows[i]);
                    assert(before.contains(h));
                    let k = choose|k: int| 0 <= k < before.len() && before[k] == h;
                    assert(now[k] == h);
                } else {
                    assert(now[before.len() as int] == h);
                }
            }
        }
    }
}

/// Whether a hit tells of a project: by its slug, under its name, with the
/// better of the scores of the two.
pub open spec fn tells_of_project(hit: HitView, query: Seq<char>, project: ProjectView) -> bool {
    let by_slug = text_score(query, project.slug);
    let by_name = text_score(query, project.name);
    &&& hit.kind == HitKind::Project
    &&& hit.key == project.slug
    &&& hit.label == project.name
    &&& by_slug == Some(hit.score) || by_name == Some(hit.score)
    &&& by_slug matches Some(score) ==> score <= hit.score
    &&& by_name matches Some(score) ==> score <= hit.score
}

/// Whether a hit tells of a window: by its address, under its title, with the
/// better of the scores of its title and its class.
pub open spec fn tells_of_window(hit: HitView, query: Seq<char>, window: TrackedWindowView) -> bool {
    let by_title = text_score(query, window.facts.title);
    let by_class = text_score(query, window.facts.class);
    &&& hit.kind == HitKind::Window
    &&& hit.key == window.address
    &&& hit.label == window.facts.title
    &&& by_title == Some(hit.score) || by_class == Some(hit.score)
    &&& by_title matches Some(score) ==> score <= hit.score
    &&& by_class matches Some(score) ==> score <= hit.score
}

/// A search finds every project whose slug or name fits and every window whose
/// title or class does, and nothing else; the best come first.
pub proof fn law_searches_find_everything_that_fits(
    state: StateView,
    query: Seq<char>,
    list: Seq<TrackedWindowView>,
)
    requires
        is_window_list(state.world.windows, list),
    ensures
        forall|i: int|
            0 <= i < state.projects.len() && (text_score(
                query,
                (#[trigger] state.projects[i]).slug,
            ) is Some || text_score(query, state.projects[i].name) is Some) ==> finds_project(
                state.found(query),
                query,
                state.projects[i],
            ),
        forall|a: Seq<char>| #[trigger]
            state.world.windows.dom().contains(a) && (text_score(
                query,
                state.world.windows[a].facts.title,
            ) is Some || text_score(query, state.world.windows[a].facts.class) is Some)
                ==> finds_window(state.found(query), query, state.world.windows[a]),
        forall|k: int|
            0 <= k < state.found(query).len() ==> is_found(
                state,
                query,
                #[trigger] state.found(query)[k],
            ),
        forall|k: int, l: int|
            0 <= k < l < state.found(query).len() ==> (#[trigger] state.found(query)[k]).score >= (
            #[trigger] state.found(query)[l]).score,
{
    broadcast use vstd::seq_lib::group_to_multiset_ensures;

    let order = listing(state.projects);
    let first = project_hits(query, order);
    let second = window_hits(query, list);
    let hits = first + second;
    let found = state.found(query);
    lemma_window_list(state.world.windows, list, list);
    law_listings_are_sorted(state.projects);
    law_best_hits_come_first(hits);
    lemma_project_hits(query, order);
    lemma_window_hits(query, list);
    assert forall|h: HitView| #[trigger] found.contains(h) <==> first.contains(h)
        || second.contains(h) by {
        assert(found.contains(h) <==> hits.contains(h)) by {
            assert(found.to_multiset().count(h) == hits.to_multiset().count(h));
        }
        if hits.contains(h) {
            let k = choose|k: int| 0 <= k < hits.len() && hits[k] == h;
            if k < first.len() {
                assert(first[k] == h);
            } else {
                assert(second[k - first.len()] == h);
            }
        }
        if first.contains(h) {
            let k = choose|k: int| 0 <= k < first.len() && first[k] == h;
            assert(hits[k] == h);
        }
        if second.contains(h) {
            let k = choose|k: int| 0 <= k < second.len() && second[k] == h;
            assert(hits[first.len() + k] == h);
        }
    }
    assert forall|p: ProjectView| #[trigger] order.contains(p) <==> state.projects.contains(p) by {
        assert(order.to_multiset().count(p) == state.projects.to_multiset().count(p));
    }
    assert forall|i: int|
        0 <= i < state.projects.len() && (text_score(
            query,
            (#[trigger] state.projects[i]).slug,
        ) is Some || text_score(query, state.projects[i].name) is Some) implies finds_project(
        found,
        query,
        state.projects[i],
    ) by {
        let p = state.projects[i];
        assert(state.projects.contains(p));
        assert(order.contains(p));
        let n = choose|n: int| 0 <= n < order.len() && order[n] == p;
        let h = project_hit(query, order[n])->0;
        assert(first.contains(h));
        assert(found.contains(h));
        let k = choose|k: int| 0 <= k < found.len() && found[k] == h;
        assert(tells_of_project(found[k], query, p));
    }
    lemma_filed_by_address(list);
    assert forall|a: Seq<char>| #[trigger]
        state.world.windows.dom().contains(a) && (text_score(
            query,
            state.world.windows[a].facts.title,
        ) is Some || text_score(
            query,
            state.world.windows[a].facts.class,
        ) is Some) implies finds_window(found, query, state.world.windows[a]) by {
        let w = state.world.windows[a];
        lemma_filed(list, w);
        let n = choose|n: int| 0 <= n < list.len() && list[n] == w;
        let h = window_hit(query, list[n])->0;
        assert(second.contains(h));
        assert(found.contains(h));
        let k = choose|k: int| 0 <= k < found.len() && found[k] == h;
        assert(tells_of_window(found[k], query, w));
    }
    assert forall|k: int| 0 <= k < found.len() implies is_found(
        state,
        query,
        #[trigger] found[k],
    ) by {
        let h = found[k];
        assert(found.contains(h));
        if first.contains(h) {
            let n = choose|n: int|
                0 <= n < order.len() && project_hit(query, #[trigger] order[n]) == Some(h);
            assert(order.contains(order[n]));
            let i = choose|i: int| 0 <= i < state.projects.len() && state.projects[i] == order[n];
            assert(tells_of_project(h, query, state.projects[i]));
        } else {
            let n = choose|n: int|
                0 <= n < list.len() && window_hit(query, #[trigger] list[n]) == Some(h);
            assert(list.contains(list[n]));
            lemma_filed(list, list[n]);
            let a = list[n].address;
            assert(state.world.windows.dom().contains(a) && tells_of_window(
                h,
                query,
                state.world.windows[a],
            ));
        }
    }
}

/// Whether some hit tells of a project.
pub open spec fn finds_project(hits: Seq<HitView>, query: Seq<char>, project: ProjectView) -> bool {
    exists|k: int| 0 <= k < hits.len() && tells_of_project(#[trigger] hits[k], query, project)
}

/// Whether some hit tells of a window.
pub open spec fn finds_window(
    hits: Seq<HitView>,
    query: Seq<char>,
    window: TrackedWindowView,
) -> bool {
    exists|k: int| 0 <= k < hits.len() && tells_of_window(#[trigger] hits[k], query, window)
}

/// Whether a hit tells of some project or window.
pub open spec fn is_found(state: StateView, query: Seq<char>, hit: HitView) -> bool {
    ||| exists|i: int|
        0 <= i < state.projects.len() && tells_of_project(
            hit,
            query,
            #[trigger] state.projects[i],
        )
    ||| exists|a: Seq<char>| #[trigger]
        state.world.windows.dom().contains(a) && tells_of_window(
            hit,
            query,
            state.world.windows[a],
        )
}

} // verus!
