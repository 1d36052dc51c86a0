//! Fuzzy resolution of user queries to projects.
//!
//! Resolution policy (destructive operations use exact matching only):
//! 1. exact slug match wins outright;
//! 2. a unique slug prefix wins;
//! 3. otherwise fuzzy-match against slug and display name (nucleo); the best
//!    score wins only when it is decisive (clearly ahead of the runner-up).
//!
//! Anything else is ambiguous and reported with candidates rather than
//! guessed.

use vstd::prelude::*;

use crate::domain::model::Project;
use crate::domain::model::ProjectView;
use crate::outside::score;
use crate::outside::{folds_on, fuzzy_score, is_ascii_text, scorable};
use crate::text::{chars, same, starts_with};
use crate::text::begins;

verus! {

/// Outcome of resolving a query against the project list.
#[derive(Debug, PartialEq)]
pub enum Resolution<'a> {
    /// One project clearly matches.
    Match(&'a Project),
    /// Several plausible candidates; slugs listed best-first.
    Ambiguous(Vec<&'a Project>),
    /// Nothing matches at all.
    NotFound,
}

/// What a [`Resolution`] holds.
#[verifier::ext_equal]
pub enum ResolutionView {
    /// See [`Resolution::Match`].
    Match(ProjectView),
    /// See [`Resolution::Ambiguous`].
    Ambiguous(Seq<ProjectView>),
    /// See [`Resolution::NotFound`].
    NotFound,
}

/// The projects behind a list of references.
pub open spec fn project_views(projects: Seq<&Project>) -> Seq<ProjectView> {
    Seq::new(projects.len(), |i: int| projects[i]@)
}

impl<'a> View for Resolution<'a> {
    type V = ResolutionView;

    open spec fn view(&self) -> ResolutionView {
        match self {
            Resolution::Match(project) => ResolutionView::Match(project@),
            Resolution::Ambiguous(projects) => ResolutionView::Ambiguous(
                project_views(projects@),
            ),
            Resolution::NotFound => ResolutionView::NotFound,
        }
    }
}

// ---- the policy -------------------------------------------------------------------

/// The first project whose slug is the query.
pub open spec fn exact(query: Seq<char>, projects: Seq<ProjectView>) -> Option<ProjectView>
    decreases projects.len(),
{
    if projects.len() == 0 {
        None
    } else if projects[0].slug == query {
        Some(projects[0])
    } else {
        exact(query, projects.skip(1))
    }
}

/// The projects whose slug begins with the query.
pub open spec fn prefixed(query: Seq<char>, projects: Seq<ProjectView>) -> Seq<ProjectView>
    decreases projects.len(),
{
    if projects.len() == 0 {
        seq![]
    } else {
        let before = prefixed(query, projects.drop_last());
        if begins(projects.last().slug, query) {
            before.push(projects.last())
        } else {
            before
        }
    }
}

/// A project put into a ranking after those that score no less.
pub open spec fn placed(
    ranking: Seq<(u32, ProjectView)>,
    item: (u32, ProjectView),
) -> Seq<(u32, ProjectView)>
    decreases ranking.len(),
{
    if ranking.len() > 0 && ranking.last().0 < item.0 {
        placed(ranking.drop_last(), item).push(ranking.last())
    } else {
        ranking.push(item)
    }
}

/// The projects that have a score, best first; equal scores keep their order.
pub open spec fn ranked(projects: Seq<ProjectView>, scores: Seq<Option<u32>>) -> Seq<
    (u32, ProjectView),
>
    decreases projects.len(),
{
    if projects.len() == 0 {
        seq![]
    } else {
        let before = ranked(projects.drop_last(), scores);
        match scores[projects.len() - 1] {
            Some(score) => placed(before, (score, projects.last())),
            None => before,
        }
    }
}

/// The projects of a ranking.
pub open spec fn ranked_projects(ranking: Seq<(u32, ProjectView)>) -> Seq<ProjectView> {
    Seq::new(ranking.len(), |i: int| ranking[i].1)
}

/// Whether the best score is clearly ahead: more than the runner-up, and at
/// least one and a half times as much.
pub open spec fn is_decisive(best: u32, second: u32) -> bool {
    best > second && 2 * best >= 3 * second
}

/// What a ranking decides.
pub open spec fn decision(ranking: Seq<(u32, ProjectView)>) -> ResolutionView {
    if ranking.len() == 0 {
        ResolutionView::NotFound
    } else if ranking.len() == 1 || is_decisive(ranking[0].0, ranking[1].0) {
        ResolutionView::Match(ranking[0].1)
    } else {
        ResolutionView::Ambiguous(ranked_projects(ranking))
    }
}

/// What a query means, given the projects' fuzzy scores.
pub open spec fn resolution(
    query: Seq<char>,
    projects: Seq<ProjectView>,
    scores: Seq<Option<u32>>,
) -> ResolutionView {
    match exact(query, projects) {
        Some(project) => ResolutionView::Match(project),
        None => {
            let candidates = prefixed(query, projects);
            if candidates.len() == 1 {
                ResolutionView::Match(candidates[0])
            } else if candidates.len() > 1 {
                ResolutionView::Ambiguous(candidates)
            } else {
                decision(ranked(projects, scores))
            }
        },
    }
}

/// The better of two scores.
pub open spec fn better(a: Option<u32>, b: Option<u32>) -> Option<u32> {
    match (a, b) {
        (Some(x), Some(y)) => Some(
            if x >= y {
                x
            } else {
                y
            },
        ),
        (Some(x), None) => Some(x),
        (None, y) => y,
    }
}

/// The fuzzy score of a project: that of its slug or its name, whichever is
/// better.
pub open spec fn project_score(query: Seq<char>, project: ProjectView) -> Option<u32> {
    better(fuzzy_score(query, project.slug), fuzzy_score(query, project.name))
}

/// The fuzzy scores of the projects.
pub open spec fn project_scores(query: Seq<char>, projects: Seq<ProjectView>) -> Seq<
    Option<u32>,
> {
    Seq::new(projects.len(), |i: int| project_score(query, projects[i]))
}

/// Whether a query can be scored against all projects.
pub open spec fn is_searchable(query: Seq<char>, projects: Seq<ProjectView>) -> bool {
    forall|i: int|
        0 <= i < projects.len() ==> scorable(query, (#[trigger] projects[i]).slug) && scorable(
            query,
            projects[i].name,
        )
}

/// Whether a query is decided by slugs alone, without scores.
pub open spec fn is_settled(query: Seq<char>, projects: Seq<ProjectView>) -> bool {
    exact(query, projects) is Some || prefixed(query, projects).len() > 0
}

/// Whether a query can be resolved: slugs decide it, or it can be scored.
pub open spec fn is_resolvable(query: Seq<char>, projects: Seq<ProjectView>) -> bool {
    is_settled(query, projects) || is_searchable(query, projects)
}

// ---- the resolver -----------------------------------------------------------------

fn find_exact<'a>(query: &str, projects: &'a [Project]) -> (r: Option<&'a Project>)
    ensures
        r matches Some(p) ==> exact(query@, projects.deep_view()) == Some(p@),
        r is None ==> exact(query@, projects.deep_view()) is None,
{
    let ghost views = projects.deep_view();
    let mut i: usize = 0;
    proof {
        assert(views.skip(0) =~= views);
    }
    while i < projects.len()
        invariant
            i <= projects.len(),
            views == projects.deep_view(),
            exact(query@, views) == exact(query@, views.skip(i as int)),
        decreases projects.len() - i,
    {
        proof {
            assert(views.skip(i as int)[0] == projects@[i as int]@);
            assert(views.skip(i as int).skip(1) =~= views.skip(i + 1));
        }
        if same(projects[i].slug.as_str(), query) {
            return Some(&projects[i]);
        }
        i = i + 1;
    }
    None
}

fn find_prefixed<'a>(query: &str, projects: &'a [Project]) -> (r: Vec<&'a Project>)
    ensures
        project_views(r@) == prefixed(query@, projects.deep_view()),
{
    let ghost views = projects.deep_view();
    let mut out: Vec<&Project> = Vec::new();
    let mut i: usize = 0;
    proof {
        assert(views.take(0) =~= seq![]);
        assert(project_views(out@) =~= seq![]);
    }
    while i < projects.len()
        invariant
            i <= projects.len(),
            views == projects.deep_view(),
            project_views(out@) == prefixed(query@, views.take(i as int)),
        decreases projects.len() - i,
    {
        proof {
            assert(views.take(i + 1).drop_last() =~= views.take(i as int));
            assert(views[i as int] == projects@[i as int]@);
        }
        if starts_with(projects[i].slug.as_str(), query) {
            let ghost before = project_views(out@);
            out.push(&projects[i]);
            proof {
                assert(project_views(out@) =~= before.push(projects@[i as int]@));
            }
        }
        i = i + 1;
    }
    proof {
        assert(views.take(i as int) =~= views);
    }
    out
}

/// A ranking of references as one of projects.
spec fn ranking_view(ranking: Seq<(u32, &Project)>) -> Seq<(u32, ProjectView)> {
    Seq::new(ranking.len(), |i: int| (ranking[i].0, ranking[i].1@))
}

/// Putting an item before the tail that scores less.
proof fn lemma_placed(ranking: Seq<(u32, ProjectView)>, item: (u32, ProjectView), at: int)
    requires
        0 <= at <= ranking.len(),
        forall|i: int| at <= i < ranking.len() ==> (#[trigger] ranking[i]).0 < item.0,
        at > 0 ==> ranking[at - 1].0 >= item.0,
    ensures
        placed(ranking, item) == ranking.insert(at, item),
    decreases ranking.len(),
{
    if at < ranking.len() {
        let front = ranking.drop_last();
        lemma_placed(front, item, at);
        assert(ranking.insert(at, item) =~= front.insert(at, item).push(ranking.last()));
    } else {
        assert(ranking.insert(at, item) =~= ranking.push(item));
    }
}

fn place<'a>(ranking: &mut Vec<(u32, &'a Project)>, score: u32, project: &'a Project)
    ensures
        ranking_view(final(ranking)@) == placed(ranking_view(old(ranking)@), (score, project@)),
{
    let ghost before = ranking_view(ranking@);
    let mut at: usize = ranking.len();
    while at > 0 && ranking[at - 1].0 < score
        invariant
            at <= ranking.len(),
            before == ranking_view(ranking@),
            forall|i: int| at <= i < before.len() ==> (#[trigger] before[i]).0 < score,
        decreases at,
    {
        assert(before[at - 1].0 == ranking@[at - 1].0);
        at = at - 1;
    }
    proof {
        if at > 0 {
            assert(before[at - 1].0 == ranking@[at - 1].0);
        }
        lemma_placed(before, (score, project@), at as int);
    }
    ranking.insert(at, (score, project));
    proof {
        assert(ranking_view(ranking@) =~= before.insert(at as int, (score, project@)));
    }
}

/// What slugs alone decide.
fn settle<'a>(query: &str, projects: &'a [Project]) -> (r: Option<Resolution<'a>>)
    ensures
        r is Some <==> is_settled(query@, projects.deep_view()),
        r matches Some(settled) ==> forall|scores: Seq<Option<u32>>|
            settled@ == #[trigger] resolution(query@, projects.deep_view(), scores),
{
    if let Some(project) = find_exact(query, projects) {
        return Some(Resolution::Match(project));
    }
    let prefixed = find_prefixed(query, projects);
    if prefixed.len() == 1 {
        assert(project_views(prefixed@)[0] == prefixed@[0]@);
        return Some(Resolution::Match(prefixed[0]));
    }
    if prefixed.len() > 1 {
        return Some(Resolution::Ambiguous(prefixed));
    }
    None
}

/// Resolve `query` to a project, given each project's fuzzy score. See the
/// module docs for the policy.
pub fn resolve_scored<'a>(
    query: &str,
    projects: &'a [Project],
    scores: &Vec<Option<u32>>,
) -> (r: Resolution<'a>)
    requires
        scores.len() == projects.len(),
    ensures
        r@ == resolution(query@, projects.deep_view(), scores@),
{
    if let Some(resolution) = settle(query, projects) {
        return resolution;
    }
    let ghost views = projects.deep_view();
    let mut ranking: Vec<(u32, &Project)> = Vec::new();
    let mut i: usize = 0;
    proof {
        assert(views.take(0) =~= seq![]);
        assert(ranking_view(ranking@) =~= seq![]);
    }
    while i < projects.len()
        invariant
            i <= projects.len(),
            scores.len() == projects.len(),
            views == projects.deep_view(),
            ranking_view(ranking@) == ranked(views.take(i as int), scores@),
        decreases projects.len() - i,
    {
        proof {
            assert(views.take(i + 1).drop_last() =~= views.take(i as int));
            assert(views[i as int] == projects@[i as int]@);
        }
        if let Some(score) = scores[i] {
            place(&mut ranking, score, &projects[i]);
        }
        i = i + 1;
    }
    let ghost ranks = ranking_view(ranking@);
    proof {
        assert(views.take(i as int) =~= views);
    }
    if ranking.len() == 0 {
        return Resolution::NotFound;
    }
    assert(ranks[0] == (ranking@[0].0, ranking@[0].1@));
    if ranking.len() == 1 {
        return Resolution::Match(ranking[0].1);
    }
    assert(ranks[1] == (ranking@[1].0, ranking@[1].1@));
    let best: u32 = ranking[0].0;
    let second: u32 = ranking[1].0;
    if best > second && 2 * (best as u64) >= 3 * (second as u64) {
        return Resolution::Match(ranking[0].1);
    }
    let mut candidates: Vec<&Project> = Vec::new();
    let mut k: usize = 0;
    while k < ranking.len()
        invariant
            k <= ranking.len(),
            ranks == ranking_view(ranking@),
            candidates.len() == k,
            forall|j: int| 0 <= j < k ==> (#[trigger] candidates@[j])@ == ranks[j].1,
        decreases ranking.len() - k,
    {
        assert(ranks[k as int].1 == ranking@[k as int].1@);
        candidates.push(ranking[k].1);
        k = k + 1;
    }
    proof {
        assert(project_views(candidates@) =~= ranked_projects(ranks));
    }
    Resolution::Ambiguous(candidates)
}

fn is_ascii(s: &str) -> (r: bool)
    ensures
        r == is_ascii_text(s@),
{
    let v = chars(s);
    let mut i: usize = 0;
    while i < v.len()
        invariant
            i <= v.len(),
            v@ == s@,
            forall|k: int| 0 <= k < i ==> (#[trigger] s@[k]) as u32 <= 0x7f,
        decreases v.len() - i,
    {
        if v[i] as u32 > 0x7f {
            return false;
        }
        i = i + 1;
    }
    true
}

fn letter_folds_on(c: char) -> (r: bool)
    ensures
        r == folds_on(c),
{
    let n: u32 = c as u32;
    n == 0xb5 || n == 0x17f || n == 0x345 || n == 0x3c2 || (0x3d0 <= n && n <= 0x3d1) || (0x3d5
        <= n && n <= 0x3d6) || (0x3f0 <= n && n <= 0x3f1) || n == 0x3f5 || (0x13f8 <= n && n
        <= 0x13fd) || (0x1c80 <= n && n <= 0x1c88) || n == 0x1e9b || n == 0x1fbe || (0xab70 <= n
        && n <= 0xabbf)
}

fn can_score(query: &str, text: &str) -> (r: bool)
    ensures
        r == scorable(query@, text@),
{
    let length: usize = chars(query).len();
    let v = chars(text);
    if length > 65_536 || v.len() as u64 > 0x3fff_ffff || (length > 1000 && v.len() > 1000) {
        return false;
    }
    if is_ascii(query) {
        return true;
    }
    let mut i: usize = 0;
    while i < v.len()
        invariant
            i <= v.len(),
            v@ == text@,
            !is_ascii_text(query@),
            forall|k: int| 0 <= k < i ==> !folds_on(#[trigger] text@[k]),
        decreases v.len() - i,
    {
        if letter_folds_on(v[i]) {
            return false;
        }
        i = i + 1;
    }
    true
}

/// The fuzzy score of a text; a text that cannot be scored has none.
pub open spec fn text_score(query: Seq<char>, text: Seq<char>) -> Option<u32> {
    if scorable(query, text) {
        fuzzy_score(query, text)
    } else {
        None
    }
}

/// How well a text fits a query, if it does.
pub fn fitting(query: &str, text: &str) -> (r: Option<u32>)
    ensures
        r == text_score(query@, text@),
{
    if can_score(query, text) {
        score(query, text)
    } else {
        None
    }
}

/// The better of two scores.
pub fn better_of(a: Option<u32>, b: Option<u32>) -> (r: Option<u32>)
    ensures
        r == better(a, b),
{
    match (a, b) {
        (Some(x), Some(y)) => if x >= y {
            Some(x)
        } else {
            Some(y)
        },
        (Some(x), None) => Some(x),
        (None, y) => y,
    }
}

/// Whether a query can be scored against all projects.
pub fn searchable(query: &str, projects: &[Project]) -> (r: bool)
    ensures
        r == is_searchable(query@, projects.deep_view()),
{
    let ghost views = projects.deep_view();
    let mut i: usize = 0;
    while i < projects.len()
        invariant
            i <= projects.len(),
            views == projects.deep_view(),
            forall|j: int|
                0 <= j < i ==> scorable(query@, (#[trigger] views[j]).slug) && scorable(
                    query@,
                    views[j].name,
                ),
        decreases projects.len() - i,
    {
        assert(views[i as int] == projects@[i as int]@);
        if !can_score(query, projects[i].slug.as_str()) || !can_score(
            query,
            projects[i].name.as_str(),
        ) {
            return false;
        }
        i = i + 1;
    }
    true
}

/// Whether a query can be resolved.
pub fn resolvable(query: &str, projects: &[Project]) -> (r: bool)
    ensures
        r == is_resolvable(query@, projects.deep_view()),
{
    settle(query, projects).is_some() || searchable(query, projects)
}

/// Resolve `query` to a project. See the module docs for the policy.
pub fn resolve<'a>(query: &str, projects: &'a [Project]) -> (r: Resolution<'a>)
    requires
        is_resolvable(query@, projects.deep_view()),
    ensures
        r@ == resolution(
            query@,
            projects.deep_view(),
            project_scores(query@, projects.deep_view()),
        ),
{
    if let Some(resolution) = settle(query, projects) {
        return resolution;
    }
    let ghost views = projects.deep_view();
    let mut scores: Vec<Option<u32>> = Vec::new();
    let mut i: usize = 0;
    while i < projects.len()
        invariant
            i <= projects.len(),
            views == projects.deep_view(),
            is_searchable(query@, views),
            scores.len() == i,
            forall|j: int|
                0 <= j < i ==> #[trigger] scores@[j] == project_score(query@, views[j]),
        decreases projects.len() - i,
    {
        assert(views[i as int] == projects@[i as int]@);
        let slug_score = score(query, projects[i].slug.as_str());
        let name_score = score(query, projects[i].name.as_str());
        scores.push(
            match (slug_score, name_score) {
                (Some(x), Some(y)) => Some(
                    if x >= y {
                        x
                    } else {
                        y
                    },
                ),
                (Some(x), None) => Some(x),
                (None, y) => y,
            },
        );
        i = i + 1;
    }
    proof {
        assert(scores@ =~= project_scores(query@, views));
    }
    resolve_scored(query, projects, &scores)
}

// ---- laws -----------------------------------------------------------------------

/// A query that is a project's slug resolves to a project with that slug,
/// whatever the scores.
pub proof fn law_exact_slug_wins(
    query: Seq<char>,
    projects: Seq<ProjectView>,
    scores: Seq<Option<u32>>,
    i: int,
)
    requires
        0 <= i < projects.len(),
        projects[i].slug == query,
    ensures
        resolution(query, projects, scores) matches ResolutionView::Match(p) && p.slug == query,
{
    lemma_exact(query, projects, i);
}

proof fn lemma_exact(query: Seq<char>, projects: Seq<ProjectView>, i: int)
    requires
        0 <= i < projects.len(),
        projects[i].slug == query,
    ensures
        exact(query, projects) matches Some(p) && p.slug == query,
    decreases projects.len(),
{
    if projects[0].slug != query {
        assert(projects.skip(1)[i - 1] == projects[i]);
        lemma_exact(query, projects.skip(1), i - 1);
    }
}

proof fn lemma_prefixed(query: Seq<char>, projects: Seq<ProjectView>, i: int)
    requires
        0 <= i < projects.len(),
        begins(projects[i].slug, query),
    ensures
        prefixed(query, projects).contains(projects[i]),
    decreases projects.len(),
{
    let front = projects.drop_last();
    let before = prefixed(query, front);
    let all = prefixed(query, projects);
    if i < front.len() {
        lemma_prefixed(query, front, i);
        assert(front[i] == projects[i]);
        let k = choose|k: int| 0 <= k < before.len() && before[k] == projects[i];
        assert(all[k] == projects[i]);
    } else {
        assert(all[before.len() as int] == projects[i]);
    }
}

/// With no exact match, a query that begins exactly one slug resolves to that
/// project, whatever the scores.
pub proof fn law_unique_prefix_wins(
    query: Seq<char>,
    projects: Seq<ProjectView>,
    scores: Seq<Option<u32>>,
    i: int,
)
    requires
        exact(query, projects) is None,
        0 <= i < projects.len(),
        begins(projects[i].slug, query),
        prefixed(query, projects).len() == 1,
    ensures
        resolution(query, projects, scores) == ResolutionView::Match(projects[i]),
{
    lemma_prefixed(query, projects, i);
}

proof fn lemma_placed_sorted(ranking: Seq<(u32, ProjectView)>, item: (u32, ProjectView))
    requires
        is_ranking(ranking),
    ensures
        is_ranking(placed(ranking, item)),
        placed(ranking, item).len() == ranking.len() + 1,
        forall|x: (u32, ProjectView)| #[trigger]
            placed(ranking, item).contains(x) ==> x == item || ranking.contains(x),
    decreases ranking.len(),
{
    let all = placed(ranking, item);
    if ranking.len() > 0 && ranking.last().0 < item.0 {
        let front = ranking.drop_last();
        lemma_placed_sorted(front, item);
        let inner = placed(front, item);
        assert forall|i: int, j: int| 0 <= i <= j < all.len() implies (#[trigger] all[i]).0 >= (
        #[trigger] all[j]).0 by {
            if j == inner.len() && i < inner.len() {
                assert(inner.contains(inner[i]));
                if inner[i] != item {
                    let k = choose|k: int| 0 <= k < front.len() && front[k] == inner[i];
                    assert(ranking[k].0 >= ranking[ranking.len() - 1].0);
                }
            }
        }
        assert forall|x: (u32, ProjectView)| #[trigger] all.contains(x) implies x == item
            || ranking.contains(x) by {
            let k = choose|k: int| 0 <= k < all.len() && all[k] == x;
            if k < inner.len() {
                assert(inner.contains(x));
                if x != item {
                    let m = choose|m: int| 0 <= m < front.len() && front[m] == x;
                    assert(ranking[m] == x);
                }
            } else {
                assert(ranking[ranking.len() - 1] == x);
            }
        }
    } else {
        assert forall|i: int, j: int| 0 <= i <= j < all.len() implies (#[trigger] all[i]).0 >= (
        #[trigger] all[j]).0 by {
            if j == ranking.len() && i < ranking.len() {
                assert(ranking[i].0 >= ranking[ranking.len() - 1].0);
            }
        }
        assert forall|x: (u32, ProjectView)| #[trigger] all.contains(x) implies x == item
            || ranking.contains(x) by {
            let k = choose|k: int| 0 <= k < all.len() && all[k] == x;
            if k < ranking.len() {
                assert(ranking[k] == x);
            }
        }
    }
}

/// Scores never rise along a ranking.
pub open spec fn is_ranking(ranking: Seq<(u32, ProjectView)>) -> bool {
    forall|i: int, j: int|
        0 <= i <= j < ranking.len() ==> (#[trigger] ranking[i]).0 >= (#[trigger] ranking[j]).0
}

/// Candidates are listed best first.
pub proof fn law_candidates_are_best_first(
    projects: Seq<ProjectView>,
    scores: Seq<Option<u32>>,
)
    ensures
        is_ranking(ranked(projects, scores)),
        ranked(projects, scores).len() <= projects.len(),
    decreases projects.len(),
{
    if projects.len() > 0 {
        law_candidates_are_best_first(projects.drop_last(), scores);
        if let Some(score) = scores[projects.len() - 1] {
            lemma_placed_sorted(
                ranked(projects.drop_last(), scores),
                (score, projects.last()),
            );
        }
    }
}

proof fn lemma_exact_member(query: Seq<char>, projects: Seq<ProjectView>)
    ensures
        exact(query, projects) matches Some(p) ==> projects.contains(p),
    decreases projects.len(),
{
    if projects.len() > 0 && projects[0].slug != query {
        lemma_exact_member(query, projects.skip(1));
        if let Some(p) = exact(query, projects) {
            let k = choose|k: int| 0 <= k < projects.skip(1).len() && projects.skip(1)[k] == p;
            assert(projects[k + 1] == p);
        }
    }
}

proof fn lemma_prefixed_members(query: Seq<char>, projects: Seq<ProjectView>)
    ensures
        forall|i: int|
            0 <= i < prefixed(query, projects).len() ==> projects.contains(
                #[trigger] prefixed(query, projects)[i],
            ),
    decreases projects.len(),
{
    if projects.len() > 0 {
        let front = projects.drop_last();
        lemma_prefixed_members(query, front);
        let all = prefixed(query, projects);
        assert forall|i: int| 0 <= i < all.len() implies projects.contains(#[trigger] all[i]) by {
            if i < prefixed(query, front).len() {
                let p = prefixed(query, front)[i];
                let k = choose|k: int| 0 <= k < front.len() && front[k] == p;
                assert(projects[k] == p);
            } else {
                assert(projects[projects.len() - 1] == all[i]);
            }
        }
    }
}

proof fn lemma_ranked_members(projects: Seq<ProjectView>, scores: Seq<Option<u32>>)
    ensures
        forall|x: (u32, ProjectView)| #[trigger]
            ranked(projects, scores).contains(x) ==> projects.contains(x.1),
    decreases projects.len(),
{
    if projects.len() > 0 {
        let front = projects.drop_last();
        lemma_ranked_members(front, scores);
        law_candidates_are_best_first(front, scores);
        let all = ranked(projects, scores);
        if let Some(score) = scores[projects.len() - 1] {
            lemma_placed_sorted(ranked(front, scores), (score, projects.last()));
        }
        assert forall|x: (u32, ProjectView)| #[trigger] all.contains(x) implies projects.contains(
            x.1,
        ) by {
            if ranked(front, scores).contains(x) {
                let k = choose|k: int| 0 <= k < front.len() && front[k] == x.1;
                assert(projects[k] == x.1);
            } else {
                assert(projects[projects.len() - 1] == x.1);
            }
        }
    }
}

/// Whatever a query resolves to is one of the projects, and so is every
/// candidate.
pub proof fn law_resolutions_are_projects(
    query: Seq<char>,
    projects: Seq<ProjectView>,
    scores: Seq<Option<u32>>,
)
    ensures
        resolution(query, projects, scores) matches ResolutionView::Match(p) ==> projects.contains(
            p,
        ),
        resolution(query, projects, scores) matches ResolutionView::Ambiguous(candidates)
            ==> forall|i: int|
            0 <= i < candidates.len() ==> projects.contains(#[trigger] candidates[i]),
{
    lemma_exact_member(query, projects);
    lemma_prefixed_members(query, projects);
    lemma_ranked_members(projects, scores);
    let ranking = ranked(projects, scores);
    if exact(query, projects) is None && prefixed(query, projects).len() == 0 {
        if ranking.len() > 0 {
            assert(ranking.contains(ranking[0]));
        }
        assert forall|i: int| 0 <= i < ranked_projects(ranking).len() implies projects.contains(
            #[trigger] ranked_projects(ranking)[i],
        ) by {
            assert(ranking.contains(ranking[i]));
        }
    }
}

/// Without projects nothing is found.
pub proof fn law_nothing_in_nothing(query: Seq<char>, scores: Seq<Option<u32>>)
    ensures
        resolution(query, seq![], scores) == ResolutionView::NotFound,
{
}

/// Nothing is guessed: where scores decide and the two best are equal, the
/// candidates are reported.
pub proof fn law_ties_are_not_guessed(ranking: Seq<(u32, ProjectView)>)
    requires
        ranking.len() > 1,
        ranking[0].0 == ranking[1].0,
    ensures
        decision(ranking) == ResolutionView::Ambiguous(ranked_projects(ranking)),
{
}

proof fn lemma_exact_none(query: Seq<char>, projects: Seq<ProjectView>)
    requires
        forall|i: int| 0 <= i < projects.len() ==> (#[trigger] projects[i]).slug != query,
    ensures
        exact(query, projects) is None,
    decreases projects.len(),
{
    if projects.len() > 0 {
        let rest = projects.skip(1);
        assert forall|i: int| 0 <= i < rest.len() implies (#[trigger] rest[i]).slug != query by {
            assert(projects[i + 1].slug != query);
        }
        assert(projects[0].slug != query);
        lemma_exact_none(query, rest);
    }
}

proof fn lemma_prefixed_begin(query: Seq<char>, projects: Seq<ProjectView>)
    ensures
        forall|k: int|
            0 <= k < prefixed(query, projects).len() ==> begins(
                (#[trigger] prefixed(query, projects)[k]).slug,
                query,
            ),
    decreases projects.len(),
{
    if projects.len() > 0 {
        lemma_prefixed_begin(query, projects.drop_last());
    }
}

proof fn lemma_two_prefixed(query: Seq<char>, projects: Seq<ProjectView>, i: int, j: int)
    requires
        0 <= i < j < projects.len(),
        begins(projects[i].slug, query),
        begins(projects[j].slug, query),
    ensures
        prefixed(query, projects).len() > 1,
    decreases projects.len(),
{
    let front = projects.drop_last();
    if j < front.len() {
        lemma_two_prefixed(query, front, i, j);
    } else {
        lemma_prefixed(query, front, i);
    }
}

/// The first project whose slug is the query is meant, whatever else fits.
pub proof fn law_first_exact_slug_is_meant(
    query: Seq<char>,
    projects: Seq<ProjectView>,
    scores: Seq<Option<u32>>,
    i: int,
)
    requires
        0 <= i < projects.len(),
        projects[i].slug == query,
        forall|j: int| 0 <= j < i ==> (#[trigger] projects[j]).slug != query,
    ensures
        resolution(query, projects, scores) == ResolutionView::Match(projects[i]),
{
    lemma_first_exact(query, projects, i);
}

proof fn lemma_first_exact(query: Seq<char>, projects: Seq<ProjectView>, i: int)
    requires
        0 <= i < projects.len(),
        projects[i].slug == query,
        forall|j: int| 0 <= j < i ==> (#[trigger] projects[j]).slug != query,
    ensures
        exact(query, projects) == Some(projects[i]),
    decreases projects.len(),
{
    if i > 0 {
        let rest = projects.skip(1);
        assert(projects[0].slug != query);
        assert forall|j: int| 0 <= j < i - 1 implies (#[trigger] rest[j]).slug != query by {
            assert(projects[j + 1].slug != query);
        }
        assert(rest[i - 1] == projects[i]);
        lemma_first_exact(query, rest, i - 1);
    }
}

/// A query that is no slug but begins several is ambiguous between exactly
/// those projects; one that begins a single slug means that project.
pub proof fn law_prefixes_come_before_scores(
    query: Seq<char>,
    projects: Seq<ProjectView>,
    scores: Seq<Option<u32>>,
    i: int,
)
    requires
        forall|j: int| 0 <= j < projects.len() ==> (#[trigger] projects[j]).slug != query,
        0 <= i < projects.len(),
        begins(projects[i].slug, query),
    ensures
        (forall|j: int|
            0 <= j < projects.len() && j != i ==> !begins((#[trigger] projects[j]).slug, query))
            ==> resolution(query, projects, scores) == ResolutionView::Match(projects[i]),
        (exists|j: int|
            0 <= j < projects.len() && j != i && begins((#[trigger] projects[j]).slug, query))
            ==> (resolution(query, projects, scores) matches ResolutionView::Ambiguous(candidates)
            && forall|p: ProjectView| #[trigger]
            candidates.contains(p) <==> projects.contains(p) && begins(p.slug, query)),
{
    lemma_exact_none(query, projects);
    lemma_prefixed(query, projects, i);
    lemma_prefixed_members(query, projects);
    lemma_prefixed_begin(query, projects);
    let candidates = prefixed(query, projects);
    if exists|j: int|
        0 <= j < projects.len() && j != i && begins((#[trigger] projects[j]).slug, query) {
        let j = choose|j: int|
            0 <= j < projects.len() && j != i && begins((#[trigger] projects[j]).slug, query);
        if i < j {
            lemma_two_prefixed(query, projects, i, j);
        } else {
            lemma_two_prefixed(query, projects, j, i);
        }
        assert forall|p: ProjectView| #[trigger] candidates.contains(p) <==> projects.contains(p)
            && begins(p.slug, query) by {
            if candidates.contains(p) {
                let k = choose|k: int| 0 <= k < candidates.len() && candidates[k] == p;
                assert(projects.contains(candidates[k]));
            }
            if projects.contains(p) && begins(p.slug, query) {
                let k = choose|k: int| 0 <= k < projects.len() && projects[k] == p;
                lemma_prefixed(query, projects, k);
            }
        }
    } else {
        lemma_single_prefixed(query, projects, i);
    }
}

proof fn lemma_single_prefixed(query: Seq<char>, projects: Seq<ProjectView>, i: int)
    requires
        0 <= i < projects.len(),
        begins(projects[i].slug, query),
        forall|j: int|
            0 <= j < projects.len() && j != i ==> !begins((#[trigger] projects[j]).slug, query),
    ensures
        prefixed(query, projects) == seq![projects[i]],
    decreases projects.len(),
{
    let front = projects.drop_last();
    let end = projects.len() - 1;
    if i < end {
        assert(!begins(projects[end].slug, query));
        assert forall|j: int| 0 <= j < front.len() && j != i implies !begins(
            (#[trigger] front[j]).slug,
            query,
        ) by {
            assert(!begins(projects[j].slug, query));
        }
        lemma_single_prefixed(query, front, i);
    } else {
        assert forall|j: int| 0 <= j < front.len() implies !begins(
            (#[trigger] front[j]).slug,
            query,
        ) by {
            assert(!begins(projects[j].slug, query));
        }
        lemma_none_prefixed(query, front);
        assert(prefixed(query, projects) =~= seq![projects[i]]);
    }
}

proof fn lemma_none_prefixed(query: Seq<char>, projects: Seq<ProjectView>)
    requires
        forall|j: int|
            0 <= j < projects.len() ==> !begins((#[trigger] projects[j]).slug, query),
    ensures
        prefixed(query, projects).len() == 0,
    decreases projects.len(),
{
    if projects.len() > 0 {
        let front = projects.drop_last();
        assert(!begins(projects[projects.len() - 1].slug, query));
        assert forall|j: int| 0 <= j < front.len() implies !begins(
            (#[trigger] front[j]).slug,
            query,
        ) by {
            assert(!begins(projects[j].slug, query));
        }
        lemma_none_prefixed(query, front);
    }
}

proof fn lemma_placed_somewhere(ranking: Seq<(u32, ProjectView)>, item: (u32, ProjectView))
    ensures
        exists|at: int|
            0 <= at <= ranking.len() && placed(ranking, item) == #[trigger] ranking.insert(at, item),
    decreases ranking.len(),
{
    if ranking.len() > 0 && ranking.last().0 < item.0 {
        let front = ranking.drop_last();
        lemma_placed_somewhere(front, item);
        let at = choose|at: int|
            0 <= at <= front.len() && placed(front, item) == #[trigger] front.insert(at, item);
        assert(ranking.insert(at, item) =~= front.insert(at, item).push(ranking.last()));
    } else {
        assert(ranking.insert(ranking.len() as int, item) =~= ranking.push(item));
    }
}

proof fn lemma_ranked_holds(projects: Seq<ProjectView>, scores: Seq<Option<u32>>, i: int)
    requires
        scores.len() >= projects.len(),
        0 <= i < projects.len(),
        scores[i] is Some,
    ensures
        ranked(projects, scores).contains((scores[i]->0, projects[i])),
    decreases projects.len(),
{
    let front = projects.drop_last();
    let before = ranked(front, scores);
    let all = ranked(projects, scores);
    let want = (scores[i]->0, projects[i]);
    if let Some(score) = scores[projects.len() - 1] {
        let item = (score, projects.last());
        lemma_placed_somewhere(before, item);
        let at = choose|at: int|
            0 <= at <= before.len() && placed(before, item) == #[trigger] before.insert(at, item);
        if i < front.len() {
            lemma_ranked_holds(front, scores, i);
            let k = choose|k: int| 0 <= k < before.len() && before[k] == want;
            assert(all[if k < at {
                k
            } else {
                k + 1
            }] == want);
        } else {
            assert(all[at] == want);
        }
    } else {
        lemma_ranked_holds(front, scores, i);
    }
}

proof fn lemma_ranked_two(projects: Seq<ProjectView>, scores: Seq<Option<u32>>, i: int, j: int)
    requires
        scores.len() >= projects.len(),
        0 <= i < j < projects.len(),
        scores[i] is Some,
        scores[j] is Some,
    ensures
        exists|a: int, b: int|
            0 <= a < ranked(projects, scores).len() && 0 <= b < ranked(projects, scores).len() && a
                != b && #[trigger] ranked(projects, scores)[a] == (scores[i]->0, projects[i])
                && #[trigger] ranked(projects, scores)[b] == (scores[j]->0, projects[j]),
    decreases projects.len(),
{
    let front = projects.drop_last();
    let before = ranked(front, scores);
    let all = ranked(projects, scores);
    let x = (scores[i]->0, projects[i]);
    let y = (scores[j]->0, projects[j]);
    if let Some(score) = scores[projects.len() - 1] {
        let item = (score, projects.last());
        lemma_placed_somewhere(before, item);
        let at = choose|at: int|
            0 <= at <= before.len() && placed(before, item) == #[trigger] before.insert(at, item);
        if j < front.len() {
            lemma_ranked_two(front, scores, i, j);
            let (a, b) = choose|a: int, b: int|
                0 <= a < before.len() && 0 <= b < before.len() && a != b && #[trigger] before[a]
                    == x && #[trigger] before[b] == y;
            let c = if a < at {
                a
            } else {
                a + 1
            };
            let d = if b < at {
                b
            } else {
                b + 1
            };
            assert(all[c] == x && all[d] == y);
        } else {
            lemma_ranked_holds(front, scores, i);
            let a = choose|a: int| 0 <= a < before.len() && before[a] == x;
            let c = if a < at {
                a
            } else {
                a + 1
            };
            assert(all[c] == x && all[at] == y);
        }
    } else {
        lemma_ranked_two(front, scores, i, j);
    }
}

proof fn lemma_ranked_from(projects: Seq<ProjectView>, scores: Seq<Option<u32>>, k: int)
    requires
        scores.len() >= projects.len(),
        0 <= k < ranked(projects, scores).len(),
    ensures
        exists|i: int|
            0 <= i < projects.len() && #[trigger] scores[i] == Some(ranked(projects, scores)[k].0)
                && projects[i] == ranked(projects, scores)[k].1,
    decreases projects.len(),
{
    let front = projects.drop_last();
    let before = ranked(front, scores);
    let all = ranked(projects, scores);
    if let Some(score) = scores[projects.len() - 1] {
        let item = (score, projects.last());
        lemma_placed_somewhere(before, item);
        let at = choose|at: int|
            0 <= at <= before.len() && placed(before, item) == #[trigger] before.insert(at, item);
        if k == at {
            assert(scores[projects.len() - 1] == Some(all[k].0));
        } else {
            let m = if k < at {
                k
            } else {
                k - 1
            };
            assert(all[k] == before[m]);
            lemma_ranked_from(front, scores, m);
            let i = choose|i: int|
                0 <= i < front.len() && #[trigger] scores[i] == Some(before[m].0) && front[i]
                    == before[m].1;
            assert(projects[i] == front[i]);
        }
    } else {
        lemma_ranked_from(front, scores, k);
        let i = choose|i: int|
            0 <= i < front.len() && #[trigger] scores[i] == Some(before[k].0) && front[i]
                == before[k].1;
        assert(projects[i] == front[i]);
    }
}

/// Where no slug begins with the query, the scores decide: a project is meant
/// exactly if it scores more than every other, and at least half as much again;
/// if none does, the query is ambiguous between all that score; and if none
/// scores, nothing is found.
pub proof fn law_clear_winners_are_meant(
    query: Seq<char>,
    projects: Seq<ProjectView>,
    scores: Seq<Option<u32>>,
)
    requires
        scores.len() == projects.len(),
        forall|j: int|
            0 <= j < projects.len() ==> !begins((#[trigger] projects[j]).slug, query),
    ensures
        forall|i: int|
            0 <= i < projects.len() && #[trigger] wins(scores, i) ==> resolution(
                query,
                projects,
                scores,
            ) == ResolutionView::Match(projects[i]),
        (forall|i: int| 0 <= i < scores.len() ==> (#[trigger] scores[i]) is None) ==> resolution(
            query,
            projects,
            scores,
        ) == ResolutionView::NotFound,
        (forall|i: int| 0 <= i < scores.len() ==> !#[trigger] wins(scores, i)) && (exists|i: int|
            0 <= i < scores.len() && (#[trigger] scores[i]) is Some) ==> (resolution(
            query,
            projects,
            scores,
        ) matches ResolutionView::Ambiguous(candidates) && forall|i: int|
            0 <= i < scores.len() && (#[trigger] scores[i]) is Some ==> candidates.contains(
                projects[i],
            )),
{
    assert forall|j: int| 0 <= j < projects.len() implies (#[trigger] projects[j]).slug
        != query by {
        if projects[j].slug == query {
            assert(query.take(query.len() as int) =~= query);
            assert(begins(projects[j].slug, query));
        }
    }
    lemma_exact_none(query, projects);
    lemma_none_prefixed(query, projects);
    let ranking = ranked(projects, scores);
    law_candidates_are_best_first(projects, scores);
    if ranking.len() > 0 {
        lemma_ranked_from(projects, scores, 0);
        let top = choose|i: int|
            0 <= i < projects.len() && #[trigger] scores[i] == Some(ranking[0].0) && projects[i]
                == ranking[0].1;
        let s = ranking[0].0;
        assert forall|j: int| 0 <= j < scores.len() && #[trigger] scores[j] is Some implies scores[
            j]->0 <= s by {
            lemma_ranked_holds(projects, scores, j);
            let k = choose|k: int|
                0 <= k < ranking.len() && ranking[k] == (scores[j]->0, projects[j]);
            assert(ranking[0].0 >= ranking[k].0);
        }
        if wins(scores, top) {
            if ranking.len() > 1 {
                lemma_second_differs(projects, scores, top);
            }
        } else {
            let j = choose|j: int|
                0 <= j < scores.len() && j != top && (#[trigger] scores[j]) is Some && !(
                scores[top]->0 > scores[j]->0 && 2 * scores[top]->0 >= 3 * scores[j]->0);
            let t = scores[j]->0;
            if top < j {
                lemma_ranked_two(projects, scores, top, j);
            } else {
                lemma_ranked_two(projects, scores, j, top);
            }
            let (a, b) = choose|a: int, b: int|
                0 <= a < ranking.len() && 0 <= b < ranking.len() && a != b && (
                #[trigger] ranking[a]).0 >= t && (#[trigger] ranking[b]).0 >= t;
            let c = if a > b {
                a
            } else {
                b
            };
            assert(ranking[1].0 >= ranking[c].0);
            assert(!is_decisive(s, ranking[1].0));
        }
        assert forall|i: int| 0 <= i < projects.len() && #[trigger] wins(scores, i) implies i
            == top by {
            if i != top {
                assert(scores[top] is Some);
                assert(scores[i]->0 > scores[top]->0);
            }
        }
        let all = ranked_projects(ranking);
        assert forall|i: int| 0 <= i < scores.len() && (
        #[trigger] scores[i]) is Some implies all.contains(projects[i]) by {
            lemma_ranked_holds(projects, scores, i);
            let k = choose|k: int|
                0 <= k < ranking.len() && ranking[k] == (scores[i]->0, projects[i]);
            assert(all[k] == projects[i]);
        }
    } else {
        assert forall|i: int| 0 <= i < scores.len() implies (#[trigger] scores[i]) is None by {
            if scores[i] is Some {
                lemma_ranked_holds(projects, scores, i);
            }
        }
    }
}

/// Whether a score is clearly ahead of all others.
pub open spec fn wins(scores: Seq<Option<u32>>, i: int) -> bool {
    &&& scores[i] is Some
    &&& forall|j: int|
        0 <= j < scores.len() && j != i && (#[trigger] scores[j]) is Some ==> scores[i]->0
            > scores[j]->0 && 2 * scores[i]->0 >= 3 * scores[j]->0
}

/// The runner-up is another project than the winner.
proof fn lemma_second_differs(projects: Seq<ProjectView>, scores: Seq<Option<u32>>, top: int)
    requires
        scores.len() == projects.len(),
        0 <= top < projects.len(),
        wins(scores, top),
        ranked(projects, scores).len() > 1,
    ensures
        is_decisive(scores[top]->0, ranked(projects, scores)[1].0),
{
    lemma_keeps_top(projects, scores, top);
}

/// What follows the winner in a ranking is clearly behind.
proof fn lemma_keeps_top(projects: Seq<ProjectView>, scores: Seq<Option<u32>>, top: int)
    requires
        scores.len() >= projects.len(),
        0 <= top < projects.len(),
        scores[top] is Some,
        forall|j: int|
            0 <= j < projects.len() && j != top && (#[trigger] scores[j]) is Some ==> scores[top]->0
                > scores[j]->0 && 2 * scores[top]->0 >= 3 * scores[j]->0,
    ensures
        ({
            let ranking = ranked(projects, scores);
            &&& ranking.len() > 0
            &&& ranking[0] == (scores[top]->0, projects[top])
            &&& forall|k: int|
                1 <= k < ranking.len() ==> is_decisive(scores[top]->0, (#[trigger] ranking[k]).0)
        }),
    decreases projects.len(),
{
    let front = projects.drop_last();
    let before = ranked(front, scores);
    let all = ranked(projects, scores);
    let end = projects.len() - 1;
    if top < end {
        lemma_keeps_top(front, scores, top);
        if let Some(score) = scores[end] {
            let item = (score, projects.last());
            assert(is_decisive(scores[top]->0, score));
            lemma_placed_behind(before, item, scores[top]->0);
        }
    } else {
        let item = (scores[end]->0, projects.last());
        assert forall|k: int| 0 <= k < before.len() implies is_decisive(
            item.0,
            (#[trigger] before[k]).0,
        ) by {
            lemma_ranked_from(front, scores, k);
            let i = choose|i: int|
                0 <= i < front.len() && #[trigger] scores[i] == Some(before[k].0) && front[i]
                    == before[k].1;
            assert(scores[i] is Some);
        }
        lemma_placed(before, item, 0);
    }
}

proof fn lemma_placed_behind(
    ranking: Seq<(u32, ProjectView)>,
    item: (u32, ProjectView),
    best: u32,
)
    requires
        ranking.len() > 0,
        ranking[0].0 == best,
        is_decisive(best, item.0),
        forall|k: int| 1 <= k < ranking.len() ==> is_decisive(best, (#[trigger] ranking[k]).0),
    ensures
        placed(ranking, item).len() > 0,
        placed(ranking, item)[0] == ranking[0],
        forall|k: int|
            1 <= k < placed(ranking, item).len() ==> is_decisive(
                best,
                (#[trigger] placed(ranking, item)[k]).0,
            ),
    decreases ranking.len(),
{
    if ranking.last().0 < item.0 {
        lemma_placed_behind(ranking.drop_last(), item, best);
    }
}

/// A project scores as well as its slug and as well as its name, and no better
/// than one of them; it does not score where neither does.
pub proof fn law_projects_score_by_slug_or_name(
    query: Seq<char>,
    projects: Seq<ProjectView>,
    i: int,
)
    requires
        0 <= i < projects.len(),
    ensures
        project_scores(query, projects).len() == projects.len(),
        ({
            let score = project_scores(query, projects)[i];
            let by_slug = fuzzy_score(query, projects[i].slug);
            let by_name = fuzzy_score(query, projects[i].name);
            &&& score == by_slug || score == by_name
            &&& by_slug is Some ==> score is Some && score->0 >= by_slug->0
            &&& by_name is Some ==> score is Some && score->0 >= by_name->0
        }),
{
}

} // verus!
