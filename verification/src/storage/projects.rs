//! One TOML file per project under `<state>/projects/<slug>.toml`.
//!
//! Files carry a schema version. Files written by a *newer* build are refused
//! (never rewritten or destroyed); older versions go through
//! [`crate::storage::migrations`].

use vstd::prelude::*;

use crate::document::{find_integer, TomlValue};
use crate::document::integer_under;
use crate::document::TomlValueView;
use crate::domain::model::{Project, Slug};
use crate::domain::model::ProjectView;
use crate::numbers::render;
use crate::numbers::decimal;
use crate::outside::parse_toml;
use crate::outside::toml_document;
use crate::paths::join_path;
use crate::paths::joined_path;
use crate::storage::migrations::migrate_project;
use crate::storage::migrations::migration_problem;
use crate::text::{chars, comes_before, ends_with};
use crate::text::{finishes, lemma_precedes_total, lemma_precedes_transitive, precedes};

verus! {

/// Current project-file schema version.
pub const PROJECT_VERSION: u32 = 1;

/// Why a file cannot be used.
#[derive(Debug, PartialEq)]
#[allow(inconsistent_fields)]
pub enum StorageError {
    /// The file could not be read or written.
    Io(String),
    /// The file does not hold what it should.
    Invalid {
        /// The file.
        path: String,
        /// What is wrong with it.
        message: String,
    },
    /// The file was written by a newer build.
    VersionTooNew {
        /// The file.
        path: String,
        /// Version found in the file.
        found: u32,
        /// Newest version this build supports.
        supported: u32,
    },
}

/// What a [`StorageError`] holds.
#[verifier::ext_equal]
#[allow(inconsistent_fields)]
pub enum StorageErrorView {
    /// See [`StorageError::Io`].
    Io(Seq<char>),
    /// See [`StorageError::Invalid`].
    Invalid {
        /// The file.
        path: Seq<char>,
        /// What is wrong with it.
        message: Seq<char>,
    },
    /// See [`StorageError::VersionTooNew`].
    VersionTooNew {
        /// The file.
        path: Seq<char>,
        /// Version found in the file.
        found: u32,
        /// Newest version this build supports.
        supported: u32,
    },
}

impl View for StorageError {
    type V = StorageErrorView;

    open spec fn view(&self) -> StorageErrorView {
        match self {
            StorageError::Io(error) => StorageErrorView::Io(error@),
            StorageError::Invalid { path, message } => StorageErrorView::Invalid {
                path: path@,
                message: message@,
            },
            StorageError::VersionTooNew { path, found, supported } => {
                StorageErrorView::VersionTooNew {
                    path: path@,
                    found: *found,
                    supported: *supported,
                }
            },
        }
    }
}

impl StorageErrorView {
    /// The message for users.
    pub open spec fn message(self) -> Seq<char> {
        match self {
            StorageErrorView::Io(error) => error,
            StorageErrorView::Invalid { path, message } => path + ": "@ + message,
            StorageErrorView::VersionTooNew { path, found, supported } => path
                + ": written by a newer build (version "@ + decimal(found as nat) + ", supported "@
                + decimal(supported as nat) + ")"@,
        }
    }
}

impl StorageError {
    /// The message for users.
    pub fn message(&self) -> (r: String)
        ensures
            r@ == self@.message(),
    {
        match self {
            StorageError::Io(error) => error.clone(),
            StorageError::Invalid { path, message } => {
                let mut out = path.clone();
                out.append(": ");
                out.append(message.as_str());
                out
            },
            StorageError::VersionTooNew { path, found, supported } => {
                let mut out = path.clone();
                out.append(": written by a newer build (version ");
                out.append(render(*found as u64).as_str());
                out.append(", supported ");
                out.append(render(*supported as u64).as_str());
                out.append(")");
                out
            },
        }
    }
}

impl DeepView for StorageError {
    type V = StorageErrorView;

    open spec fn deep_view(&self) -> StorageErrorView {
        self.view()
    }
}

impl Clone for StorageError {
    fn clone(&self) -> (r: Self)
        ensures
            r@ == self@,
    {
        match self {
            StorageError::Io(error) => StorageError::Io(error.clone()),
            StorageError::Invalid { path, message } => StorageError::Invalid {
                path: path.clone(),
                message: message.clone(),
            },
            StorageError::VersionTooNew { path, found, supported } => {
                StorageError::VersionTooNew {
                    path: path.clone(),
                    found: *found,
                    supported: *supported,
                }
            },
        }
    }
}

/// On-disk shape of a project file.
#[derive(Debug)]
pub struct ProjectFile {
    /// Schema version.
    pub version: u32,
    /// The project definition.
    pub project: Project,
}

/// What is written for a project.
pub fn project_file(project: &Project) -> (r: ProjectFile)
    ensures
        r.version == PROJECT_VERSION,
        r.project@ == project@,
{
    ProjectFile { version: PROJECT_VERSION, project: project.clone() }
}

/// Directory holding the per-project files.
pub fn projects_dir(state_dir: &str) -> (r: String)
    ensures
        r@ == joined_path(state_dir@, "projects"@),
{
    join_path(state_dir, "projects")
}

/// The file of a project.
pub fn project_path(state_dir: &str, slug: &Slug) -> (r: String)
    ensures
        r@ == joined_path(joined_path(state_dir@, "projects"@), slug@ + ".toml"@),
{
    let mut name = slug.as_str().to_owned();
    name.append(".toml");
    join_path(projects_dir(state_dir).as_str(), name.as_str())
}

/// Whether a directory entry's name is that of a project file: one with the
/// extension `toml`.
pub fn is_project_file(name: &str) -> (r: bool)
    ensures
        r == (finishes(name@, ".toml"@) && name@.len() > ".toml"@.len()),
{
    proof {
        reveal_strlit(".toml");
    }
    ends_with(name, ".toml") && chars(name).len() > 5
}

/// The schema version that a file declares; without one it counts as the
/// current version. A number that is no version counts as the nearest one that
/// is.
pub open spec fn declared_version(version: Option<i64>) -> u32 {
    match version {
        Some(version) => if version < 0 {
            0
        } else if version > u32::MAX {
            u32::MAX
        } else {
            version as u32
        },
        None => PROJECT_VERSION,
    }
}

/// Why a file with the declared version is refused, if it is.
pub open spec fn version_problem(path: Seq<char>, version: Option<i64>) -> Option<
    StorageErrorView,
> {
    let found = declared_version(version);
    if found > PROJECT_VERSION {
        Some(StorageErrorView::VersionTooNew { path, found, supported: PROJECT_VERSION })
    } else {
        None
    }
}

/// Check the version that a project file declares; files of newer builds are
/// refused.
pub fn check_version(path: &str, version: Option<i64>) -> (r: Result<u32, StorageError>)
    ensures
        match r {
            Ok(found) => version_problem(path@, version) is None && found == declared_version(
                version,
            ),
            Err(error) => version_problem(path@, version) == Some(error@),
        },
{
    let found: u32 = match version {
        Some(version) => if version < 0 {
            0
        } else if version > 0xffff_ffff {
            u32::MAX
        } else {
            version as u32
        },
        None => PROJECT_VERSION,
    };
    if found > PROJECT_VERSION {
        let error = StorageError::VersionTooNew {
            path: path.to_owned(),
            found,
            supported: PROJECT_VERSION,
        };
        return Err(error);
    }
    Ok(found)
}

/// Why the text of a project file is refused before its project is read, if it
/// is.
pub open spec fn file_problem(
    path: Seq<char>,
    document: Result<Seq<(Seq<char>, TomlValueView)>, Seq<char>>,
) -> Option<StorageErrorView> {
    match document {
        Ok(entries) => {
            let version = integer_under(entries, "version"@);
            match version_problem(path, version) {
                Some(error) => Some(error),
                None => migration_problem(declared_version(version)),
            }
        },
        Err(message) => Some(StorageErrorView::Invalid { path, message }),
    }
}

/// Read the text of a project file as TOML and bring it up to the current
/// schema.
pub fn check_file(path: &str, text: &str) -> (r: Result<Vec<(String, TomlValue)>, StorageError>)
    ensures
        match r {
            Ok(table) => file_problem(path@, toml_document(text@)) is None && toml_document(text@)
                == Ok::<Seq<(Seq<char>, TomlValueView)>, Seq<char>>(table.deep_view()),
            Err(error) => file_problem(path@, toml_document(text@)) == Some(error@),
        },
{
    match parse_toml(text) {
        Ok(table) => match check_version(path, find_integer(&table, "version")) {
            Ok(version) => migrate_project(table, version),
            Err(error) => Err(error),
        },
        Err(message) => {
            let error = StorageError::Invalid { path: path.to_owned(), message };
            Err(error)
        },
    }
}

/// A project put in order of slugs, behind those that do not come after it.
pub open spec fn slug_placed(order: Seq<ProjectView>, project: ProjectView) -> Seq<ProjectView>
    decreases order.len(),
{
    if order.len() > 0 && precedes(project.slug, order.last().slug) {
        slug_placed(order.drop_last(), project).push(order.last())
    } else {
        order.push(project)
    }
}

/// The projects that loaded, in order of their slugs.
pub open spec fn loaded_projects(
    results: Seq<Result<Project, StorageError>>,
) -> Seq<ProjectView>
    decreases results.len(),
{
    if results.len() == 0 {
        seq![]
    } else {
        let before = loaded_projects(results.drop_last());
        match results.last() {
            Ok(project) => slug_placed(before, project@),
            Err(_) => before,
        }
    }
}

/// The problems of the files that did not load.
pub open spec fn load_errors(results: Seq<Result<Project, StorageError>>) -> Seq<StorageErrorView>
    decreases results.len(),
{
    if results.len() == 0 {
        seq![]
    } else {
        let before = load_errors(results.drop_last());
        match results.last() {
            Ok(_) => before,
            Err(error) => before.push(error@),
        }
    }
}

proof fn lemma_slug_placed(order: Seq<ProjectView>, project: ProjectView, at: int)
    requires
        0 <= at <= order.len(),
        forall|i: int|
            at <= i < order.len() ==> precedes(project.slug, (#[trigger] order[i]).slug),
        at > 0 ==> !precedes(project.slug, order[at - 1].slug),
    ensures
        slug_placed(order, project) == order.insert(at, project),
    decreases order.len(),
{
    if at < order.len() {
        let front = order.drop_last();
        assert(precedes(project.slug, order[order.len() - 1].slug));
        lemma_slug_placed(front, project, at);
        assert(order.insert(at, project) =~= front.insert(at, project).push(order.last()));
    } else {
        assert(order.insert(at, project) =~= order.push(project));
    }
}

/// Gather what loading every project file gave: the projects in order of
/// their slugs, and every problem. One bad file never takes down the rest.
pub fn gather(results: &Vec<Result<Project, StorageError>>) -> (r: (
    Vec<Project>,
    Vec<StorageError>,
))
    ensures
        r.0.deep_view() == loaded_projects(results@),
        r.1.deep_view() == load_errors(results@),
{
    let ghost all = results@;
    let mut projects: Vec<Project> = Vec::new();
    let mut errors: Vec<StorageError> = Vec::new();
    let mut i: usize = 0;
    proof {
        assert(projects.deep_view() =~= seq![]);
        assert(errors.deep_view() =~= seq![]);
        assert(all.take(0) =~= seq![]);
    }
    while i < results.len()
        invariant
            i <= results.len(),
            all == results@,
            projects.deep_view() == loaded_projects(all.take(i as int)),
            errors.deep_view() == load_errors(all.take(i as int)),
        decreases results.len() - i,
    {
        proof {
            assert(all.take(i + 1).drop_last() =~= all.take(i as int));
        }
        match &results[i] {
            Ok(project) => {
                place(&mut projects, project.clone());
            },
            Err(error) => {
                let ghost before = errors.deep_view();
                errors.push(error.clone());
                proof {
                    assert(errors.deep_view() =~= before.push(error@));
                }
            },
        }
        i = i + 1;
    }
    proof {
        assert(all.take(i as int) =~= all);
    }
    (projects, errors)
}

fn place(projects: &mut Vec<Project>, project: Project)
    ensures
        final(projects).deep_view() == slug_placed(old(projects).deep_view(), project@),
{
    let ghost before = projects.deep_view();
    let mut at: usize = projects.len();
    while at > 0 && comes_before(project.slug.as_str(), projects[at - 1].slug.as_str())
        invariant
            at <= projects.len(),
            before == projects.deep_view(),
            forall|k: int|
                at <= k < before.len() ==> precedes(project@.slug, (#[trigger] before[k]).slug),
        decreases at,
    {
        assert(before[at - 1] == projects@[at - 1]@);
        at = at - 1;
    }
    proof {
        if at > 0 {
            assert(before[at - 1] == projects@[at - 1]@);
        }
        lemma_slug_placed(before, project@, at as int);
    }
    projects.insert(at, project);
    proof {
        assert(projects.deep_view() =~= before.insert(at as int, project@));
    }
}

/// Whether projects stand in order of their slugs.
pub open spec fn is_slug_order(order: Seq<ProjectView>) -> bool {
    forall|i: int, j: int|
        0 <= i < j < order.len() ==> !precedes(
            (#[trigger] order[j]).slug,
            (#[trigger] order[i]).slug,
        )
}

proof fn lemma_placed_in_order(order: Seq<ProjectView>, project: ProjectView)
    requires
        is_slug_order(order),
    ensures
        is_slug_order(slug_placed(order, project)),
        forall|p: ProjectView| #[trigger]
            slug_placed(order, project).contains(p) ==> p == project || order.contains(p),
    decreases order.len(),
{
    let all = slug_placed(order, project);
    if order.len() > 0 && precedes(project.slug, order.last().slug) {
        let front = order.drop_last();
        let before = slug_placed(front, project);
        lemma_placed_in_order(front, project);
        assert forall|i: int, j: int| 0 <= i < j < all.len() implies !precedes(
            (#[trigger] all[j]).slug,
            (#[trigger] all[i]).slug,
        ) by {
            if j == before.len() {
                assert(before.contains(before[i]));
                if before[i] == project {
                    if precedes(order.last().slug, project.slug) {
                        lemma_precedes_transitive(
                            order.last().slug,
                            project.slug,
                            order.last().slug,
                        );
                        lemma_precedes_total(order.last().slug, order.last().slug);
                    }
                } else {
                    let k = choose|k: int| 0 <= k < front.len() && front[k] == before[i];
                    assert(order[k] == before[i]);
                    assert(!precedes(order[order.len() - 1].slug, order[k].slug));
                }
            }
        }
        assert forall|p: ProjectView| #[trigger] all.contains(p) implies p == project
            || order.contains(p) by {
            let k = choose|k: int| 0 <= k < all.len() && all[k] == p;
            if k < before.len() {
                assert(before.contains(p));
                if p != project {
                    let m = choose|m: int| 0 <= m < front.len() && front[m] == p;
                    assert(order[m] == p);
                }
            } else {
                assert(order[order.len() - 1] == p);
            }
        }
    } else {
        assert forall|i: int, j: int| 0 <= i < j < all.len() implies !precedes(
            (#[trigger] all[j]).slug,
            (#[trigger] all[i]).slug,
        ) by {
            if j == order.len() {
                let last = order[order.len() - 1];
                lemma_precedes_total(project.slug, last.slug);
                if i < order.len() - 1 && precedes(project.slug, order[i].slug) {
                    assert(!precedes(last.slug, order[i].slug));
                    lemma_precedes_total(last.slug, order[i].slug);
                    if last.slug == order[i].slug {
                        assert(precedes(project.slug, last.slug));
                    } else {
                        lemma_precedes_transitive(project.slug, order[i].slug, last.slug);
                    }
                }
            }
        }
        assert forall|p: ProjectView| #[trigger] all.contains(p) implies p == project
            || order.contains(p) by {
            let k = choose|k: int| 0 <= k < all.len() && all[k] == p;
            if k < order.len() {
                assert(order[k] == p);
            }
        }
    }
}

/// Projects load in order of their slugs, whatever the order of the files.
pub proof fn law_projects_load_in_order(results: Seq<Result<Project, StorageError>>)
    ensures
        is_slug_order(loaded_projects(results)),
    decreases results.len(),
{
    if results.len() > 0 {
        law_projects_load_in_order(results.drop_last());
        if let Ok(project) = results.last() {
            lemma_placed_in_order(loaded_projects(results.drop_last()), project@);
        }
    }
}

/// Every file either loads or is reported: nothing gets lost.
pub proof fn law_every_file_counts(results: Seq<Result<Project, StorageError>>)
    ensures
        loaded_projects(results).len() + load_errors(results).len() == results.len(),
    decreases results.len(),
{
    if results.len() > 0 {
        law_every_file_counts(results.drop_last());
        if let Ok(project) = results.last() {
            lemma_placed_len(loaded_projects(results.drop_last()), project@);
        }
    }
}

proof fn lemma_placed_len(order: Seq<ProjectView>, project: ProjectView)
    ensures
        slug_placed(order, project).len() == order.len() + 1,
    decreases order.len(),
{
    if order.len() > 0 && precedes(project.slug, order.last().slug) {
        lemma_placed_len(order.drop_last(), project);
    }
}

/// A file of a newer build is always refused, whatever else it holds.
pub proof fn law_newer_files_are_refused(
    path: Seq<char>,
    entries: Seq<(Seq<char>, TomlValueView)>,
    version: i64,
)
    requires
        integer_under(entries, "version"@) == Some(version),
        PROJECT_VERSION < version,
    ensures
        file_problem(path, Ok(entries)) == Some(
            (StorageErrorView::VersionTooNew {
                path,
                found: declared_version(Some(version)),
                supported: PROJECT_VERSION,
            }),
        ),
        version <= u32::MAX ==> declared_version(Some(version)) == version,
{
}

/// A file of the current version, or one that names none, is read; one of an
/// older version is refused with that version, and a file that is not TOML
/// with its path and what the parser says.
pub proof fn law_only_current_files_are_read(
    path: Seq<char>,
    entries: Seq<(Seq<char>, TomlValueView)>,
    message: Seq<char>,
)
    ensures
        integer_under(entries, "version"@) is None ==> file_problem(path, Ok(entries)) is None,
        integer_under(entries, "version"@) == Some(PROJECT_VERSION as i64) ==> file_problem(
            path,
            Ok(entries),
        ) is None,
        integer_under(entries, "version"@) matches Some(version) ==> version < PROJECT_VERSION
            ==> (file_problem(path, Ok(entries)) matches Some(
            StorageErrorView::Invalid { message: said, .. },
        ) && finishes(
            said,
            decimal(
                if version < 0 {
                    0
                } else {
                    version as nat
                },
            ),
        )),
        file_problem(path, Err(message)) == Some(StorageErrorView::Invalid { path, message }),
{
    if let Some(version) = integer_under(entries, "version"@) {
        if version < PROJECT_VERSION {
            let n: nat = if version < 0 {
                0
            } else {
                version as nat
            };
            let start = "no migration registered for project schema v"@;
            let said = start + decimal(n);
            assert(said.skip(said.len() - decimal(n).len()) =~= decimal(n));
        }
    }
}

proof fn lemma_placed_holds(order: Seq<ProjectView>, project: ProjectView, other: ProjectView)
    ensures
        slug_placed(order, project).contains(other) <==> order.contains(other) || other == project,
    decreases order.len(),
{
    let placed = slug_placed(order, project);
    if order.len() > 0 && precedes(project.slug, order.last().slug) {
        let front = order.drop_last();
        lemma_placed_holds(front, project, other);
        let inner = slug_placed(front, project);
        assert(placed == inner.push(order.last()));
        if inner.contains(other) {
            let i = choose|i: int| 0 <= i < inner.len() && inner[i] == other;
            assert(placed[i] == other);
        }
        if other == order.last() {
            assert(placed[placed.len() - 1] == other);
            assert(order[order.len() - 1] == other);
        }
        if order.contains(other) {
            let i = choose|i: int| 0 <= i < order.len() && order[i] == other;
            if i < front.len() {
                assert(front[i] == other);
            }
        }
        if front.contains(other) {
            let i = choose|i: int| 0 <= i < front.len() && front[i] == other;
            assert(order[i] == other);
        }
        if placed.contains(other) {
            let i = choose|i: int| 0 <= i < placed.len() && placed[i] == other;
            if i < inner.len() {
                assert(inner[i] == other);
            }
        }
    } else {
        assert(placed == order.push(project));
        if order.contains(other) {
            let i = choose|i: int| 0 <= i < order.len() && order[i] == other;
            assert(placed[i] == other);
        }
        assert(placed[order.len() as int] == project);
        if placed.contains(other) {
            let i = choose|i: int| 0 <= i < placed.len() && placed[i] == other;
            if i < order.len() {
                assert(order[i] == other);
            }
        }
    }
}

/// What is read from a file is what is loaded, and what is wrong with a file is
/// what is reported: no project is changed or made up, and no problem.
pub proof fn law_files_load_as_they_read(
    results: Seq<Result<Project, StorageError>>,
    project: ProjectView,
    error: StorageErrorView,
)
    ensures
        loaded_projects(results).contains(project) <==> exists|i: int|
            0 <= i < results.len() && (#[trigger] results[i] matches Ok(read) && read@ == project),
        load_errors(results).contains(error) <==> exists|i: int|
            0 <= i < results.len() && (#[trigger] results[i] matches Err(met) && met@ == error),
    decreases results.len(),
{
    if results.len() > 0 {
        let front = results.drop_last();
        law_files_load_as_they_read(front, project, error);
        assert(results[results.len() - 1] == results.last());
        assert forall|i: int| 0 <= i < front.len() implies front[i] == #[trigger] results[i] by {}
        if exists|i: int|
            0 <= i < front.len() && (#[trigger] front[i] matches Ok(read) && read@ == project) {
            let i = choose|i: int|
                0 <= i < front.len() && (#[trigger] front[i] matches Ok(read) && read@ == project);
            assert(results[i] == front[i]);
        }
        if exists|i: int|
            0 <= i < front.len() && (#[trigger] front[i] matches Err(met) && met@ == error) {
            let i = choose|i: int|
                0 <= i < front.len() && (#[trigger] front[i] matches Err(met) && met@ == error);
            assert(results[i] == front[i]);
        }
        match results.last() {
            Ok(read) => {
                lemma_placed_holds(loaded_projects(front), read@, project);
            },
            Err(met) => {
                let before = load_errors(front);
                let now = before.push(met@);
                assert(now[before.len() as int] == met@);
                if before.contains(error) {
                    let i = choose|i: int| 0 <= i < before.len() && before[i] == error;
                    assert(now[i] == error);
                }
                if now.contains(error) {
                    let i = choose|i: int| 0 <= i < now.len() && now[i] == error;
                    if i < before.len() {
                        assert(before[i] == error);
                    }
                }
            },
        }
    }
}

} // verus!
