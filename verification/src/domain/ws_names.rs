//! The single source of truth for how projects and groups map to Hyprland
//! named workspaces.
//!
//! Scheme: a project's primary workspace is `<prefix><slug>`; a group's
//! parking workspace (where hidden groups' windows live) is
//! `<prefix><slug><SEP><group>`. `@` is reserved for future per-monitor
//! secondary workspaces and rejected in slugs by [`crate::domain::model::Slug`].

use vstd::prelude::*;

use crate::domain::model::Slug;
use crate::domain::model::{is_slug, is_slug_char};
use crate::numbers::is_all_digits;
use crate::numbers::all_digits;
use crate::text::{same, split_once, starts_with, strip_prefix};
use crate::text::{begins, cut, find_from, is_digit, lemma_find_from, without_prefix};

verus! {

/// Separator between project slug and group slug in workspace names.
pub const SEP: char = ':';

/// The separator as a text.
pub open spec fn separator() -> Seq<char> {
    seq![SEP]
}

/// The name of a project's primary workspace.
pub open spec fn project_name(prefix: Seq<char>, project: Seq<char>) -> Seq<char> {
    prefix + project
}

/// The name of a group's parking workspace.
pub open spec fn group_name(
    prefix: Seq<char>,
    project: Seq<char>,
    group: Seq<char>,
) -> Seq<char> {
    prefix + project + separator() + group
}

/// The dispatcher target of a workspace name.
pub open spec fn target_text(workspace_name: Seq<char>) -> Seq<char> {
    "name:"@ + workspace_name
}

/// Workspace name for a project's primary workspace (without the `name:`
/// dispatcher prefix), e.g. `web-dev` or `ws:web-dev` with a prefix.
pub fn project_workspace(prefix: &str, project: &Slug) -> (r: String)
    ensures
        r@ == project_name(prefix@, project@),
{
    let mut out = prefix.to_owned();
    out.append(project.as_str());
    out
}

/// Workspace name for a group's parking workspace, e.g. `web-dev:backend`.
pub fn group_workspace(prefix: &str, project: &Slug, group: &Slug) -> (r: String)
    ensures
        r@ == group_name(prefix@, project@, group@),
{
    let mut out = prefix.to_owned();
    out.append(project.as_str());
    out.push(SEP);
    out.append(group.as_str());
    proof {
        assert(out@ =~= group_name(prefix@, project@, group@));
    }
    out
}

/// Dispatcher target for a workspace name, e.g. `name:web-dev`.
pub fn dispatch_target(workspace_name: &str) -> (r: String)
    ensures
        r@ == target_text(workspace_name@),
{
    let mut out = "name:".to_owned();
    out.append(workspace_name);
    out
}

/// What a live Hyprland workspace name means to us, per [`parse`].
#[derive(Debug, PartialEq, Eq)]
pub enum ParsedName {
    /// A project primary workspace.
    Project(Slug),
    /// A group parking workspace.
    Group {
        /// The owning project's slug.
        project: Slug,
        /// The group's slug.
        group: Slug,
    },
    /// Not one of ours (numeric, special, user-named, or wrong prefix).
    Foreign,
}

/// What a [`ParsedName`] holds.
#[verifier::ext_equal]
pub enum ParsedNameView {
    /// See [`ParsedName::Project`].
    Project(Seq<char>),
    /// See [`ParsedName::Group`].
    Group {
        /// The owning project's slug.
        project: Seq<char>,
        /// The group's slug.
        group: Seq<char>,
    },
    /// See [`ParsedName::Foreign`].
    Foreign,
}

impl View for ParsedName {
    type V = ParsedNameView;

    open spec fn view(&self) -> ParsedNameView {
        match self {
            ParsedName::Project(slug) => ParsedNameView::Project(slug@),
            ParsedName::Group { project, group } => ParsedNameView::Group {
                project: project@,
                group: group@,
            },
            ParsedName::Foreign => ParsedNameView::Foreign,
        }
    }
}

/// Whether a name is that of a special workspace.
pub open spec fn is_special(name: Seq<char>) -> bool {
    name == "special"@ || begins(name, "special:"@)
}

/// The meaning of a workspace name: a slug after the prefix, or two slugs with
/// the separator between them. A name of digits alone is that of a numbered
/// workspace; neither it nor a special one is ever ours.
pub open spec fn meaning(prefix: Seq<char>, name: Seq<char>) -> ParsedNameView {
    match without_prefix(name, prefix) {
        None => ParsedNameView::Foreign,
        Some(_) if all_digits(name) || is_special(name) => ParsedNameView::Foreign,
        Some(rest) => match cut(rest, separator()) {
            None => if is_slug(rest) {
                ParsedNameView::Project(rest)
            } else {
                ParsedNameView::Foreign
            },
            Some((project, group)) => if is_slug(project) && is_slug(group) {
                ParsedNameView::Group { project, group }
            } else {
                ParsedNameView::Foreign
            },
        },
    }
}

/// Classify a live workspace name against our naming scheme.
///
/// This only checks shape; the daemon must additionally verify the slug
/// belongs to a known project before claiming the workspace.
pub fn parse(prefix: &str, workspace_name: &str) -> (r: ParsedName)
    ensures
        r@ == meaning(prefix@, workspace_name@),
{
    proof {
        reveal_strlit(":");
        assert(":"@ =~= separator());
    }
    if is_all_digits(workspace_name) || same(workspace_name, "special") || starts_with(
        workspace_name,
        "special:",
    ) {
        return ParsedName::Foreign;
    }
    let rest = match strip_prefix(workspace_name, prefix) {
        Some(rest) => rest,
        None => {
            return ParsedName::Foreign;
        },
    };
    match split_once(rest.as_str(), ":") {
        None => match Slug::parse(rest.as_str()) {
            Ok(slug) => ParsedName::Project(slug),
            Err(_) => ParsedName::Foreign,
        },
        Some((project, group)) => match (
            Slug::parse(project.as_str()),
            Slug::parse(group.as_str()),
        ) {
            (Ok(project), Ok(group)) => ParsedName::Group { project, group },
            _ => ParsedName::Foreign,
        },
    }
}

/// The separator does not occur in a slug.
proof fn lemma_no_separator_in_slug(s: Seq<char>, i: int)
    requires
        is_slug(s),
        0 <= i < s.len(),
    ensures
        s[i] != SEP,
{
    assert(is_slug_char(s[i]));
}

/// A project's workspace name reads back as that project, unless it is made of
/// digits alone or that of a special workspace.
pub proof fn law_project_name_reads_back(prefix: Seq<char>, project: Seq<char>)
    requires
        is_slug(project),
        !all_digits(project_name(prefix, project)),
        !is_special(project_name(prefix, project)),
    ensures
        meaning(prefix, project_name(prefix, project)) == ParsedNameView::Project(project),
{
    let name = project_name(prefix, project);
    assert(name.take(prefix.len() as int) =~= prefix);
    assert(name.skip(prefix.len() as int) =~= project);
    lemma_find_from(project, separator(), 0);
    if let Some(i) = find_from(project, separator(), 0) {
        assert(project.subrange(i, i + 1)[0] == SEP);
        lemma_no_separator_in_slug(project, i);
    }
}

/// A group's workspace name falls into its parts again.
proof fn lemma_group_name(prefix: Seq<char>, project: Seq<char>, group: Seq<char>)
    requires
        is_slug(project),
    ensures
        ({
            let name = group_name(prefix, project, group);
            let rest = project + separator() + group;
            &&& without_prefix(name, prefix) == Some(rest)
            &&& cut(rest, separator()) == Some((project, group))
            &&& !all_digits(name)
        }),
{
    let name = group_name(prefix, project, group);
    let rest = project + separator() + group;
    assert(name.take(prefix.len() as int) =~= prefix);
    assert(name.skip(prefix.len() as int) =~= rest);
    lemma_find_from(rest, separator(), 0);
    let at = project.len() as int;
    assert(rest.subrange(at, at + 1) =~= separator());
    assert(!all_digits(name)) by {
        assert(name[prefix.len() + at] == SEP);
        assert(!is_digit(name[prefix.len() + at]));
    }
    match find_from(rest, separator(), 0) {
        Some(i) => {
            if i < at {
                assert(rest.subrange(i, i + 1)[0] == SEP);
                lemma_no_separator_in_slug(project, i);
            }
            assert(rest.take(at) =~= project);
            assert(rest.skip(at + 1) =~= group);
        },
        None => {},
    }
}

/// A group's workspace name reads back as that group of that project, unless it
/// is that of a special workspace.
pub proof fn law_group_name_reads_back(prefix: Seq<char>, project: Seq<char>, group: Seq<char>)
    requires
        is_slug(project),
        is_slug(group),
        !is_special(group_name(prefix, project, group)),
    ensures
        meaning(prefix, group_name(prefix, project, group)) == (ParsedNameView::Group {
            project,
            group,
        }),
{
    lemma_group_name(prefix, project, group);
}

/// Distinct projects and groups have distinct workspaces.
pub proof fn law_names_are_distinct(
    prefix: Seq<char>,
    a: Seq<char>,
    b: Seq<char>,
    group: Seq<char>,
    other: Seq<char>,
)
    requires
        is_slug(a),
        is_slug(b),
        is_slug(group),
        is_slug(other),
    ensures
        project_name(prefix, a) == project_name(prefix, b) ==> a == b,
        group_name(prefix, a, group) == group_name(prefix, b, other) ==> a == b && group == other,
        project_name(prefix, a) != group_name(prefix, b, group),
{
    assert(project_name(prefix, a).skip(prefix.len() as int) =~= a);
    assert(project_name(prefix, b).skip(prefix.len() as int) =~= b);
    if project_name(prefix, a) == group_name(prefix, b, group) {
        let at = b.len() as int;
        assert(group_name(prefix, b, group)[prefix.len() + at] == SEP);
        assert(a[at] == SEP);
        lemma_no_separator_in_slug(a, at);
    }
    lemma_group_name(prefix, a, group);
    lemma_group_name(prefix, b, other);
}

/// A name that means something to us is the name of what it means.
pub proof fn law_meaning_is_exact(prefix: Seq<char>, name: Seq<char>)
    ensures
        match meaning(prefix, name) {
            ParsedNameView::Project(project) => is_slug(project) && name == project_name(
                prefix,
                project,
            ),
            ParsedNameView::Group { project, group } => is_slug(project) && is_slug(group)
                && name == group_name(prefix, project, group),
            ParsedNameView::Foreign => true,
        },
{
    if let Some(rest) = without_prefix(name, prefix) {
        assert(name =~= prefix + rest);
        lemma_find_from(rest, separator(), 0);
        if let Some(i) = find_from(rest, separator(), 0) {
            assert(rest =~= rest.take(i) + rest.subrange(i, i + 1) + rest.skip(i + 1));
            assert(name =~= group_name(prefix, rest.take(i), rest.skip(i + 1)));
        }
    }
}

/// A numbered workspace is not ours, whatever the prefix.
pub proof fn law_numbered_names_are_foreign(prefix: Seq<char>, name: Seq<char>)
    requires
        all_digits(name),
    ensures
        meaning(prefix, name) == ParsedNameView::Foreign,
{
}

/// A special workspace is not ours, whatever the prefix.
pub proof fn law_special_names_are_foreign(prefix: Seq<char>, name: Seq<char>)
    requires
        is_special(name),
    ensures
        meaning(prefix, name) == ParsedNameView::Foreign,
{
}

/// A project's workspace is named by the prefix and the slug, and a group's by
/// that of its project, a separator and its own slug.
pub proof fn law_names_are_spelled_out(prefix: Seq<char>, project: Seq<char>, group: Seq<char>)
    ensures
        begins(project_name(prefix, project), prefix),
        project_name(prefix, project).skip(prefix.len() as int) == project,
        begins(group_name(prefix, project, group), project_name(prefix, project)),
        group_name(prefix, project, group).skip(
            project_name(prefix, project).len() as int,
        ) == seq![SEP] + group,
{
    let name = project_name(prefix, project);
    let longer = group_name(prefix, project, group);
    assert(name.take(prefix.len() as int) =~= prefix);
    assert(name.skip(prefix.len() as int) =~= project);
    assert(longer.take(name.len() as int) =~= name);
    assert(longer.skip(name.len() as int) =~= seq![SEP] + group);
}

} // verus!
