//! `workspace search` and `workspace export`: what is said of the daemon's
//! replies.

use vstd::prelude::*;

use crate::cli::output::pad;
use crate::cli::output::{law_columns_begin_with_their_text, padded};
use crate::cli::replies::member_text;
use crate::cli::replies::text_or;
use crate::json::Json;
use crate::json::JsonView;
use crate::text::same;
use crate::text::{begins, finishes, holds};

verus! {

/// The line about a search result: a project by its slug, anything else by
/// its address.
pub open spec fn result_text(entry: JsonView) -> Seq<char> {
    let label = text_or(entry, "label"@, ""@);
    if entry.member("kind"@) matches Some(JsonView::Text(kind)) && kind == "project"@ {
        "project  "@ + padded(text_or(entry, "slug"@, "?"@), 20) + " "@ + label
    } else {
        "window   "@ + padded(text_or(entry, "address"@, "?"@), 20) + " "@ + label
    }
}

/// The results in a reply.
pub open spec fn results_of(reply: JsonView) -> Seq<JsonView> {
    match reply.member("results"@) {
        Some(JsonView::List(results)) => results,
        _ => seq![],
    }
}

/// The lines about the results in a reply, or a note when there are none.
pub open spec fn search_text(reply: JsonView) -> Seq<Seq<char>> {
    let results = results_of(reply);
    if results.len() == 0 {
        seq!["no matches"@]
    } else {
        Seq::new(results.len(), |i: int| result_text(results[i]))
    }
}

fn result_line(entry: &Json) -> (r: String)
    ensures
        r@ == result_text(entry@),
{
    let is_project = match entry.get("kind") {
        Some(value) => match value.as_str() {
            Some(kind) => same(kind, "project"),
            None => false,
        },
        None => false,
    };
    let mut out = if is_project {
        let mut out = "project  ".to_owned();
        out.append(pad(member_text(entry, "slug", "?"), 20).as_str());
        out
    } else {
        let mut out = "window   ".to_owned();
        out.append(pad(member_text(entry, "address", "?"), 20).as_str());
        out
    };
    out.append(" ");
    out.append(member_text(entry, "label", ""));
    out
}

/// `workspace search <query>`.
pub fn search_lines(reply: &Json) -> (r: Vec<String>)
    ensures
        r.deep_view() == search_text(reply@),
{
    let mut out: Vec<String> = Vec::new();
    if let Some(Json::List(results)) = reply.get("results") {
        let ghost views = results_of(reply@);
        assert(views =~= results.deep_view());
        let mut i: usize = 0;
        while i < results.len()
            invariant
                i <= results.len(),
                views == results.deep_view(),
                out.len() == i,
                forall|k: int| 0 <= k < i ==> (#[trigger] out@[k])@ == result_text(views[k]),
            decreases results.len() - i,
        {
            assert(views[i as int] == results@[i as int]@);
            out.push(result_line(&results[i]));
            i = i + 1;
        }
        if results.len() > 0 {
            assert(out.deep_view() =~= search_text(reply@));
            return out;
        }
    }
    out.push("no matches".to_owned());
    assert(out.deep_view() =~= search_text(reply@));
    out
}

/// What `workspace export` says when it has written a file.
pub fn exported_line(reply: &Json, path: &str) -> (r: String)
    ensures
        r@ == "exported '"@ + text_or(reply@, "slug"@, "?"@) + "' to "@ + path@,
{
    let mut out = "exported '".to_owned();
    out.append(member_text(reply, "slug", "?"));
    out.append("' to ");
    out.append(path);
    out
}

/// The exported project file in a reply.
pub fn exported_file(reply: &Json) -> (r: String)
    ensures
        r@ == text_or(reply@, "toml"@, ""@),
{
    member_text(reply, "toml", "").to_owned()
}

// ---- laws ---------------------------------------------------------------------------------

/// Every result has a line, in their order: a project is shown by its slug and
/// anything else by its address, with the label at the end. Without results
/// that is said.
pub proof fn law_every_result_has_its_line(reply: JsonView, results: Seq<JsonView>, i: int)
    requires
        reply.member("results"@) == Some(JsonView::List(results)),
        0 <= i < results.len(),
    ensures
        search_text(reply).len() == results.len(),
        ({
            let line = search_text(reply)[i];
            let entry = results[i];
            let is_project = entry.member("kind"@) == Some(JsonView::Text("project"@));
            &&& begins(line, "project"@) <==> is_project
            &&& entry.member("label"@) matches Some(JsonView::Text(label)) ==> finishes(line, label)
            &&& is_project ==> (entry.member("slug"@) matches Some(JsonView::Text(slug)) ==> holds(
                line,
                slug,
            ))
            &&& !is_project ==> (entry.member("address"@) matches Some(JsonView::Text(address))
                ==> holds(line, address))
        }),
{
    reveal_strlit("project");
    reveal_strlit("project  ");
    reveal_strlit("window   ");
    let line = search_text(reply)[i];
    let entry = results[i];
    let is_project = entry.member("kind"@) == Some(JsonView::Text("project"@));
    let label = text_or(entry, "label"@, ""@);
    let front = if is_project {
        "project  "@
    } else {
        "window   "@
    };
    let name = if is_project {
        text_or(entry, "slug"@, "?"@)
    } else {
        text_or(entry, "address"@, "?"@)
    };
    let column = padded(name, 20);
    assert(line == front + column + " "@ + label);
    law_columns_begin_with_their_text(name, 20);
    assert(line[0] == front[0]);
    if is_project {
        assert(line.take(7) =~= "project"@);
    } else if begins(line, "project"@) {
        assert(line.take(7)[0] == line[0]);
    }
    assert(line.skip(line.len() - label.len()) =~= label);
    assert(line.subrange(9, 9 + name.len() as int) =~= column.take(name.len() as int));
    assert(holds(line, name));
}

} // verus!
