//! Joining file-system paths.

use vstd::prelude::*;

use crate::pieces::all_fields;
use crate::text::{chars, starts_with};
use crate::text::begins;

verus! {

/// A path continued by another: an absolute one replaces it, a relative one
/// goes behind it with one slash between them.
pub open spec fn joined_path(base: Seq<char>, part: Seq<char>) -> Seq<char> {
    if begins(part, "/"@) || base.len() == 0 {
        part
    } else if base.last() == '/' {
        base + part
    } else {
        base + "/"@ + part
    }
}

/// A path continued by another.
pub fn join_path(base: &str, part: &str) -> (r: String)
    ensures
        r@ == joined_path(base@, part@),
{
    let v = chars(base);
    if starts_with(part, "/") || v.len() == 0 {
        return part.to_owned();
    }
    let mut out = base.to_owned();
    if v[v.len() - 1] != '/' {
        out.append("/");
    }
    out.append(part);
    out
}

/// The components among the first `n` of the parts between slashes: empty ones
/// do not count, nor `.` anywhere but at the beginning.
pub open spec fn kept_parts(parts: Seq<Seq<char>>, n: int) -> Seq<Seq<char>>
    decreases n,
{
    if n <= 0 {
        seq![]
    } else if parts[n - 1].len() == 0 || (parts[n - 1] == "."@ && n > 1) {
        kept_parts(parts, n - 1)
    } else {
        kept_parts(parts, n - 1).push(parts[n - 1])
    }
}

/// The components of a path behind the root.
pub open spec fn components(path: Seq<char>) -> Seq<Seq<char>> {
    let parts = all_fields(path, "/"@);
    kept_parts(parts, parts.len() as int)
}

/// Whether two paths lead the same way: both or neither start at the root, and
/// their components are the same.
pub open spec fn equal_paths(a: Seq<char>, b: Seq<char>) -> bool {
    begins(a, "/"@) == begins(b, "/"@) && components(a) == components(b)
}

} // verus!
