//! Periodic update check: whether the latest release is newer than the
//! running daemon.
//!
//! Checking only ever notifies — installing stays with pacman.

use vstd::prelude::*;

use crate::hypr::model::strip_all;
use crate::hypr::model::stripped;
use crate::json::Json;
use crate::json::JsonView;
use crate::numbers::{is_all_digits, parse_unsigned};
use crate::numbers::{all_digits, digits_value};
use crate::outside::parse_json;
use crate::outside::json_document;
use crate::pieces::split;
use crate::pieces::all_fields;

verus! {

/// When to check for updates.
#[derive(Debug, Clone, Copy, PartialEq, Eq, Structural)]
pub struct Updates {
    /// Whether to check at all.
    pub check: bool,
    /// Hours between checks.
    pub interval_hours: u64,
}

/// The seconds between two checks, at least an hour.
pub fn check_interval(settings: &Updates) -> (r: u64)
    requires
        settings.interval_hours * 3600 <= u64::MAX,
    ensures
        r == (if settings.interval_hours < 1 {
            3600
        } else {
            settings.interval_hours * 3600
        }),
{
    if settings.interval_hours < 1 {
        3600
    } else {
        settings.interval_hours * 3600
    }
}

// ---- versions -----------------------------------------------------------------------------

/// Whether a version segment is a number.
pub open spec fn is_number(s: Seq<char>) -> bool {
    all_digits(s)
}

/// The number that a version segment is; 0 if it is none, or one beyond 64
/// bits.
pub open spec fn segment_value(s: Seq<char>) -> u64 {
    if is_number(s) && digits_value(s) <= u64::MAX {
        digits_value(s) as u64
    } else {
        0
    }
}

/// The segments of a dotted version.
pub open spec fn segments(version: Seq<char>) -> Seq<u64> {
    let parts = all_fields(stripped(version, "v"@), "."@);
    Seq::new(parts.len(), |i: int| segment_value(parts[i]))
}

/// A segment of a version; a missing one is 0.
pub open spec fn segment(version: Seq<u64>, i: int) -> u64 {
    if 0 <= i < version.len() {
        version[i]
    } else {
        0
    }
}

/// Whether a version is newer than another, from a segment on: the first
/// segment in which they differ decides.
pub open spec fn newer_from(current: Seq<u64>, latest: Seq<u64>, from: int) -> bool
    decreases current.len() + latest.len() - from,
{
    if from >= current.len() && from >= latest.len() {
        false
    } else if segment(current, from) != segment(latest, from) {
        segment(latest, from) > segment(current, from)
    } else {
        newer_from(current, latest, from + 1)
    }
}

fn segment_number(s: &str) -> (r: u64)
    ensures
        r == segment_value(s@),
{
    if !is_all_digits(s) {
        return 0;
    }
    match parse_unsigned(s) {
        Some(n) => n,
        None => 0,
    }
}

fn parse_version(version: &str) -> (r: Vec<u64>)
    ensures
        r@ == segments(version@),
{
    proof {
        reveal_strlit(".");
        reveal_strlit("v");
    }
    let parts = split(strip_all(version, "v").as_str(), ".");
    let ghost views = parts.deep_view();
    let mut out: Vec<u64> = Vec::new();
    let mut i: usize = 0;
    while i < parts.len()
        invariant
            i <= parts.len(),
            views == parts.deep_view(),
            out.len() == i,
            forall|k: int| 0 <= k < i ==> #[trigger] out@[k] == segment_value(views[k]),
        decreases parts.len() - i,
    {
        assert(views[i as int] == parts@[i as int]@);
        out.push(segment_number(parts[i].as_str()));
        i = i + 1;
    }
    assert(out@ =~= segments(version@));
    out
}

/// Whether `latest` is a strictly newer dotted version than `current`.
/// Non-numeric segments compare as 0; missing segments too — tolerant on
/// purpose, a malformed tag must never announce an update.
pub fn is_newer(current: &str, latest: &str) -> (r: bool)
    ensures
        r == newer_from(segments(current@), segments(latest@), 0),
{
    let ours = parse_version(current);
    let theirs = parse_version(latest);
    let mut i: usize = 0;
    while i < ours.len() || i < theirs.len()
        invariant
            i <= ours.len() || i <= theirs.len(),
            ours@ == segments(current@),
            theirs@ == segments(latest@),
            newer_from(ours@, theirs@, 0) == newer_from(ours@, theirs@, i as int),
        decreases ours.len() + theirs.len() - i,
    {
        let c: u64 = if i < ours.len() {
            ours[i]
        } else {
            0
        };
        let l: u64 = if i < theirs.len() {
            theirs[i]
        } else {
            0
        };
        if l != c {
            return l > c;
        }
        i = i + 1;
    }
    false
}

// ---- the latest release -------------------------------------------------------------------

/// The version that a release document announces, without the `v` prefix.
pub open spec fn announced_version(release: JsonView) -> Option<Seq<char>> {
    match release.member("tag_name"@) {
        Some(tag) => match tag.as_text() {
            Some(tag) => Some(stripped(tag, "v"@)),
            None => None,
        },
        None => None,
    }
}

/// The version that a release document announces, without the `v` prefix.
pub fn tag_version(release: &Json) -> (r: Option<String>)
    ensures
        r.deep_view() == announced_version(release@),
{
    proof {
        reveal_strlit("v");
    }
    match release.get("tag_name") {
        Some(tag) => match tag.as_str() {
            Some(tag) => Some(strip_all(tag, "v")),
            None => None,
        },
        None => None,
    }
}

/// The version that the reply of the release service announces, if the reply
/// is a release document.
pub fn release_version(reply: &[u8]) -> (r: Option<String>)
    ensures
        r.deep_view() == (match json_document(reply@) {
            Some(release) => announced_version(release),
            None => None,
        }),
{
    match parse_json(reply) {
        Some(release) => tag_version(&release),
        None => None,
    }
}

/// The update to announce: the latest version, if it is newer.
pub fn update_for(current: &str, latest: Option<String>) -> (r: Option<String>)
    ensures
        r.deep_view() == (match latest {
            Some(latest) => if newer_from(segments(current@), segments(latest@), 0) {
                Some(latest@)
            } else {
                None
            },
            None => None,
        }),
{
    match latest {
        Some(latest) => if is_newer(current, latest.as_str()) {
            Some(latest)
        } else {
            None
        },
        None => None,
    }
}

// ---- laws ---------------------------------------------------------------------------------

/// A version is never newer than itself, nor two newer than each other.
pub proof fn law_newer_is_strict(a: Seq<u64>, b: Seq<u64>, from: int)
    requires
        0 <= from,
    ensures
        !newer_from(a, a, from),
        !(newer_from(a, b, from) && newer_from(b, a, from)),
    decreases a.len() + b.len() + a.len() - from,
{
    if from < a.len() || from < b.len() {
        law_newer_is_strict(a, b, from + 1);
    }
}

proof fn lemma_ended(a: Seq<u64>, b: Seq<u64>, from: int)
    requires
        from >= a.len(),
        from >= b.len(),
    ensures
        !newer_from(a, b, from),
{
}

/// Newer than newer is newer.
pub proof fn law_newer_is_transitive(a: Seq<u64>, b: Seq<u64>, c: Seq<u64>, from: int)
    requires
        0 <= from,
        newer_from(a, b, from),
        newer_from(b, c, from),
    ensures
        newer_from(a, c, from),
    decreases a.len() + b.len() + c.len() - from,
{
    let x = segment(a, from);
    let y = segment(b, from);
    let z = segment(c, from);
    if x == y && y == z {
        law_newer_is_transitive(a, b, c, from + 1);
        if from >= a.len() && from >= c.len() {
            lemma_ended(a, c, from + 1);
        }
    }
}

/// Whether a segment decides that a version is newer: it is the first in which
/// they differ, and the greater one.
pub open spec fn decides(current: Seq<u64>, latest: Seq<u64>, i: int) -> bool {
    &&& segment(latest, i) > segment(current, i)
    &&& forall|k: int| 0 <= k < i ==> segment(latest, k) == segment(current, k)
}

proof fn lemma_some_segment_decides(current: Seq<u64>, latest: Seq<u64>, from: int)
    requires
        0 <= from,
        forall|k: int| 0 <= k < from ==> segment(latest, k) == segment(current, k),
        newer_from(current, latest, from),
    ensures
        exists|i: int| 0 <= i < latest.len() && decides(current, latest, i),
    decreases current.len() + latest.len() - from,
{
    if segment(current, from) != segment(latest, from) {
        assert(decides(current, latest, from));
    } else {
        lemma_some_segment_decides(current, latest, from + 1);
    }
}

/// A malformed tag never announces an update: an update is announced only by a
/// segment that is a number, greater than what it is compared with, behind
/// segments that are equal. A segment with anything but digits counts as 0 and
/// announces nothing, nor does a tag made of such segments.
pub proof fn law_malformed_tags_announce_nothing(current: Seq<char>, latest: Seq<char>)
    ensures
        ({
            let parts = all_fields(stripped(latest, "v"@), "."@);
            let announced = newer_from(segments(current), segments(latest), 0);
            &&& announced ==> exists|i: int|
                0 <= i < parts.len() && is_number(#[trigger] parts[i]) && decides(
                    segments(current),
                    segments(latest),
                    i,
                )
            &&& forall|i: int|
                0 <= i < parts.len() && !is_number(#[trigger] parts[i]) ==> segments(latest)[i] == 0
            &&& (forall|i: int| 0 <= i < parts.len() ==> !is_number(#[trigger] parts[i]))
                ==> !announced
        }),
{
    let parts = all_fields(stripped(latest, "v"@), "."@);
    let theirs = segments(latest);
    let ours = segments(current);
    assert forall|i: int| 0 <= i < parts.len() && !is_number(#[trigger] parts[i]) implies theirs[i]
        == 0 by {
        assert(theirs[i] == segment_value(parts[i]));
    }
    if newer_from(ours, theirs, 0) {
        lemma_some_segment_decides(ours, theirs, 0);
        let i = choose|i: int| 0 <= i < theirs.len() && decides(ours, theirs, i);
        assert(theirs[i] == segment_value(parts[i]));
        assert(is_number(parts[i]));
    }
}

/// Of two versions the newer is decided by the first segment in which they
/// differ, a missing one counting as 0, and one of two versions that differ
/// in some segment is the newer.
pub proof fn law_first_difference_decides(current: Seq<u64>, latest: Seq<u64>, i: int)
    requires
        0 <= i,
        segment(current, i) != segment(latest, i),
        forall|k: int| 0 <= k < i ==> segment(current, k) == #[trigger] segment(latest, k),
    ensures
        newer_from(current, latest, 0) <==> segment(latest, i) > segment(current, i),
{
    lemma_first_difference(current, latest, 0, i);
}

proof fn lemma_first_difference(current: Seq<u64>, latest: Seq<u64>, from: int, i: int)
    requires
        0 <= from <= i,
        segment(current, i) != segment(latest, i),
        forall|k: int| 0 <= k < i ==> segment(current, k) == #[trigger] segment(latest, k),
    ensures
        newer_from(current, latest, from) <==> segment(latest, i) > segment(current, i),
    decreases i - from,
{
    if from < i {
        assert(segment(current, from) == segment(latest, from));
        lemma_first_difference(current, latest, from + 1, i);
    }
}

} // verus!
