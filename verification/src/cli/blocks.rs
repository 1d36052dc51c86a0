//! The marked block through which the panel is wired into a configuration
//! file.
//!
//! Everything written is confined to the block, so that it can be removed
//! again surgically.

use vstd::prelude::*;

use crate::text::{chars, ends_with, position_from, same, strip_prefix, text_range};
use crate::text::{begins, finishes, find_from, holds, lemma_find_from, without_prefix};

verus! {

/// The line before the block.
pub const BLOCK_BEGIN: &'static str = "# >>> omarchy-workspaces panel >>>";

/// The line behind the block.
pub const BLOCK_END: &'static str = "# <<< omarchy-workspaces panel <<<";

/// The block with its markers.
pub open spec fn block(body: Seq<char>) -> Seq<char> {
    BLOCK_BEGIN@ + "\n"@ + body + "\n"@ + BLOCK_END@ + "\n"@
}

/// A text without one line break at its beginning.
pub open spec fn past_line_break(s: Seq<char>) -> Seq<char> {
    match without_prefix(s, "\n"@) {
        Some(rest) => rest,
        None => s,
    }
}

/// A text that ends with a line break, if it holds anything.
pub open spec fn closed_line(s: Seq<char>) -> Seq<char> {
    if s.len() > 0 && !finishes(s, "\n"@) {
        s + "\n"@
    } else {
        s
    }
}

/// A text with the block replaced, or put at its end if it has none.
pub open spec fn upserted(existing: Seq<char>, body: Seq<char>) -> Seq<char> {
    match (find_from(existing, BLOCK_BEGIN@, 0), find_from(existing, BLOCK_END@, 0)) {
        (Some(start), Some(end)) => existing.take(start) + block(body) + past_line_break(
            existing.skip(end + BLOCK_END@.len()),
        ),
        _ => closed_line(existing) + block(body),
    }
}

/// A text without the block, if it has one.
pub open spec fn removed(existing: Seq<char>) -> Option<Seq<char>> {
    match (find_from(existing, BLOCK_BEGIN@, 0), find_from(existing, BLOCK_END@, 0)) {
        (Some(start), Some(end)) => Some(
            existing.take(start) + past_line_break(existing.skip(end + BLOCK_END@.len())),
        ),
        _ => None,
    }
}

fn find(s: &Vec<char>, needle: &str) -> (r: Option<usize>)
    ensures
        match (r, find_from(s@, needle@, 0)) {
            (Some(i), Some(j)) => i == j && i + needle@.len() <= s.len(),
            (None, None) => true,
            _ => false,
        },
{
    position_from(s, &chars(needle), 0)
}

fn behind_block(v: &Vec<char>, end: usize) -> (r: String)
    requires
        end + BLOCK_END@.len() <= v.len(),
    ensures
        r@ == past_line_break(v@.skip(end + BLOCK_END@.len())),
{
    let n: usize = chars(BLOCK_END).len();
    let rest = text_range(v, end + n, v.len());
    assert(rest@ =~= v@.skip(end + BLOCK_END@.len()));
    match strip_prefix(rest.as_str(), "\n") {
        Some(rest) => rest,
        None => rest,
    }
}

/// Replace or append our marked block. Says whether the text changed.
pub fn upsert_block(existing: &str, body: &str) -> (r: (String, bool))
    ensures
        r.0@ == upserted(existing@, body@),
        r.1 == (upserted(existing@, body@) != existing@),
{
    let v = chars(existing);
    let updated = match (find(&v, BLOCK_BEGIN), find(&v, BLOCK_END)) {
        (Some(start), Some(end)) => {
            let mut next = text_range(&v, 0, start);
            assert(next@ =~= existing@.take(start as int));
            push_block(&mut next, body);
            next.append(behind_block(&v, end).as_str());
            next
        },
        _ => {
            let mut next = existing.to_owned();
            if v.len() > 0 && !ends_with(existing, "\n") {
                next.append("\n");
            }
            push_block(&mut next, body);
            next
        },
    };
    let changed = !same(updated.as_str(), existing);
    (updated, changed)
}

fn push_block(text: &mut String, body: &str)
    ensures
        final(text)@ == old(text)@ + block(body@),
{
    let ghost before = text@;
    text.append(BLOCK_BEGIN);
    text.append("\n");
    text.append(body);
    text.append("\n");
    text.append(BLOCK_END);
    text.append("\n");
    assert(text@ =~= before + block(body@));
}

/// Remove our marked block; nothing where there is none.
pub fn remove_block(existing: &str) -> (r: Option<String>)
    ensures
        r.deep_view() == removed(existing@),
{
    let v = chars(existing);
    match (find(&v, BLOCK_BEGIN), find(&v, BLOCK_END)) {
        (Some(start), Some(end)) => {
            let mut next = text_range(&v, 0, start);
            assert(next@ =~= existing@.take(start as int));
            next.append(behind_block(&v, end).as_str());
            Some(next)
        },
        _ => None,
    }
}

/// Whether the block is there, as far as its first line tells.
pub fn has_block(existing: &str) -> (r: bool)
    ensures
        r == holds(existing@, BLOCK_BEGIN@),
{
    crate::text::contains(existing, BLOCK_BEGIN)
}

// ---- laws ---------------------------------------------------------------------------------

/// Whether a text holds neither marker.
pub open spec fn is_unmarked(s: Seq<char>) -> bool {
    !holds(s, BLOCK_BEGIN@) && !holds(s, BLOCK_END@)
}

proof fn lemma_markers()
    ensures
        BLOCK_BEGIN@.len() == 34,
        BLOCK_END@.len() == 34,
        BLOCK_BEGIN@ != BLOCK_END@,
        forall|i: int| 0 <= i < 34 ==> #[trigger] BLOCK_BEGIN@[i] != '\n',
        forall|i: int| 0 <= i < 34 ==> #[trigger] BLOCK_END@[i] != '\n',
        "\n"@ == seq!['\n'],
{
    reveal_strlit("# >>> omarchy-workspaces panel >>>");
    reveal_strlit("# <<< omarchy-workspaces panel <<<");
    reveal_strlit("\n");
    assert(BLOCK_BEGIN@[2] != BLOCK_END@[2]);
    assert("\n"@ =~= seq!['\n']);
}

/// Where a marker without line breaks first occurs in a text with the block:
/// not before the line `line` if neither the text before the block nor the
/// body holds it.
proof fn lemma_first_marker(
    front: Seq<char>,
    body: Seq<char>,
    tail: Seq<char>,
    marker: Seq<char>,
    at: int,
)
    requires
        front.len() > 0 ==> front.last() == '\n',
        !holds(front, marker),
        !holds(body, marker),
        marker == BLOCK_BEGIN@ && at == front.len() || marker == BLOCK_END@ && at == front.len()
            + 36 + body.len(),
    ensures
        find_from(front + block(body) + tail, marker, 0) == Some(at),
{
    lemma_markers();
    let all = front + block(body) + tail;
    let n = front.len() as int;
    let m = body.len() as int;
    assert(block(body).len() == 34 + 1 + m + 1 + 34 + 1);
    assert(all[n + 34] == '\n');
    assert(all[n + 35 + m] == '\n');
    assert(all.subrange(n, n + 34) =~= BLOCK_BEGIN@);
    assert(all.subrange(n + 36 + m, n + 36 + m + 34) =~= BLOCK_END@);
    assert(all.subrange(n + 35, n + 35 + m) =~= body);
    lemma_find_from(all, marker, 0);
    assert forall|j: int| 0 <= j < at implies #[trigger] all.subrange(j, j + 34) != marker by {
        let part = all.subrange(j, j + 34);
        if part == marker {
            if j < n {
                // The line break before the block is not inside.
                if j + 34 > n - 1 {
                    assert(part[n - 1 - j] == '\n');
                }
                assert(front.subrange(j, j + 34) =~= part);
                assert(holds(front, marker));
            } else if j <= n + 34 {
                if j > n {
                    assert(part[n + 34 - j] == '\n');
                }
                assert(j == n);
                assert(part == BLOCK_BEGIN@);
            } else {
                if j + 34 > n + 35 + m {
                    assert(part[n + 35 + m - j] == '\n');
                }
                assert(body.subrange(j - n - 35, j - n - 35 + 34) =~= part);
                assert(holds(body, marker));
            }
        }
    }
    let found = find_from(all, marker, 0);
    match found {
        Some(i) => {
            if i > at {
                assert(all.subrange(at, at + 34) != marker);
            }
            assert(all.subrange(i, i + 34) == marker);
        },
        None => {
            assert(all.subrange(at, at + 34) != marker);
        },
    }
}

proof fn lemma_closed_is_unmarked(s: Seq<char>)
    requires
        is_unmarked(s),
    ensures
        is_unmarked(closed_line(s)),
        closed_line(s).len() > 0 ==> closed_line(s).last() == '\n',
{
    lemma_markers();
    let all = closed_line(s);
    if finishes(s, "\n"@) {
        assert(s.skip(s.len() - 1)[0] == '\n');
    }
    if all != s {
        assert(all == s + "\n"@);
        assert(all.last() == '\n');
        if holds(all, BLOCK_BEGIN@) {
            let i = choose|i: int|
                0 <= i && i + BLOCK_BEGIN@.len() <= all.len() && #[trigger] all.subrange(
                    i,
                    i + BLOCK_BEGIN@.len(),
                ) == BLOCK_BEGIN@;
            if i + 34 > s.len() {
                assert(all.subrange(i, i + 34)[33] == '\n');
            }
            assert(s.subrange(i, i + 34) =~= all.subrange(i, i + 34));
            assert(holds(s, BLOCK_BEGIN@));
        }
        if holds(all, BLOCK_END@) {
            let i = choose|i: int|
                0 <= i && i + BLOCK_END@.len() <= all.len() && #[trigger] all.subrange(
                    i,
                    i + BLOCK_END@.len(),
                ) == BLOCK_END@;
            if i + 34 > s.len() {
                assert(all.subrange(i, i + 34)[33] == '\n');
            }
            assert(s.subrange(i, i + 34) =~= all.subrange(i, i + 34));
            assert(holds(s, BLOCK_END@));
        }
    }
}

proof fn lemma_unmarked_not_found(s: Seq<char>)
    requires
        is_unmarked(s),
    ensures
        find_from(s, BLOCK_BEGIN@, 0) is None,
{
    lemma_find_from(s, BLOCK_BEGIN@, 0);
    if let Some(i) = find_from(s, BLOCK_BEGIN@, 0) {
        assert(holds(s, BLOCK_BEGIN@));
    }
}

proof fn lemma_block_found(existing: Seq<char>, body: Seq<char>)
    requires
        is_unmarked(existing),
        is_unmarked(body),
    ensures
        ({
            let front = closed_line(existing);
            let all = upserted(existing, body);
            &&& all == front + block(body)
            &&& find_from(all, BLOCK_BEGIN@, 0) == Some(front.len() as int)
            &&& find_from(all, BLOCK_END@, 0) == Some((front.len() + 36 + body.len()) as int)
            &&& all.take(front.len() as int) == front
            &&& past_line_break(all.skip((front.len() + 70 + body.len()) as int)) == Seq::<
                char,
            >::empty()
        }),
{
    lemma_markers();
    lemma_unmarked_not_found(existing);
    lemma_closed_is_unmarked(existing);
    let front = closed_line(existing);
    let all = front + block(body);
    assert(all + seq![] =~= all);
    lemma_first_marker(front, body, seq![], BLOCK_BEGIN@, front.len() as int);
    lemma_first_marker(front, body, seq![], BLOCK_END@, (front.len() + 36 + body.len()) as int);
    assert(all.take(front.len() as int) =~= front);
    let rest = all.skip((front.len() + 70 + body.len()) as int);
    assert(rest =~= "\n"@);
    assert(rest.take(1) =~= "\n"@);
    assert(rest.skip(1) =~= Seq::<char>::empty());
}

/// Putting the block in a second time replaces it in place: only the last
/// body counts, and the same body changes nothing.
pub proof fn law_upsert_replaces(existing: Seq<char>, first: Seq<char>, second: Seq<char>)
    requires
        is_unmarked(existing),
        is_unmarked(first),
        is_unmarked(second),
    ensures
        upserted(upserted(existing, first), second) == upserted(existing, second),
        upserted(upserted(existing, first), first) == upserted(existing, first),
{
    lemma_markers();
    lemma_block_found(existing, first);
    lemma_block_found(existing, second);
    let front = closed_line(existing);
    assert(front + block(second) + Seq::<char>::empty() =~= front + block(second));
    assert(front + block(first) + Seq::<char>::empty() =~= front + block(first));
}

/// Removing the block undoes putting it in, up to a line break at the end of
/// a text that had none; a text without the block is left alone.
pub proof fn law_remove_undoes_upsert(existing: Seq<char>, body: Seq<char>)
    requires
        is_unmarked(existing),
        is_unmarked(body),
    ensures
        removed(upserted(existing, body)) == Some(closed_line(existing)),
        removed(existing) is None,
        removed(closed_line(existing)) is None,
{
    lemma_markers();
    lemma_block_found(existing, body);
    lemma_unmarked_not_found(existing);
    lemma_closed_is_unmarked(existing);
    lemma_unmarked_not_found(closed_line(existing));
    assert(closed_line(existing) + Seq::<char>::empty() =~= closed_line(existing));
}

/// A text without the block gets it at its end, with the body between its
/// markers, and is otherwise kept, but for a line break in between.
pub proof fn law_new_blocks_stand_at_the_end(existing: Seq<char>, body: Seq<char>)
    requires
        is_unmarked(existing),
    ensures
        begins(upserted(existing, body), existing),
        finishes(
            upserted(existing, body),
            BLOCK_BEGIN@ + "\n"@ + body + "\n"@ + BLOCK_END@ + "\n"@,
        ),
        upserted(existing, body).len() <= existing.len() + 1 + (BLOCK_BEGIN@ + "\n"@ + body + "\n"@
            + BLOCK_END@ + "\n"@).len(),
{
    reveal_strlit("\n");
    lemma_find_from(existing, BLOCK_BEGIN@, 0);
    if let Some(i) = find_from(existing, BLOCK_BEGIN@, 0) {
        assert(existing.subrange(i, i + BLOCK_BEGIN@.len()) == BLOCK_BEGIN@);
    }
    let all = upserted(existing, body);
    let end = block(body);
    assert(all == closed_line(existing) + end);
    assert(all.take(existing.len() as int) =~= existing);
    assert(all.skip(all.len() - end.len()) =~= end);
}

/// A block is replaced, or taken out, where it stands: the text in front of it
/// and behind it stays.
pub proof fn law_blocks_are_replaced_in_place(
    front: Seq<char>,
    body: Seq<char>,
    tail: Seq<char>,
    other: Seq<char>,
)
    requires
        is_unmarked(front),
        is_unmarked(body),
        front.len() > 0 ==> front.last() == '\n',
    ensures
        upserted(front + block(body) + tail, other) == front + block(other) + tail,
        removed(front + block(body) + tail) == Some(front + tail),
{
    lemma_markers();
    let all = front + block(body) + tail;
    let start = front.len() as int;
    let end = (front.len() + 36 + body.len()) as int;
    lemma_first_marker(front, body, tail, BLOCK_BEGIN@, start);
    lemma_first_marker(front, body, tail, BLOCK_END@, end);
    assert(all.take(start) =~= front);
    let rest = all.skip(end + BLOCK_END@.len());
    assert(rest =~= "\n"@ + tail);
    assert(rest.take(1) =~= "\n"@);
    assert(rest.skip(1) =~= tail);
    assert(past_line_break(rest) == tail);
}

} // verus!
