//! Cutting texts into pieces and putting pieces together.

use vstd::prelude::*;

use crate::text::{chars, text_range, white_space, position_from};
use crate::text::{find_from, holds, is_space, lemma_find_from};

verus! {

// ---- splitting at a separator -----------------------------------------------

/// The fields of `s` between occurrences of `sep`: at most `limit` of them, the
/// last one holding whatever is left.
pub open spec fn fields(s: Seq<char>, sep: Seq<char>, limit: nat) -> Seq<Seq<char>>
    decreases s.len(), limit,
{
    if limit <= 1 || sep.len() == 0 {
        seq![s]
    } else {
        match find_from(s, sep, 0) {
            Some(i) => {
                if 0 <= i && i + sep.len() <= s.len() {
                    seq![s.take(i)] + fields(s.skip(i + sep.len()), sep, (limit - 1) as nat)
                } else {
                    seq![s]
                }
            },
            None => seq![s],
        }
    }
}

/// All the fields of `s` between occurrences of `sep`.
pub open spec fn all_fields(s: Seq<char>, sep: Seq<char>) -> Seq<Seq<char>> {
    fields(s, sep, s.len() + 1)
}

/// A limit above the length of the text cuts nothing short.
proof fn lemma_fields_limit(s: Seq<char>, sep: Seq<char>, a: nat, b: nat)
    requires
        a > s.len(),
        b > s.len(),
    ensures
        fields(s, sep, a) == fields(s, sep, b),
    decreases s.len(),
{
    lemma_find_from(s, sep, 0);
    if sep.len() > 0 {
        if s.len() == 0 {
        } else if let Some(i) = find_from(s, sep, 0) {
            lemma_fields_limit(
                s.skip(i + sep.len()),
                sep,
                (a - 1) as nat,
                (b - 1) as nat,
            );
        }
    }
}

/// Where the separator is searched from does not matter beyond the offset.
proof fn lemma_find_skip(s: Seq<char>, sep: Seq<char>, from: int, at: int)
    requires
        0 <= from <= at,
        from <= s.len(),
    ensures
        find_from(s.skip(from), sep, at - from) == (match find_from(s, sep, at) {
            Some(i) => Some(i - from),
            None => None,
        }),
    decreases s.len() + 1 - at,
{
    if at + sep.len() <= s.len() {
        assert(s.skip(from).subrange(at - from, at - from + sep.len()) =~= s.subrange(
            at,
            at + sep.len(),
        ));
        if s.subrange(at, at + sep.len()) != sep {
            lemma_find_skip(s, sep, from, at + 1);
        }
    }
}

/// `s` cut at occurrences of `sep` into at most `limit` fields.
pub fn split_at_most(s: &str, sep: &str, limit: usize) -> (r: Vec<String>)
    requires
        sep@.len() > 0,
        limit > 0,
    ensures
        r.deep_view() == fields(s@, sep@, limit as nat),
{
    let v = chars(s);
    let n = chars(sep);
    let mut out: Vec<String> = Vec::new();
    let mut start: usize = 0;
    let mut left: usize = limit;
    let ghost whole = fields(s@, sep@, limit as nat);
    proof {
        assert(s@.skip(0) =~= s@);
        assert(out.deep_view() + whole =~= whole);
    }
    while left > 1
        invariant
            v@ == s@,
            n@ == sep@,
            sep@.len() > 0,
            start <= v.len(),
            left > 0,
            whole == out.deep_view() + fields(s@.skip(start as int), sep@, left as nat),
        decreases left,
    {
        proof {
            lemma_find_skip(s@, sep@, start as int, start as int);
            lemma_find_from(s@, sep@, start as int);
        }
        match position_from(&v, &n, start) {
            Some(i) => {
                let field = text_range(&v, start, i);
                let ghost before = out.deep_view();
                let ghost rest = s@.skip(start as int);
                proof {
                    assert(rest.take(i - start) =~= v@.subrange(start as int, i as int));
                    assert(rest.skip(i - start + sep@.len()) =~= s@.skip(i + sep@.len()));
                }
                out.push(field);
                proof {
                    assert(out.deep_view() =~= before.push(field@));
                    assert(before + (seq![field@] + fields(
                        s@.skip(i + sep@.len()),
                        sep@,
                        (left - 1) as nat,
                    )) =~= out.deep_view() + fields(
                        s@.skip(i + sep@.len()),
                        sep@,
                        (left - 1) as nat,
                    ));
                }
                start = i + n.len();
                left = left - 1;
            },
            None => {
                left = 1;
            },
        }
    }
    let field = text_range(&v, start, v.len());
    let ghost before = out.deep_view();
    proof {
        assert(v@.subrange(start as int, v.len() as int) =~= s@.skip(start as int));
    }
    out.push(field);
    proof {
        assert(out.deep_view() =~= before.push(field@));
    }
    out
}

/// `s` cut at every occurrence of `sep`.
pub fn split(s: &str, sep: &str) -> (r: Vec<String>)
    requires
        sep@.len() > 0,
    ensures
        r.deep_view() == all_fields(s@, sep@),
{
    let v = chars(s);
    let n = chars(sep);
    let mut out: Vec<String> = Vec::new();
    let mut start: usize = 0;
    let ghost whole = all_fields(s@, sep@);
    proof {
        assert(s@.skip(0) =~= s@);
        assert(out.deep_view() + whole =~= whole);
    }
    loop
        invariant
            v@ == s@,
            n@ == sep@,
            sep@.len() > 0,
            start <= v.len(),
            whole == all_fields(s@, sep@),
            whole == out.deep_view() + all_fields(s@.skip(start as int), sep@),
        decreases v.len() - start,
    {
        proof {
            lemma_find_skip(s@, sep@, start as int, start as int);
            lemma_find_from(s@, sep@, start as int);
        }
        let ghost before = out.deep_view();
        let ghost rest = s@.skip(start as int);
        match position_from(&v, &n, start) {
            Some(i) => {
                let field = text_range(&v, start, i);
                let ghost later = s@.skip(i + sep@.len());
                proof {
                    assert(rest.take(i - start) =~= v@.subrange(start as int, i as int));
                    assert(rest.skip(i - start + sep@.len()) =~= later);
                    lemma_fields_limit(later, sep@, rest.len(), later.len() + 1);
                }
                out.push(field);
                proof {
                    assert(out.deep_view() =~= before.push(field@));
                    assert(before + (seq![field@] + all_fields(later, sep@)) =~= out.deep_view()
                        + all_fields(later, sep@));
                }
                start = i + n.len();
            },
            None => {
                let field = text_range(&v, start, v.len());
                proof {
                    assert(v@.subrange(start as int, v.len() as int) =~= rest);
                }
                out.push(field);
                proof {
                    assert(out.deep_view() =~= before.push(field@));
                    assert(before + seq![rest] =~= out.deep_view());
                }
                return out;
            },
        }
    }
}

// ---- white space ------------------------------------------------------------

/// How many characters at the front of `s` are white space.
pub open spec fn leading_space(s: Seq<char>) -> nat
    decreases s.len(),
{
    if s.len() > 0 && is_space(s[0]) {
        1 + leading_space(s.skip(1))
    } else {
        0
    }
}

/// How many characters at the front of `s` are not white space.
pub open spec fn leading_word(s: Seq<char>) -> nat
    decreases s.len(),
{
    if s.len() > 0 && !is_space(s[0]) {
        1 + leading_word(s.skip(1))
    } else {
        0
    }
}

/// `s` without the white space at its end.
pub open spec fn trimmed_end(s: Seq<char>) -> Seq<char>
    decreases s.len(),
{
    if s.len() > 0 && is_space(s.last()) {
        trimmed_end(s.drop_last())
    } else {
        s
    }
}

/// `s` without the white space at either end.
pub open spec fn trimmed(s: Seq<char>) -> Seq<char> {
    trimmed_end(s.skip(leading_space(s) as int))
}

/// The words of `s`: its maximal runs of characters that are not white space.
pub open spec fn words(s: Seq<char>) -> Seq<Seq<char>>
    decreases s.len(),
{
    if s.len() == 0 {
        seq![]
    } else if is_space(s[0]) {
        words(s.skip(1))
    } else {
        let n = leading_word(s) as int;
        if 0 < n <= s.len() {
            seq![s.take(n)] + words(s.skip(n))
        } else {
            seq![]
        }
    }
}

proof fn lemma_leading(s: Seq<char>)
    ensures
        leading_space(s) <= s.len(),
        leading_word(s) <= s.len(),
    decreases s.len(),
{
    if s.len() > 0 {
        lemma_leading(s.skip(1));
    }
}

/// The end of the run of white space (or of other characters) at `from`.
fn run_end(v: &Vec<char>, from: usize, space: bool) -> (r: usize)
    requires
        from <= v.len(),
    ensures
        from <= r <= v.len(),
        space ==> r - from == leading_space(v@.skip(from as int)),
        !space ==> r - from == leading_word(v@.skip(from as int)),
{
    let mut i: usize = from;
    while i < v.len() && white_space(v[i]) == space
        invariant
            from <= i <= v.len(),
            space ==> leading_space(v@.skip(from as int)) == i - from + leading_space(
                v@.skip(i as int),
            ),
            !space ==> leading_word(v@.skip(from as int)) == i - from + leading_word(
                v@.skip(i as int),
            ),
        decreases v.len() - i,
    {
        proof {
            assert(v@.skip(i as int).skip(1) =~= v@.skip(i + 1));
            assert(v@.skip(i as int)[0] == v@[i as int]);
        }
        i = i + 1;
    }
    proof {
        if i < v.len() {
            assert(v@.skip(i as int)[0] == v@[i as int]);
        }
    }
    i
}

/// `s` without the white space at either end.
pub fn trim(s: &str) -> (r: String)
    ensures
        r@ == trimmed(s@),
{
    let v = chars(s);
    proof {
        assert(v@.skip(0) =~= v@);
    }
    let start = run_end(&v, 0, true);
    let mut end: usize = v.len();
    proof {
        assert(v@.subrange(start as int, end as int) =~= v@.skip(start as int));
    }
    while start < end && white_space(v[end - 1])
        invariant
            start <= end <= v.len(),
            trimmed_end(v@.skip(start as int)) == trimmed_end(
                v@.subrange(start as int, end as int),
            ),
        decreases end,
    {
        proof {
            assert(v@.subrange(start as int, end as int).drop_last() =~= v@.subrange(
                start as int,
                end - 1,
            ));
        }
        end = end - 1;
    }
    text_range(&v, start, end)
}

/// The words of `s`.
pub fn split_words(s: &str) -> (r: Vec<String>)
    ensures
        r.deep_view() == words(s@),
{
    let v = chars(s);
    let mut out: Vec<String> = Vec::new();
    let mut i: usize = 0;
    proof {
        assert(v@.skip(0) =~= v@);
        assert(out.deep_view() + words(s@) =~= words(s@));
    }
    while i < v.len()
        invariant
            i <= v.len(),
            v@ == s@,
            words(s@) == out.deep_view() + words(v@.skip(i as int)),
        decreases v.len() - i,
    {
        let ghost rest = v@.skip(i as int);
        let ghost before = out.deep_view();
        if white_space(v[i]) {
            proof {
                assert(rest[0] == v@[i as int]);
                assert(rest.skip(1) =~= v@.skip(i + 1));
            }
            i = i + 1;
        } else {
            let end = run_end(&v, i, false);
            proof {
                assert(rest[0] == v@[i as int]);
                reveal_with_fuel(leading_word, 2);
                lemma_leading(rest);
                assert(rest.take(end - i) =~= v@.subrange(i as int, end as int));
                assert(rest.skip(end - i) =~= v@.skip(end as int));
            }
            let word = text_range(&v, i, end);
            out.push(word);
            proof {
                assert(out.deep_view() =~= before.push(word@));
                assert(before + (seq![word@] + words(v@.skip(end as int))) =~= out.deep_view()
                    + words(v@.skip(end as int)));
            }
            i = end;
        }
    }
    proof {
        assert(out.deep_view() + words(v@.skip(i as int)) =~= out.deep_view());
    }
    out
}

// ---- joining ----------------------------------------------------------------

/// The texts put together with `sep` between them.
pub open spec fn joined(parts: Seq<Seq<char>>, sep: Seq<char>) -> Seq<char>
    decreases parts.len(),
{
    if parts.len() == 0 {
        seq![]
    } else if parts.len() == 1 {
        parts[0]
    } else {
        joined(parts.drop_last(), sep) + sep + parts.last()
    }
}

/// The strings put together with `sep` between them.
pub fn join(parts: &Vec<String>, sep: &str) -> (r: String)
    ensures
        r@ == joined(parts.deep_view(), sep@),
{
    let mut out = String::new();
    let mut i: usize = 0;
    let ghost views = parts.deep_view();
    while i < parts.len()
        invariant
            i <= parts.len(),
            views == parts.deep_view(),
            out@ == joined(views.take(i as int), sep@),
        decreases parts.len() - i,
    {
        if i > 0 {
            out.append(sep);
        }
        out.append(parts[i].as_str());
        proof {
            assert(views.take(i + 1).drop_last() =~= views.take(i as int));
            if i == 0 {
                assert(out@ =~= views[0]);
            }
        }
        i = i + 1;
    }
    proof {
        assert(views.take(i as int) =~= views);
    }
    out
}

// ---- replacing --------------------------------------------------------------

/// `s` with every `c` replaced by `by`.
pub open spec fn replaced(s: Seq<char>, c: char, by: Seq<char>) -> Seq<char>
    decreases s.len(),
{
    if s.len() == 0 {
        seq![]
    } else {
        replaced(s.drop_last(), c, by) + (if s.last() == c {
            by
        } else {
            seq![s.last()]
        })
    }
}

/// `s` with every `c` replaced by `by`.
pub fn replace_char(s: &str, c: char, by: &str) -> (r: String)
    ensures
        r@ == replaced(s@, c, by@),
{
    let v = chars(s);
    let mut out = String::new();
    let mut i: usize = 0;
    while i < v.len()
        invariant
            i <= v.len(),
            v@ == s@,
            out@ == replaced(v@.take(i as int), c, by@),
        decreases v.len() - i,
    {
        let ghost before = out@;
        if v[i] == c {
            out.append(by);
        } else {
            out.push(v[i]);
            proof {
                assert(out@ =~= before + seq![v@[i as int]]);
            }
        }
        proof {
            assert(v@.take(i + 1).drop_last() =~= v@.take(i as int));
        }
        i = i + 1;
    }
    proof {
        assert(v@.take(i as int) =~= s@);
    }
    out
}

// ---- laws ---------------------------------------------------------------------------------

/// Whether a stretch of a text is all white space.
pub open spec fn is_blank(s: Seq<char>) -> bool {
    forall|i: int| 0 <= i < s.len() ==> is_space(#[trigger] s[i])
}

/// Trimming takes white space off the ends and nothing else: the text is what
/// is left with blank stretches around it, and what is left neither begins nor
/// ends with white space.
pub proof fn law_trimming_takes_off_white_space(s: Seq<char>)
    ensures
        exists|before: Seq<char>, after: Seq<char>|
            is_blank(before) && is_blank(after) && #[trigger] (before + trimmed(s) + after) == s,
        trimmed(s).len() > 0 ==> !is_space(trimmed(s)[0]) && !is_space(trimmed(s).last()),
{
    lemma_leading(s);
    lemma_leading_is_blank(s);
    let n = leading_space(s) as int;
    let rest = s.skip(n);
    lemma_trimmed_end(rest);
    let t = trimmed(s);
    let before = s.take(n);
    let after = rest.skip(t.len() as int);
    assert(before + t + after =~= s);
    if t.len() > 0 {
        assert(t[0] == rest[0]);
    }
}

proof fn lemma_leading_is_blank(s: Seq<char>)
    ensures
        leading_space(s) <= s.len(),
        is_blank(s.take(leading_space(s) as int)),
        leading_space(s) < s.len() ==> !is_space(s[leading_space(s) as int]),
    decreases s.len(),
{
    if s.len() > 0 && is_space(s[0]) {
        let rest = s.skip(1);
        lemma_leading_is_blank(rest);
        let n = leading_space(s) as int;
        assert forall|i: int| 0 <= i < n implies is_space(#[trigger] s.take(n)[i]) by {
            if i > 0 {
                assert(rest.take(n - 1)[i - 1] == s[i]);
            }
        }
    }
}

proof fn lemma_trimmed_end(s: Seq<char>)
    ensures
        trimmed_end(s).len() <= s.len(),
        trimmed_end(s) == s.take(trimmed_end(s).len() as int),
        is_blank(s.skip(trimmed_end(s).len() as int)),
        trimmed_end(s).len() > 0 ==> !is_space(trimmed_end(s).last()),
    decreases s.len(),
{
    if s.len() > 0 && is_space(s.last()) {
        let front = s.drop_last();
        lemma_trimmed_end(front);
        let n = trimmed_end(s).len() as int;
        assert(s.take(n) =~= front.take(n));
        assert forall|i: int| 0 <= i < s.skip(n).len() implies is_space(
            #[trigger] s.skip(n)[i],
        ) by {
            if i < front.skip(n).len() {
                assert(front.skip(n)[i] == s.skip(n)[i]);
            }
        }
    } else {
        assert(s.take(s.len() as int) =~= s);
    }
}

proof fn lemma_joined_front(first: Seq<char>, rest: Seq<Seq<char>>, sep: Seq<char>)
    requires
        rest.len() > 0,
    ensures
        joined(seq![first] + rest, sep) == first + sep + joined(rest, sep),
    decreases rest.len(),
{
    let all = seq![first] + rest;
    if rest.len() == 1 {
        assert(all.drop_last() =~= seq![first]);
        assert(joined(all.drop_last(), sep) == first);
    } else {
        assert(all.drop_last() =~= seq![first] + rest.drop_last());
        lemma_joined_front(first, rest.drop_last(), sep);
        assert(joined(all, sep) =~= first + sep + joined(rest, sep));
    }
}

proof fn lemma_fields_join(s: Seq<char>, sep: Seq<char>, limit: nat)
    ensures
        joined(fields(s, sep, limit), sep) == s,
        fields(s, sep, limit).len() > 0,
        limit > 0 ==> fields(s, sep, limit).len() <= limit,
    decreases s.len(), limit,
{
    if limit > 1 && sep.len() > 0 {
        lemma_find_from(s, sep, 0);
        if let Some(i) = find_from(s, sep, 0) {
            let rest = s.skip(i + sep.len());
            lemma_fields_join(rest, sep, (limit - 1) as nat);
            lemma_joined_front(s.take(i), fields(rest, sep, (limit - 1) as nat), sep);
            assert(s.take(i) + sep + rest =~= s);
        }
    }
}

proof fn lemma_fields_are_clear(s: Seq<char>, sep: Seq<char>, limit: nat, k: int)
    requires
        sep.len() > 0,
        0 <= k < fields(s, sep, limit).len(),
        k < limit - 1 || limit > s.len(),
    ensures
        !holds(fields(s, sep, limit)[k], sep),
    decreases s.len(), limit,
{
    if limit <= 1 {
        assert(s.len() == 0);
    } else {
        lemma_find_from(s, sep, 0);
        match find_from(s, sep, 0) {
            Some(i) => {
                let rest = s.skip(i + sep.len());
                if k > 0 {
                    assert(fields(s, sep, limit)[k] == fields(rest, sep, (limit - 1) as nat)[k
                        - 1]);
                    lemma_fields_are_clear(rest, sep, (limit - 1) as nat, k - 1);
                } else {
                    let first = s.take(i);
                    if holds(first, sep) {
                        let j = choose|j: int|
                            0 <= j && j + sep.len() <= first.len() && #[trigger] first.subrange(
                                j,
                                j + sep.len(),
                            ) == sep;
                        assert(s.subrange(j, j + sep.len()) =~= first.subrange(j, j + sep.len()));
                    }
                }
            },
            None => {},
        }
    }
}

/// A text is its fields with the separator between them, however many are
/// asked for, and every field but the last of a limited split is free of the
/// separator.
pub proof fn law_fields_join_back(s: Seq<char>, sep: Seq<char>, limit: nat)
    requires
        sep.len() > 0,
    ensures
        joined(fields(s, sep, limit), sep) == s,
        limit > 0 ==> fields(s, sep, limit).len() <= limit,
        forall|k: int|
            0 <= k < fields(s, sep, limit).len() && k < limit - 1 ==> !holds(
                #[trigger] fields(s, sep, limit)[k],
                sep,
            ),
        joined(all_fields(s, sep), sep) == s,
        forall|k: int|
            0 <= k < all_fields(s, sep).len() ==> !holds(#[trigger] all_fields(s, sep)[k], sep),
{
    lemma_fields_join(s, sep, limit);
    lemma_fields_join(s, sep, s.len() + 1);
    assert forall|k: int|
        0 <= k < fields(s, sep, limit).len() && k < limit - 1 implies !holds(
        #[trigger] fields(s, sep, limit)[k],
        sep,
    ) by {
        lemma_fields_are_clear(s, sep, limit, k);
    }
    assert forall|k: int| 0 <= k < all_fields(s, sep).len() implies !holds(
        #[trigger] all_fields(s, sep)[k],
        sep,
    ) by {
        lemma_fields_are_clear(s, sep, s.len() + 1, k);
    }
}

proof fn lemma_leading_word(s: Seq<char>)
    ensures
        leading_word(s) <= s.len(),
        forall|i: int| 0 <= i < leading_word(s) ==> !is_space(#[trigger] s[i]),
        leading_word(s) < s.len() ==> is_space(s[leading_word(s) as int]),
    decreases s.len(),
{
    if s.len() > 0 && !is_space(s[0]) {
        let rest = s.skip(1);
        lemma_leading_word(rest);
        assert forall|i: int| 0 <= i < leading_word(s) implies !is_space(#[trigger] s[i]) by {
            if i > 0 {
                assert(rest[i - 1] == s[i]);
            }
        }
    }
}

proof fn lemma_leading_word_ends(a: Seq<char>, gap: char, b: Seq<char>)
    requires
        is_space(gap),
    ensures
        leading_word(a + seq![gap] + b) == leading_word(a),
    decreases a.len(),
{
    let all = a + seq![gap] + b;
    if a.len() > 0 && !is_space(a[0]) {
        assert(all.skip(1) =~= a.skip(1) + seq![gap] + b);
        lemma_leading_word_ends(a.skip(1), gap, b);
    } else if a.len() == 0 {
        assert(all[0] == gap);
    }
}

/// White space divides a text into words: a text without any is one word, a
/// blank text has none, and the words on both sides of white space are those
/// of each side.
pub proof fn law_words_stand_between_white_space(a: Seq<char>, gap: char, b: Seq<char>)
    requires
        is_space(gap),
    ensures
        words(a + seq![gap] + b) == words(a) + words(b),
        is_blank(a) ==> words(a).len() == 0,
        a.len() > 0 && (forall|i: int| 0 <= i < a.len() ==> !is_space(#[trigger] a[i])) ==> words(a)
            == seq![a],
    decreases a.len(),
{
    let all = a + seq![gap] + b;
    if a.len() == 0 {
        assert(all.skip(1) =~= b);
        assert(words(a) + words(b) =~= words(b));
    } else if is_space(a[0]) {
        assert(all.skip(1) =~= a.skip(1) + seq![gap] + b);
        law_words_stand_between_white_space(a.skip(1), gap, b);
        if is_blank(a) {
            assert forall|i: int| 0 <= i < a.skip(1).len() implies is_space(
                #[trigger] a.skip(1)[i],
            ) by {
                assert(is_space(a[i + 1]));
            }
        }
    } else {
        lemma_leading_word_ends(a, gap, b);
        lemma_leading_word(a);
        let n = leading_word(a) as int;
        assert(all.take(n) =~= a.take(n));
        assert(all.skip(n) =~= a.skip(n) + seq![gap] + b);
        law_words_stand_between_white_space(a.skip(n), gap, b);
        assert(words(all) =~= words(a) + words(b));
        if forall|i: int| 0 <= i < a.len() ==> !is_space(#[trigger] a[i]) {
            if n < a.len() {
                assert(is_space(a[n]));
            }
            assert(a.take(n) =~= a);
            assert(a.skip(n) =~= seq![]);
            assert(words(a) =~= seq![a]);
        }
    }
}

/// Replacing a character takes every place where it stands, one after another,
/// and nothing else.
pub proof fn law_replacing_goes_place_by_place(a: Seq<char>, b: Seq<char>, c: char, by: Seq<char>)
    ensures
        replaced(a + b, c, by) == replaced(a, c, by) + replaced(b, c, by),
        replaced(seq![c], c, by) == by,
        !a.contains(c) ==> replaced(a, c, by) == a,
    decreases a.len() + b.len(),
{
    assert(seq![c].drop_last() =~= seq![]);
    assert(replaced(seq![], c, by) =~= seq![]);
    assert(replaced(seq![c], c, by) =~= by);
    if b.len() > 0 {
        assert((a + b).drop_last() =~= a + b.drop_last());
        law_replacing_goes_place_by_place(a, b.drop_last(), c, by);
        assert(replaced(a + b, c, by) =~= replaced(a, c, by) + replaced(b, c, by));
    } else {
        assert(a + b =~= a);
        assert(replaced(b, c, by) =~= seq![]);
        if a.len() > 0 {
            law_replacing_goes_place_by_place(a.drop_last(), b, c, by);
            if !a.contains(c) {
                assert(a.last() != c) by {
                    assert(a[a.len() - 1] == a.last());
                }
                assert(!a.drop_last().contains(c)) by {
                    assert forall|i: int| 0 <= i < a.len() - 1 implies a.drop_last()[i] != c by {
                        assert(a[i] == a.drop_last()[i]);
                    }
                }
                assert(replaced(a, c, by) =~= a);
            }
        }
    }
}

/// The fields on both sides of a separator are those of each side.
pub proof fn law_separators_divide_fields(a: Seq<char>, sep: char, b: Seq<char>)
    ensures
        all_fields(a + seq![sep] + b, seq![sep]) == all_fields(a, seq![sep]) + all_fields(
            b,
            seq![sep],
        ),
    decreases a.len(),
{
    let s = a + seq![sep] + b;
    let needle = seq![sep];
    let at = a.len() as int;
    lemma_find_from(a, needle, 0);
    lemma_find_from(s, needle, 0);
    assert(s.subrange(at, at + 1) =~= needle);
    let found = find_from(s, needle, 0)->0;
    assert(find_from(s, needle, 0) is Some) by {
        if find_from(s, needle, 0) is None {
            assert(s.subrange(at, at + needle.len()) != needle);
        }
    }
    assert(found <= at) by {
        if found > at {
            assert(s.subrange(at, at + needle.len()) != needle);
        }
    }
    match find_from(a, needle, 0) {
        Some(i) => {
            assert(s.subrange(i, i + 1) =~= a.subrange(i, i + 1));
            assert(found <= i) by {
                if found > i {
                    assert(s.subrange(i, i + needle.len()) != needle);
                }
            }
            if found < i {
                assert(a.subrange(found, found + 1) =~= s.subrange(found, found + 1));
                assert(a.subrange(found, found + needle.len()) != needle);
            }
            let rest = a.skip(i + 1);
            assert(s.skip(i + 1) =~= rest + seq![sep] + b);
            assert(s.take(i) =~= a.take(i));
            law_separators_divide_fields(rest, sep, b);
            lemma_fields_limit(s.skip(i + 1), needle, s.len(), s.skip(i + 1).len() + 1);
            lemma_fields_limit(rest, needle, a.len(), rest.len() + 1);
            assert(all_fields(s, needle) =~= all_fields(a, needle) + all_fields(b, needle));
        },
        None => {
            if found < at {
                assert(a.subrange(found, found + 1) =~= s.subrange(found, found + 1));
                assert(a.subrange(found, found + needle.len()) != needle);
            }
            assert(s.take(at) =~= a);
            assert(s.skip(at + 1) =~= b);
            lemma_fields_limit(b, needle, s.len(), b.len() + 1);
            assert(all_fields(s, needle) =~= seq![a] + all_fields(b, needle));
            assert(all_fields(a, needle) =~= seq![a]);
        },
    }
}

} // verus!
