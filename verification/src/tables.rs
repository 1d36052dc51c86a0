//! Lists of rows with distinct keys, read as maps.

use vstd::prelude::*;

verus! {

/// No two rows have the same key.
pub open spec fn distinct<K, V>(rows: Seq<V>, key: spec_fn(V) -> K) -> bool {
    forall|i: int, j: int|
        0 <= i < j < rows.len() ==> #[trigger] key(rows[i]) != #[trigger] key(rows[j])
}

/// Row `i` has the key `k`.
pub open spec fn row_at<K, V>(rows: Seq<V>, key: spec_fn(V) -> K, k: K, i: int) -> bool {
    0 <= i < rows.len() && key(rows[i]) == k
}

/// The map from keys to rows.
pub open spec fn table<K, V>(rows: Seq<V>, key: spec_fn(V) -> K) -> Map<K, V> {
    Map::new(
        |k: K| exists|i: int| #[trigger] row_at(rows, key, k, i),
        |k: K| rows[choose|i: int| #[trigger] row_at(rows, key, k, i)],
    )
}

/// The keys of the rows, in order.
pub open spec fn keys<K, V>(rows: Seq<V>, key: spec_fn(V) -> K) -> Seq<K> {
    Seq::new(rows.len(), |i: int| key(rows[i]))
}

/// A row is found under its key.
pub proof fn lemma_table_row<K, V>(rows: Seq<V>, key: spec_fn(V) -> K, i: int)
    requires
        distinct(rows, key),
        0 <= i < rows.len(),
    ensures
        table(rows, key).dom().contains(key(rows[i])),
        table(rows, key)[key(rows[i])] == rows[i],
{
    let k = key(rows[i]);
    assert(row_at(rows, key, k, i));
    let j = choose|j: int| #[trigger] row_at(rows, key, k, j);
    assert(row_at(rows, key, k, j));
    if i < j {
        assert(key(rows[i]) != key(rows[j]));
    } else if j < i {
        assert(key(rows[j]) != key(rows[i]));
    }
}

/// A key that no row has is not found.
pub proof fn lemma_table_absent<K, V>(rows: Seq<V>, key: spec_fn(V) -> K, k: K)
    requires
        forall|i: int| 0 <= i < rows.len() ==> key(#[trigger] rows[i]) != k,
    ensures
        !table(rows, key).dom().contains(k),
{
    if exists|i: int| #[trigger] row_at(rows, key, k, i) {
        let i = choose|i: int| #[trigger] row_at(rows, key, k, i);
        assert(key(rows[i]) != k);
    }
}

/// Adding a row with a new key.
pub proof fn lemma_table_push<K, V>(rows: Seq<V>, key: spec_fn(V) -> K, row: V)
    requires
        distinct(rows, key),
        forall|i: int| 0 <= i < rows.len() ==> key(#[trigger] rows[i]) != key(row),
    ensures
        distinct(rows.push(row), key),
        table(rows.push(row), key) == table(rows, key).insert(key(row), row),
{
    let after = rows.push(row);
    let k = key(row);
    assert forall|i: int, j: int| 0 <= i < j < after.len() implies #[trigger] key(after[i])
        != #[trigger] key(after[j]) by {
        if j < rows.len() {
            assert(key(rows[i]) != key(rows[j]));
        }
    }
    let left = table(after, key);
    let right = table(rows, key).insert(k, row);
    assert forall|x: K| #[trigger] left.dom().contains(x) <==> right.dom().contains(x) by {
        if left.dom().contains(x) {
            let i = choose|i: int| #[trigger] row_at(after, key, x, i);
            if i < rows.len() {
                assert(row_at(rows, key, x, i));
            }
        }
        if x == k {
            assert(row_at(after, key, x, rows.len() as int));
        } else if table(rows, key).dom().contains(x) {
            let i = choose|i: int| #[trigger] row_at(rows, key, x, i);
            assert(row_at(after, key, x, i));
        }
    }
    assert forall|x: K| #[trigger] left.dom().contains(x) implies left[x] == right[x] by {
        let i = choose|i: int| #[trigger] row_at(after, key, x, i);
        lemma_table_row(after, key, i);
        if i < rows.len() {
            lemma_table_row(rows, key, i);
        }
    }
    assert(left =~= right);
}

/// Replacing a row by one with the same key.
pub proof fn lemma_table_update<K, V>(rows: Seq<V>, key: spec_fn(V) -> K, at: int, row: V)
    requires
        distinct(rows, key),
        0 <= at < rows.len(),
        key(row) == key(rows[at]),
    ensures
        distinct(rows.update(at, row), key),
        table(rows.update(at, row), key) == table(rows, key).insert(key(row), row),
{
    let after = rows.update(at, row);
    let k = key(row);
    assert forall|i: int, j: int| 0 <= i < j < after.len() implies #[trigger] key(after[i])
        != #[trigger] key(after[j]) by {
        assert(key(rows[i]) != key(rows[j]));
    }
    let left = table(after, key);
    let right = table(rows, key).insert(k, row);
    assert forall|x: K| #[trigger] left.dom().contains(x) <==> right.dom().contains(x) by {
        if left.dom().contains(x) {
            let i = choose|i: int| #[trigger] row_at(after, key, x, i);
            assert(row_at(rows, key, x, i));
        }
        if x == k {
            assert(row_at(after, key, x, at));
        } else if table(rows, key).dom().contains(x) {
            let i = choose|i: int| #[trigger] row_at(rows, key, x, i);
            assert(row_at(after, key, x, i));
        }
    }
    assert forall|x: K| #[trigger] left.dom().contains(x) implies left[x] == right[x] by {
        let i = choose|i: int| #[trigger] row_at(after, key, x, i);
        lemma_table_row(after, key, i);
        lemma_table_row(rows, key, i);
        if i != at {
            if i < at {
                assert(key(rows[i]) != key(rows[at]));
            } else {
                assert(key(rows[at]) != key(rows[i]));
            }
        }
    }
    assert(left =~= right);
}

/// Taking a row out.
pub proof fn lemma_table_remove<K, V>(rows: Seq<V>, key: spec_fn(V) -> K, at: int)
    requires
        distinct(rows, key),
        0 <= at < rows.len(),
    ensures
        distinct(rows.remove(at), key),
        table(rows.remove(at), key) == table(rows, key).remove(key(rows[at])),
{
    let after = rows.remove(at);
    let k = key(rows[at]);
    assert forall|i: int, j: int| 0 <= i < j < after.len() implies #[trigger] key(after[i])
        != #[trigger] key(after[j]) by {
        let a = if i < at {
            i
        } else {
            i + 1
        };
        let b = if j < at {
            j
        } else {
            j + 1
        };
        assert(after[i] == rows[a] && after[j] == rows[b]);
        assert(key(rows[a]) != key(rows[b]));
    }
    let left = table(after, key);
    let right = table(rows, key).remove(k);
    assert forall|x: K| #[trigger] left.dom().contains(x) <==> right.dom().contains(x) by {
        if left.dom().contains(x) {
            let i = choose|i: int| #[trigger] row_at(after, key, x, i);
            let a = if i < at {
                i
            } else {
                i + 1
            };
            assert(after[i] == rows[a]);
            assert(row_at(rows, key, x, a));
            if a < at {
                assert(key(rows[a]) != key(rows[at]));
            } else {
                assert(key(rows[at]) != key(rows[a]));
            }
        }
        if right.dom().contains(x) {
            let i = choose|i: int| #[trigger] row_at(rows, key, x, i);
            let a = if i < at {
                i
            } else {
                i - 1
            };
            assert(i != at);
            assert(after[a] == rows[i]);
            assert(row_at(after, key, x, a));
        }
    }
    assert forall|x: K| #[trigger] left.dom().contains(x) implies left[x] == right[x] by {
        let i = choose|i: int| #[trigger] row_at(after, key, x, i);
        let a = if i < at {
            i
        } else {
            i + 1
        };
        assert(after[i] == rows[a]);
        lemma_table_row(after, key, i);
        lemma_table_row(rows, key, a);
    }
    assert(left =~= right);
}

/// The table has as many entries as there are rows.
pub proof fn lemma_table_len<K, V>(rows: Seq<V>, key: spec_fn(V) -> K)
    requires
        distinct(rows, key),
    ensures
        table(rows, key).dom().finite(),
        table(rows, key).len() == rows.len(),
    decreases rows.len(),
{
    if rows.len() == 0 {
        assert(table(rows, key) =~= Map::empty());
    } else {
        let front = rows.drop_last();
        assert forall|i: int, j: int| 0 <= i < j < front.len() implies #[trigger] key(front[i])
            != #[trigger] key(front[j]) by {
            assert(key(rows[i]) != key(rows[j]));
        }
        lemma_table_len(front, key);
        assert forall|i: int| 0 <= i < front.len() implies key(#[trigger] front[i]) != key(
            rows.last(),
        ) by {
            assert(key(rows[i]) != key(rows[rows.len() - 1]));
        }
        lemma_table_push(front, key, rows.last());
        lemma_table_absent(front, key, key(rows.last()));
        assert(rows =~= front.push(rows.last()));
    }
}

/// Putting a row with a new key anywhere.
pub proof fn lemma_table_insert<K, V>(rows: Seq<V>, key: spec_fn(V) -> K, at: int, row: V)
    requires
        distinct(rows, key),
        0 <= at <= rows.len(),
        forall|i: int| 0 <= i < rows.len() ==> key(#[trigger] rows[i]) != key(row),
    ensures
        distinct(rows.insert(at, row), key),
        table(rows.insert(at, row), key) == table(rows, key).insert(key(row), row),
{
    let after = rows.insert(at, row);
    let k = key(row);
    assert forall|i: int| 0 <= i < after.len() implies #[trigger] after[i] == (if i < at {
        rows[i]
    } else if i == at {
        row
    } else {
        rows[i - 1]
    }) by {}
    assert forall|i: int, j: int| 0 <= i < j < after.len() implies #[trigger] key(after[i])
        != #[trigger] key(after[j]) by {
        let a = if i < at {
            i
        } else {
            i - 1
        };
        let b = if j < at {
            j
        } else {
            j - 1
        };
        if i != at && j != at {
            assert(key(rows[a]) != key(rows[b]));
        } else if i == at {
            assert(key(rows[b]) != k);
        } else {
            assert(key(rows[a]) != k);
        }
    }
    let left = table(after, key);
    let right = table(rows, key).insert(k, row);
    assert forall|x: K| #[trigger] left.dom().contains(x) <==> right.dom().contains(x) by {
        if left.dom().contains(x) {
            let i = choose|i: int| #[trigger] row_at(after, key, x, i);
            if i < at {
                assert(row_at(rows, key, x, i));
            } else if i > at {
                assert(row_at(rows, key, x, i - 1));
            }
        }
        if x == k {
            assert(row_at(after, key, x, at));
        } else if table(rows, key).dom().contains(x) {
            let i = choose|i: int| #[trigger] row_at(rows, key, x, i);
            if i < at {
                assert(row_at(after, key, x, i));
            } else {
                assert(after[i + 1] == rows[i]);
                assert(row_at(after, key, x, i + 1));
            }
        }
    }
    assert forall|x: K| #[trigger] left.dom().contains(x) implies left[x] == right[x] by {
        let i = choose|i: int| #[trigger] row_at(after, key, x, i);
        lemma_table_row(after, key, i);
        if i < at {
            lemma_table_row(rows, key, i);
        } else if i > at {
            lemma_table_row(rows, key, i - 1);
        }
    }
    assert(left =~= right);
}

/// Changing every row but not its key.
pub proof fn lemma_table_map<K, V>(
    rows: Seq<V>,
    key: spec_fn(V) -> K,
    f: spec_fn(V) -> V,
    after: Seq<V>,
)
    requires
        distinct(rows, key),
        after.len() == rows.len(),
        forall|i: int| 0 <= i < rows.len() ==> #[trigger] after[i] == f(rows[i]),
        forall|i: int| 0 <= i < rows.len() ==> key(f(#[trigger] rows[i])) == key(rows[i]),
    ensures
        distinct(after, key),
        table(after, key).dom() == table(rows, key).dom(),
        forall|k: K|
            table(rows, key).dom().contains(k) ==> #[trigger] table(after, key)[k] == f(
                table(rows, key)[k],
            ),
{
    assert forall|i: int, j: int| 0 <= i < j < after.len() implies #[trigger] key(after[i])
        != #[trigger] key(after[j]) by {
        assert(key(rows[i]) != key(rows[j]));
        assert(key(f(rows[i])) == key(rows[i]));
        assert(key(f(rows[j])) == key(rows[j]));
    }
    let left = table(after, key);
    let right = table(rows, key);
    assert forall|k: K| #[trigger] left.dom().contains(k) <==> right.dom().contains(k) by {
        if left.dom().contains(k) {
            let i = choose|i: int| #[trigger] row_at(after, key, k, i);
            assert(key(f(rows[i])) == key(rows[i]));
            assert(row_at(rows, key, k, i));
        }
        if right.dom().contains(k) {
            let i = choose|i: int| #[trigger] row_at(rows, key, k, i);
            assert(key(f(rows[i])) == key(rows[i]));
            assert(row_at(after, key, k, i));
        }
    }
    assert(left.dom() =~= right.dom());
    assert forall|k: K| right.dom().contains(k) implies #[trigger] left[k] == f(right[k]) by {
        let i = choose|i: int| #[trigger] row_at(rows, key, k, i);
        assert(key(f(rows[i])) == key(rows[i]));
        lemma_table_row(rows, key, i);
        lemma_table_row(after, key, i);
    }
}

/// How many of the rows satisfy a condition.
pub open spec fn count_rows<V>(rows: Seq<V>, p: spec_fn(V) -> bool) -> nat
    decreases rows.len(),
{
    if rows.len() == 0 {
        0
    } else {
        count_rows(rows.drop_last(), p) + (if p(rows.last()) {
            1nat
        } else {
            0nat
        })
    }
}

/// The keys under which a map holds a value that satisfies a condition.
pub open spec fn keys_where<K, V>(map: Map<K, V>, p: spec_fn(V) -> bool) -> Set<K> {
    map.dom().filter(|k: K| p(map[k]))
}

/// The rows that satisfy a condition are as many as the keys under which the
/// table holds one.
pub proof fn lemma_table_count<K, V>(
    rows: Seq<V>,
    key: spec_fn(V) -> K,
    p: spec_fn(V) -> bool,
)
    requires
        distinct(rows, key),
    ensures
        keys_where(table(rows, key), p).finite(),
        keys_where(table(rows, key), p).len() == count_rows(rows, p),
    decreases rows.len(),
{
    let map = table(rows, key);
    if rows.len() == 0 {
        assert(keys_where(map, p) =~= Set::empty());
    } else {
        let front = rows.drop_last();
        let last = rows.last();
        assert forall|i: int, j: int| 0 <= i < j < front.len() implies #[trigger] key(front[i])
            != #[trigger] key(front[j]) by {
            assert(key(rows[i]) != key(rows[j]));
        }
        lemma_table_count(front, key, p);
        assert forall|i: int| 0 <= i < front.len() implies key(#[trigger] front[i]) != key(
            last,
        ) by {
            assert(key(rows[i]) != key(rows[rows.len() - 1]));
        }
        lemma_table_push(front, key, last);
        lemma_table_absent(front, key, key(last));
        assert(rows =~= front.push(last));
        let before = keys_where(table(front, key), p);
        if p(last) {
            assert(keys_where(map, p) =~= before.insert(key(last)));
        } else {
            assert(keys_where(map, p) =~= before);
        }
    }
}

} // verus!
