//! Count tables: rows of a key and a positive count, each key at most once.
use vstd::prelude::*;

verus! {

/// The count that `rows` gives `k`: the sum of the counts of the rows keyed `k`.
pub open spec fn lookup<K>(rows: Seq<(K, int)>, k: K) -> int
    decreases rows.len(),
{
    if rows.len() == 0 {
        0
    } else {
        lookup(rows.drop_last(), k) + if rows.last().0 == k {
            rows.last().1
        } else {
            0
        }
    }
}

/// The sum of all counts in `rows`.
pub open spec fn total<K>(rows: Seq<(K, int)>) -> int
    decreases rows.len(),
{
    if rows.len() == 0 {
        0
    } else {
        total(rows.drop_last()) + rows.last().1
    }
}

/// No key stands in two rows.
pub open spec fn keys_unique<K>(rows: Seq<(K, int)>) -> bool {
    forall|i: int, j: int| 0 <= i < j < rows.len() ==> rows[i].0 != rows[j].0
}

/// Every count is positive.
pub open spec fn all_positive<K>(rows: Seq<(K, int)>) -> bool {
    forall|i: int| 0 <= i < rows.len() ==> rows[i].1 > 0
}

/// The table as a map from each key that it counts to its count.
pub open spec fn as_map<K>(rows: Seq<(K, int)>) -> Map<K, int> {
    Map::new(|k: K| lookup(rows, k) != 0, |k: K| lookup(rows, k))
}

/// The rows of a table keyed by type label.
pub open spec fn label_rows(e: Seq<(String, u64)>) -> Seq<(Seq<char>, int)> {
    e.map_values(|x: (String, u64)| (x.0@, x.1 as int))
}

/// The rows of a table keyed by owner.
pub open spec fn owner_rows(e: Seq<(u32, u64)>) -> Seq<(u32, int)> {
    e.map_values(|x: (u32, u64)| (x.0, x.1 as int))
}

/// Replacing one row changes the count of its old key and of its new key only.
pub proof fn lemma_update<K>(rows: Seq<(K, int)>, i: int, x: (K, int))
    requires
        0 <= i < rows.len(),
    ensures
        forall|k: K|
            #[trigger] lookup(rows.update(i, x), k) == lookup(rows, k) - (if rows[i].0 == k {
                rows[i].1
            } else {
                0
            }) + (if x.0 == k {
                x.1
            } else {
                0
            }),
        total(rows.update(i, x)) == total(rows) - rows[i].1 + x.1,
    decreases rows.len(),
{
    let u = rows.update(i, x);
    if i == rows.len() - 1 {
        assert(u.drop_last() =~= rows.drop_last());
    } else {
        lemma_update(rows.drop_last(), i, x);
        assert(u.drop_last() =~= rows.drop_last().update(i, x));
    }
    assert forall|k: K|
        #[trigger] lookup(u, k) == lookup(rows, k) - (if rows[i].0 == k {
            rows[i].1
        } else {
            0
        }) + (if x.0 == k {
            x.1
        } else {
            0
        }) by {
        assert(lookup(u, k) == lookup(u.drop_last(), k) + if u.last().0 == k {
            u.last().1
        } else {
            0
        });
    }
}

/// A key that no row holds has count zero.
pub proof fn lemma_absent<K>(rows: Seq<(K, int)>, k: K)
    requires
        forall|i: int| 0 <= i < rows.len() ==> rows[i].0 != k,
    ensures
        lookup(rows, k) == 0,
    decreases rows.len(),
{
    if rows.len() > 0 {
        lemma_absent(rows.drop_last(), k);
    }
}

/// With counts that are not negative, a prefix never counts more than the whole.
pub proof fn lemma_prefix_le<K>(rows: Seq<(K, int)>, j: int)
    requires
        0 <= j <= rows.len(),
        forall|i: int| 0 <= i < rows.len() ==> rows[i].1 >= 0,
    ensures
        total(rows.take(j)) <= total(rows),
        j < rows.len() ==> total(rows.take(j + 1)) == total(rows.take(j)) + rows[j].1,
    decreases rows.len(),
{
    if j < rows.len() {
        assert(rows.take(j + 1).drop_last() =~= rows.take(j));
    }
    if j == rows.len() {
        assert(rows.take(j) =~= rows);
    } else {
        lemma_prefix_le(rows.drop_last(), j);
        assert(rows.drop_last().take(j) =~= rows.take(j));
        if j == rows.len() - 1 {
            assert(rows.drop_last() =~= rows.take(j));
        }
    }
}

/// With counts that are not negative, no row counts more than the whole table.
pub proof fn lemma_row_le<K>(rows: Seq<(K, int)>, i: int)
    requires
        0 <= i < rows.len(),
        forall|j: int| 0 <= j < rows.len() ==> rows[j].1 >= 0,
    ensures
        0 <= rows[i].1 <= total(rows),
    decreases rows.len(),
{
    lemma_nonneg(rows.drop_last());
    if i < rows.len() - 1 {
        lemma_row_le(rows.drop_last(), i);
    }
}

/// With counts that are not negative, the total is not negative.
pub proof fn lemma_nonneg<K>(rows: Seq<(K, int)>)
    requires
        forall|j: int| 0 <= j < rows.len() ==> rows[j].1 >= 0,
    ensures
        total(rows) >= 0,
    decreases rows.len(),
{
    if rows.len() > 0 {
        lemma_nonneg(rows.drop_last());
    }
}

/// With positive counts, a table whose counts add up to zero has no rows.
pub proof fn lemma_zero_total_empty<K>(rows: Seq<(K, int)>)
    requires
        all_positive(rows),
        total(rows) == 0,
    ensures
        rows.len() == 0,
{
    if rows.len() > 0 {
        let d = rows.drop_last();
        assert forall|j: int| 0 <= j < d.len() implies d[j].1 >= 0 by {
            assert(rows[j].1 > 0);
        }
        lemma_nonneg(d);
        assert(rows.last().1 > 0);
    }
}

/// Adds `c` to the count of `key` in a table keyed by type label.
pub fn bump_label(table: &mut Vec<(String, u64)>, key: String, c: u64)
    requires
        keys_unique(label_rows(old(table)@)),
        total(label_rows(old(table)@)) + c <= u64::MAX,
    ensures
        keys_unique(label_rows(final(table)@)),
        c > 0 && all_positive(label_rows(old(table)@)) ==> all_positive(
            label_rows(final(table)@),
        ),
        forall|k: Seq<char>|
            #[trigger] lookup(label_rows(final(table)@), k) == lookup(label_rows(old(table)@), k)
                + if k == key@ {
                c as int
            } else {
                0
            },
        total(label_rows(final(table)@)) == total(label_rows(old(table)@)) + c,
{
    let ghost rows = label_rows(table@);
    let n = table.len();
    let mut i: usize = 0;
    while i < n
        invariant
            n == table@.len(),
            i <= n,
            rows == label_rows(table@),
            table@ == old(table)@,
            keys_unique(rows),
            total(rows) + c <= u64::MAX,
            forall|j: int| 0 <= j < i ==> rows[j].0 != key@,
        decreases n - i,
    {
        if table[i].0 == key {
            let v = table[i].1;
            proof {
                assert forall|j: int| 0 <= j < rows.len() implies rows[j].1 >= 0 by {}
                lemma_row_le(rows, i as int);
            }
            let k0 = table[i].0.clone();
            table.set(i, (k0, v + c));
            proof {
                let x = (key@, (v + c) as int);
                assert(rows[i as int] == (key@, v as int));
                lemma_update(rows, i as int, x);
                assert(label_rows(table@) =~= rows.update(i as int, x));
            }
            return;
        }
        i = i + 1;
    }
    proof {
        lemma_absent(rows, key@);
    }
    table.push((key, c));
    proof {
        assert(label_rows(table@) =~= rows.push((key@, c as int)));
        assert(rows.push((key@, c as int)).drop_last() =~= rows);
    }
}

/// Adds `c` to the count of `key` in a table keyed by owner.
pub fn bump_owner(table: &mut Vec<(u32, u64)>, key: u32, c: u64)
    requires
        keys_unique(owner_rows(old(table)@)),
        total(owner_rows(old(table)@)) + c <= u64::MAX,
    ensures
        keys_unique(owner_rows(final(table)@)),
        c > 0 && all_positive(owner_rows(old(table)@)) ==> all_positive(
            owner_rows(final(table)@),
        ),
        forall|k: u32|
            #[trigger] lookup(owner_rows(final(table)@), k) == lookup(owner_rows(old(table)@), k)
                + if k == key {
                c as int
            } else {
                0
            },
        total(owner_rows(final(table)@)) == total(owner_rows(old(table)@)) + c,
{
    let ghost rows = owner_rows(table@);
    let n = table.len();
    let mut i: usize = 0;
    while i < n
        invariant
            n == table@.len(),
            i <= n,
            rows == owner_rows(table@),
            table@ == old(table)@,
            keys_unique(rows),
            total(rows) + c <= u64::MAX,
            forall|j: int| 0 <= j < i ==> rows[j].0 != key,
        decreases n - i,
    {
        if table[i].0 == key {
            let v = table[i].1;
            proof {
                assert forall|j: int| 0 <= j < rows.len() implies rows[j].1 >= 0 by {}
                lemma_row_le(rows, i as int);
            }
            table.set(i, (key, v + c));
            proof {
                let x = (key, (v + c) as int);
                assert(rows[i as int] == (key, v as int));
                lemma_update(rows, i as int, x);
                assert(owner_rows(table@) =~= rows.update(i as int, x));
            }
            return;
        }
        i = i + 1;
    }
    proof {
        lemma_absent(rows, key);
    }
    table.push((key, c));
    proof {
        assert(owner_rows(table@) =~= rows.push((key, c as int)));
        assert(rows.push((key, c as int)).drop_last() =~= rows);
    }
}

} // verus!
