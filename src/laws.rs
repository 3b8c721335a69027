//! What holds of every report, whatever the order of its facts and however they were
//! split among workers.
use vstd::prelude::*;
use vstd::seq_lib::{to_multiset_contains, to_multiset_len, to_multiset_remove};
use crate::report::{
    all_files, label_count, label_weight, owner_count, owner_weight, size_sum, size_weight,
    sum_by, FileInfo, Report,
};
use crate::table::{label_rows, lemma_zero_total_empty, owner_rows, total};

verus! {

/// Taking one fact out of a sequence takes its weight out of any sum.
pub proof fn lemma_sum_remove(s: Seq<FileInfo>, i: int, w: spec_fn(FileInfo) -> int)
    requires
        0 <= i < s.len(),
    ensures
        sum_by(s, w) == sum_by(s.remove(i), w) + w(s[i]),
    decreases s.len(),
{
    if i == s.len() - 1 {
        assert(s.remove(i) =~= s.drop_last());
    } else {
        lemma_sum_remove(s.drop_last(), i, w);
        assert(s.remove(i).drop_last() =~= s.drop_last().remove(i));
    }
}

/// A sum over facts depends only on which facts there are, not on their order.
pub proof fn lemma_sum_permutation(s1: Seq<FileInfo>, s2: Seq<FileInfo>, w: spec_fn(FileInfo) -> int)
    requires
        s1.to_multiset() == s2.to_multiset(),
    ensures
        sum_by(s1, w) == sum_by(s2, w),
    decreases s1.len(),
{
    broadcast use to_multiset_contains, to_multiset_len, to_multiset_remove;

    if s1.len() == 0 {
        assert(s1.to_multiset().len() == 0);
        assert(s2.to_multiset().len() == s2.len());
    } else {
        let x = s1.last();
        let d = s1.drop_last();
        assert(s1 =~= d.push(x));
        assert(s1.remove(s1.len() - 1) =~= d);
        assert(s1.contains(x));
        assert(s2.to_multiset().count(x) > 0);
        assert(s2.contains(x));
        let i = choose|i: int| 0 <= i < s2.len() && s2[i] == x;
        assert(d.to_multiset() == s1.to_multiset().remove(x));
        assert(s2.remove(i).to_multiset() == s2.to_multiset().remove(x));
        lemma_sum_permutation(d, s2.remove(i), w);
        lemma_sum_remove(s2, i, w);
    }
}

/// The total size of a report is the sum of the sizes of its facts, and the counts of
/// each of its two tables add up to the number of its facts.
pub proof fn lemma_report_sums(r: Report)
    requires
        r.wf(),
    ensures
        r.total_size == size_sum(r.files@),
        total(label_rows(r.file_types@)) == r.files@.len(),
        total(owner_rows(r.ownership@)) == r.files@.len(),
{
}

/// A report without facts has a total size of zero and two empty tables: so is the
/// report of a scan whose root does not exist.
pub proof fn lemma_no_facts_empty_report(r: Report)
    requires
        r.wf(),
        r.files@.len() == 0,
    ensures
        r.total_size == 0,
        r.file_types@.len() == 0,
        r.ownership@.len() == 0,
{
    lemma_zero_total_empty(label_rows(r.file_types@));
    lemma_zero_total_empty(owner_rows(r.ownership@));
}

/// Two reports over the same facts, in whatever order, agree on the total size and on
/// the count of every type label and of every owner: a scan of an unchanged tree gives
/// the same report however its entries come.
pub proof fn lemma_same_facts_agree(r1: Report, r2: Report)
    requires
        r1.wf(),
        r2.wf(),
        r1.files@.to_multiset() == r2.files@.to_multiset(),
    ensures
        r1.total_size == r2.total_size,
        r1.type_counts() == r2.type_counts(),
        r1.owner_counts() == r2.owner_counts(),
{
    lemma_sum_permutation(r1.files@, r2.files@, size_weight());
    assert forall|t: Seq<char>| label_count(r1.files@, t) == label_count(r2.files@, t) by {
        lemma_sum_permutation(r1.files@, r2.files@, label_weight(t));
    }
    assert forall|o: u32| owner_count(r1.files@, o) == owner_count(r2.files@, o) by {
        lemma_sum_permutation(r1.files@, r2.files@, owner_weight(o));
    }
    assert(r1.type_counts() =~= r2.type_counts());
    assert(r1.owner_counts() =~= r2.owner_counts());
}

/// However the same facts are split among workers, and in whatever order the partial
/// reports are merged, the merged reports agree on the total size and on every count.
pub proof fn lemma_partition_invariance(p1: Seq<Report>, p2: Seq<Report>, r1: Report, r2: Report)
    requires
        r1.wf(),
        r2.wf(),
        r1.files@ == all_files(p1),
        r2.files@ == all_files(p2),
        all_files(p1).to_multiset() == all_files(p2).to_multiset(),
    ensures
        r1.total_size == r2.total_size,
        r1.type_counts() == r2.type_counts(),
        r1.owner_counts() == r2.owner_counts(),
{
    lemma_same_facts_agree(r1, r2);
}

} // verus!
