//! Entry facts and the report that aggregates them.
use vstd::prelude::*;
use crate::table::{
    lemma_prefix_le, all_positive, as_map, bump_label, bump_owner, keys_unique, label_rows, lookup, owner_rows, total,
};

verus! {

/// What was learned of one entry of a scan.
pub struct FileInfo {
    /// The full path as discovered.
    pub path: String,
    /// The byte length that the entry's own metadata gives.
    pub size: u64,
    /// The type label derived from the final path component.
    pub file_type: String,
    /// The numeric identifier of the owning user.
    pub owner: u32,
}

/// The aggregate of the facts of one scan.
pub struct Report {
    /// The sum of the sizes of all facts.
    pub total_size: u64,
    /// Each type label that occurs, with the number of facts that carry it.
    pub file_types: Vec<(String, u64)>,
    /// Each owner that occurs, with the number of facts that it owns.
    pub ownership: Vec<(u32, u64)>,
    /// All facts, in no particular order.
    pub files: Vec<FileInfo>,
}

/// The sum of `w` over the facts of `s`.
pub open spec fn sum_by(s: Seq<FileInfo>, w: spec_fn(FileInfo) -> int) -> int
    decreases s.len(),
{
    if s.len() == 0 {
        0
    } else {
        sum_by(s.drop_last(), w) + w(s.last())
    }
}

/// Weighs a fact by its size.
pub open spec fn size_weight() -> spec_fn(FileInfo) -> int {
    |f: FileInfo| f.size as int
}

/// Weighs a fact by one when it carries label `t`.
pub open spec fn label_weight(t: Seq<char>) -> spec_fn(FileInfo) -> int {
    |f: FileInfo|
        if f.file_type@ == t {
            1int
        } else {
            0int
        }
}

/// Weighs a fact by one when `o` owns it.
pub open spec fn owner_weight(o: u32) -> spec_fn(FileInfo) -> int {
    |f: FileInfo|
        if f.owner == o {
            1int
        } else {
            0int
        }
}

/// The sum of the sizes of the facts of `s`.
pub open spec fn size_sum(s: Seq<FileInfo>) -> int {
    sum_by(s, size_weight())
}

/// The number of facts of `s` that carry label `t`.
pub open spec fn label_count(s: Seq<FileInfo>, t: Seq<char>) -> int {
    sum_by(s, label_weight(t))
}

/// The number of facts of `s` that `o` owns.
pub open spec fn owner_count(s: Seq<FileInfo>, o: u32) -> int {
    sum_by(s, owner_weight(o))
}

/// The facts among per-entry results; an entry whose metadata could not be read has
/// none.
pub open spec fn present(s: Seq<Option<FileInfo>>) -> Seq<FileInfo>
    decreases s.len(),
{
    if s.len() == 0 {
        Seq::empty()
    } else {
        match s.last() {
            Some(f) => present(s.drop_last()).push(f),
            None => present(s.drop_last()),
        }
    }
}

/// The facts of a sequence of reports, one after another.
pub open spec fn all_files(parts: Seq<Report>) -> Seq<FileInfo>
    decreases parts.len(),
{
    if parts.len() == 0 {
        Seq::empty()
    } else {
        parts[0].files@ + all_files(parts.drop_first())
    }
}

/// A fact appended to a sequence adds its weight to any sum.
pub proof fn lemma_sum_push(s: Seq<FileInfo>, f: FileInfo, w: spec_fn(FileInfo) -> int)
    ensures
        sum_by(s.push(f), w) == sum_by(s, w) + w(f),
{
    assert(s.push(f).drop_last() =~= s);
}

/// Sums over two sequences one after the other add up.
pub proof fn lemma_sum_append(a: Seq<FileInfo>, b: Seq<FileInfo>, w: spec_fn(FileInfo) -> int)
    ensures
        sum_by(a + b, w) == sum_by(a, w) + sum_by(b, w),
    decreases b.len(),
{
    if b.len() == 0 {
        assert(a + b =~= a);
    } else {
        lemma_sum_append(a, b.drop_last(), w);
        assert((a + b).drop_last() =~= a + b.drop_last());
    }
}

/// Sizes are never negative, so neither is their sum.
pub proof fn lemma_size_sum_nonneg(s: Seq<FileInfo>)
    ensures
        size_sum(s) >= 0,
    decreases s.len(),
{
    if s.len() > 0 {
        lemma_size_sum_nonneg(s.drop_last());
    }
}

/// The facts of the first `i` results are no more, and weigh no more, than those of
/// all results.
pub proof fn lemma_present_prefix(s: Seq<Option<FileInfo>>, i: int)
    requires
        0 <= i <= s.len(),
    ensures
        size_sum(present(s.take(i))) <= size_sum(present(s)),
        present(s).len() <= s.len(),
    decreases s.len(),
{
    if s.len() > 0 {
        let d = s.drop_last();
        if i == s.len() {
            assert(s.take(i) =~= s);
            lemma_present_prefix(d, 0);
        } else {
            lemma_present_prefix(d, i);
            assert(d.take(i) =~= s.take(i));
        }
        match s.last() {
            Some(f) => {
                lemma_sum_push(present(d), f, size_weight());
            },
            None => {},
        }
    }
}

/// The facts of a sequence of reports are those of its first `k` reports followed by
/// those of the rest.
pub proof fn lemma_all_files_split(p: Seq<Report>, k: int)
    requires
        0 <= k <= p.len(),
    ensures
        all_files(p) == all_files(p.take(k)) + all_files(p.skip(k)),
    decreases k,
{
    if k == 0 {
        assert(p.take(0).len() == 0);
        assert(p.skip(0) =~= p);
        assert(all_files(p.take(0)) + all_files(p) =~= all_files(p));
    } else {
        let d = p.drop_first();
        lemma_all_files_split(d, k - 1);
        assert(d.skip(k - 1) =~= p.skip(k));
        assert(p.take(k).drop_first() =~= d.take(k - 1));
        assert(p.take(k)[0] == p[0]);
        assert(all_files(p.take(k)) == p[0].files@ + all_files(d.take(k - 1)));
        assert(all_files(p) =~= all_files(p.take(k)) + all_files(p.skip(k)));
    }
}

impl Report {
    /// The report agrees with its facts: the total is their size sum, and each table
    /// holds each key once, with a positive count equal to the number of facts with
    /// that key, and its counts add up to the number of facts.
    pub open spec fn wf(&self) -> bool {
        &&& self.total_size as int == size_sum(self.files@)
        &&& keys_unique(label_rows(self.file_types@))
        &&& all_positive(label_rows(self.file_types@))
        &&& forall|t: Seq<char>|
            #[trigger] lookup(label_rows(self.file_types@), t) == label_count(self.files@, t)
        &&& total(label_rows(self.file_types@)) == self.files@.len()
        &&& keys_unique(owner_rows(self.ownership@))
        &&& all_positive(owner_rows(self.ownership@))
        &&& forall|o: u32|
            #[trigger] lookup(owner_rows(self.ownership@), o) == owner_count(self.files@, o)
        &&& total(owner_rows(self.ownership@)) == self.files@.len()
    }

    /// The type table as a map from label to count.
    pub open spec fn type_counts(&self) -> Map<Seq<char>, int> {
        as_map(label_rows(self.file_types@))
    }

    /// The ownership table as a map from owner to count.
    pub open spec fn owner_counts(&self) -> Map<u32, int> {
        as_map(owner_rows(self.ownership@))
    }

    /// The report of a scan that found nothing.
    pub fn new() -> (r: Report)
        ensures
            r.wf(),
            r.total_size == 0,
            r.file_types@.len() == 0,
            r.ownership@.len() == 0,
            r.files@.len() == 0,
    {
        let r = Report { total_size: 0, file_types: Vec::new(), ownership: Vec::new(), files: Vec::new() };
        assert(label_rows(r.file_types@) =~= Seq::empty());
        assert(owner_rows(r.ownership@) =~= Seq::empty());
        r
    }

    /// Counts one more fact.
    fn add(&mut self, f: FileInfo)
        requires
            old(self).wf(),
            old(self).total_size + f.size <= u64::MAX,
            old(self).files@.len() < u64::MAX,
        ensures
            final(self).wf(),
            final(self).files@ == old(self).files@.push(f),
    {
        let ghost s0 = self.files@;
        let ghost f0 = f;
        self.total_size = self.total_size + f.size;
        let t = f.file_type.clone();
        bump_label(&mut self.file_types, t, 1);
        bump_owner(&mut self.ownership, f.owner, 1);
        self.files.push(f);
        proof {
            let s1 = self.files@;
            assert(s1.drop_last() =~= s0);
            assert forall|t: Seq<char>|
                #[trigger] lookup(label_rows(self.file_types@), t) == label_count(s1, t) by {
                assert(label_count(s1, t) == label_count(s0, t) + label_weight(t)(f0));
            }
            assert forall|o: u32|
                #[trigger] lookup(owner_rows(self.ownership@), o) == owner_count(s1, o) by {
                assert(owner_count(s1, o) == owner_count(s0, o) + owner_weight(o)(f0));
            }
            assert(size_sum(s1) == size_sum(s0) + f0.size);
        }
    }
    /// Combines two partial reports: sizes and counts add up, the tables are joined
    /// with the counts of a shared key summed, and the facts are put one after the
    /// other. There is none when the total size would exceed `u64::MAX` or the facts
    /// would be more than `usize::MAX`.
    pub fn merge(self, other: Report) -> (r: Option<Report>)
        requires
            self.wf(),
            other.wf(),
        ensures
            r is Some <==> (self.total_size + other.total_size <= u64::MAX && self.files@.len()
                + other.files@.len() <= usize::MAX),
            r is Some ==> r->0.wf() && r->0.files@ == self.files@ + other.files@,
    {
        let ghost a0 = self;
        let mut a = self;
        let mut b = other;
        if a.files.len() > usize::MAX - b.files.len() {
            return None;
        }
        let total_size = match a.total_size.checked_add(b.total_size) {
            Some(t) => t,
            None => return None,
        };
        let ghost ar = label_rows(a0.file_types@);
        let ghost br = label_rows(b.file_types@);
        let nt = b.file_types.len();
        let mut j: usize = 0;
        while j < nt
            invariant
                nt == b.file_types@.len() == br.len(),
                j <= nt,
                b.wf(),
                a0.wf(),
                br == label_rows(b.file_types@),
                ar == label_rows(a0.file_types@),
                a.ownership@ == a0.ownership@,
                a.files@ == a0.files@,
                a0.files@.len() + b.files@.len() <= usize::MAX,
                keys_unique(label_rows(a.file_types@)),
                all_positive(label_rows(a.file_types@)),
                forall|t: Seq<char>|
                    #[trigger] lookup(label_rows(a.file_types@), t) == lookup(ar, t) + lookup(
                        br.take(j as int),
                        t,
                    ),
                total(label_rows(a.file_types@)) == total(ar) + total(br.take(j as int)),
            decreases nt - j,
        {
            let key = b.file_types[j].0.clone();
            let c = b.file_types[j].1;
            proof {
                assert(br[j as int] == (key@, c as int));
                assert forall|i: int| 0 <= i < br.len() implies br[i].1 >= 0 by {}
                lemma_prefix_le(br, j as int);
                lemma_prefix_le(br, j as int + 1);
                assert(br.take(j as int + 1).drop_last() =~= br.take(j as int));
            }
            bump_label(&mut a.file_types, key, c);
            j = j + 1;
        }
        proof {
            assert(br.take(nt as int) =~= br);
        }
        let ghost orr = owner_rows(a0.ownership@);
        let ghost obr = owner_rows(b.ownership@);
        let no = b.ownership.len();
        let mut j: usize = 0;
        while j < no
            invariant
                no == b.ownership@.len() == obr.len(),
                j <= no,
                b.wf(),
                a0.wf(),
                obr == owner_rows(b.ownership@),
                orr == owner_rows(a0.ownership@),
                a.files@ == a0.files@,
                ar == label_rows(a0.file_types@),
                br == label_rows(b.file_types@),
                keys_unique(label_rows(a.file_types@)),
                all_positive(label_rows(a.file_types@)),
                forall|t: Seq<char>|
                    #[trigger] lookup(label_rows(a.file_types@), t) == lookup(ar, t) + lookup(
                        br,
                        t,
                    ),
                total(label_rows(a.file_types@)) == total(ar) + total(br),
                a0.files@.len() + b.files@.len() <= usize::MAX,
                keys_unique(owner_rows(a.ownership@)),
                all_positive(owner_rows(a.ownership@)),
                forall|o: u32|
                    #[trigger] lookup(owner_rows(a.ownership@), o) == lookup(orr, o) + lookup(
                        obr.take(j as int),
                        o,
                    ),
                total(owner_rows(a.ownership@)) == total(orr) + total(obr.take(j as int)),
            decreases no - j,
        {
            let key = b.ownership[j].0;
            let c = b.ownership[j].1;
            proof {
                assert(obr[j as int] == (key, c as int));
                assert forall|i: int| 0 <= i < obr.len() implies obr[i].1 >= 0 by {}
                lemma_prefix_le(obr, j as int);
                lemma_prefix_le(obr, j as int + 1);
                assert(obr.take(j as int + 1).drop_last() =~= obr.take(j as int));
            }
            bump_owner(&mut a.ownership, key, c);
            j = j + 1;
        }
        proof {
            assert(obr.take(no as int) =~= obr);
        }
        let ghost bf = b.files@;
        a.files.append(&mut b.files);
        a.total_size = total_size;
        proof {
            lemma_sum_append(a0.files@, bf, size_weight());
            assert forall|t: Seq<char>|
                #[trigger] lookup(label_rows(a.file_types@), t) == label_count(a.files@, t) by {
                lemma_sum_append(a0.files@, bf, label_weight(t));
            }
            assert forall|o: u32|
                #[trigger] lookup(owner_rows(a.ownership@), o) == owner_count(a.files@, o) by {
                lemma_sum_append(a0.files@, bf, owner_weight(o));
            }
        }
        Some(a)
    }
}

/// Aggregates per-entry results into one report: each fact is counted once, and an
/// entry without a fact is left out. There is no report when the sizes of the facts
/// add up to more than `u64::MAX`.
pub fn aggregate(results: Vec<Option<FileInfo>>) -> (r: Option<Report>)
    ensures
        r is Some <==> size_sum(present(results@)) <= u64::MAX,
        r is Some ==> r->0.wf() && r->0.files@ == present(results@),
{
    let ghost all = results@;
    let n = results.len();
    let mut rep = Report::new();
    assert(all.take(0) =~= Seq::empty());
    for x in iter: results.into_iter()
        invariant
            n == all.len(),
            iter.seq() == all,
            rep.wf(),
            rep.files@ == present(all.take(iter.index() as int)),
    {
        let ghost i = iter.index() as int;
        proof {
            assert(all.take(i + 1).drop_last() =~= all.take(i));
            lemma_present_prefix(all.take(i), i);
            assert(all.take(i).take(i) =~= all.take(i));
            lemma_present_prefix(all, i + 1);
        }
        match x {
            Some(f) => {
                if rep.total_size > u64::MAX - f.size {
                    proof {
                        lemma_sum_push(rep.files@, f, size_weight());
                    }
                    return None;
                }
                rep.add(f);
            },
            None => {},
        }
    }
    proof {
        assert(all.take(n as int) =~= all);
    }
    Some(rep)
}

/// Folds per-worker partial reports into one with `merge`. There is none when the
/// sizes of all their facts add up to more than `u64::MAX`, or the facts are more than
/// `usize::MAX`.
pub fn merge_all(parts: Vec<Report>) -> (r: Option<Report>)
    requires
        forall|i: int| 0 <= i < parts@.len() ==> #[trigger] parts@[i].wf(),
    ensures
        r is Some <==> (size_sum(all_files(parts@)) <= u64::MAX && all_files(parts@).len()
            <= usize::MAX),
        r is Some ==> r->0.wf() && r->0.files@ == all_files(parts@),
{
    let ghost p0 = parts@;
    let mut rest = parts;
    let mut acc = Report::new();
    proof {
        assert(p0.skip(p0.len() as int) =~= Seq::<Report>::empty());
        assert(acc.files@ =~= all_files(p0.skip(p0.len() as int)));
        assert(p0.take(p0.len() as int) =~= p0);
    }
    while rest.len() > 0
        invariant
            p0 == parts@,
            rest@.len() <= p0.len(),
            rest@ == p0.take(rest@.len() as int),
            forall|i: int| 0 <= i < p0.len() ==> #[trigger] p0[i].wf(),
            acc.wf(),
            acc.files@.len() <= usize::MAX,
            acc.files@ == all_files(p0.skip(rest@.len() as int)),
        decreases rest@.len(),
    {
        let ghost k = rest@.len() - 1;
        let part = match rest.pop() {
            Some(x) => x,
            None => return None,
        };
        proof {
            assert(p0.skip(k).drop_first() =~= p0.skip(k + 1));
            assert(p0.skip(k)[0] == p0[k]);
            assert(rest@ =~= p0.take(k));
            assert(part == p0[k]);
            assert(all_files(p0.skip(k)) == part.files@ + acc.files@);
            lemma_all_files_split(p0, k);
            lemma_sum_append(all_files(p0.take(k)), all_files(p0.skip(k)), size_weight());
            lemma_size_sum_nonneg(all_files(p0.take(k)));
            lemma_sum_append(part.files@, acc.files@, size_weight());
            assert(part.wf());
        }
        let ghost before = (part, acc);
        match part.merge(acc) {
            Some(m) => {
                acc = m;
            },
            None => {
                proof {
                    let t = all_files(p0.take(k));
                    let u = all_files(p0.skip(k));
                    assert(size_sum(u) == before.0.total_size + before.1.total_size);
                    assert(all_files(p0).len() == t.len() + u.len());
                }
                return None;
            },
        }
    }
    proof {
        assert(p0.skip(0) =~= p0);
    }
    Some(acc)
}

} // verus!
