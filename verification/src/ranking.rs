//! Ranking entries by cumulative size, largest first.

use crate::scanner::{entry_records, DirectoryEntry, EntryRecord};
use vstd::prelude::*;

verus! {

/// The place of the first entry among the first `n` whose cumulative size
/// none of them exceeds.
pub open spec fn first_largest(s: Seq<EntryRecord>, n: int) -> int
    decreases n,
{
    if n <= 1 {
        0
    } else {
        let m = first_largest(s, n - 1);
        if s[n - 1].cumulative_size_bytes > s[m].cumulative_size_bytes {
            n - 1
        } else {
            m
        }
    }
}

/// The entries by cumulative size, largest first; entries of equal size
/// keep their order.
pub open spec fn ranked(s: Seq<EntryRecord>) -> Seq<EntryRecord>
    decreases s.len(),
{
    let k = first_largest(s, s.len() as int);
    if 0 <= k < s.len() {
        seq![s[k]] + ranked(s.remove(k))
    } else {
        s
    }
}

/// No entry is followed by one of larger cumulative size.
pub open spec fn descending(s: Seq<EntryRecord>) -> bool {
    forall|i: int, j: int|
        0 <= i < j < s.len() ==> s[i].cumulative_size_bytes >= s[j].cumulative_size_bytes
}

/// The first largest entry is among the first `n`, none of them is
/// larger, and every entry before it is smaller.
pub proof fn lemma_first_largest(s: Seq<EntryRecord>, n: int)
    requires
        1 <= n <= s.len(),
    ensures
        0 <= first_largest(s, n) < n,
        forall|j: int|
            0 <= j < n ==> (#[trigger] s[j]).cumulative_size_bytes <= s[first_largest(
                s,
                n,
            )].cumulative_size_bytes,
        forall|j: int|
            0 <= j < first_largest(s, n) ==> (#[trigger] s[j]).cumulative_size_bytes
                < s[first_largest(s, n)].cumulative_size_bytes,
    decreases n,
{
    if n > 1 {
        lemma_first_largest(s, n - 1);
    }
}

/// Ranking rearranges: it neither drops nor adds nor changes an entry.
pub proof fn lemma_ranked_permutes(s: Seq<EntryRecord>)
    ensures
        ranked(s).to_multiset() == s.to_multiset(),
        ranked(s).len() == s.len(),
    decreases s.len(),
{
    broadcast use vstd::seq_lib::to_multiset_remove, vstd::seq_lib::to_multiset_insert;

    if s.len() > 0 {
        lemma_first_largest(s, s.len() as int);
        let k = first_largest(s, s.len() as int);
        let rest = s.remove(k);
        lemma_ranked_permutes(rest);
        assert(ranked(s) =~= ranked(rest).insert(0, s[k]));
        assert(ranked(rest).insert(0, s[k]).to_multiset() == ranked(rest).to_multiset().insert(
            s[k],
        ));
        assert(rest.to_multiset() == s.to_multiset().remove(s[k]));
        vstd::seq_lib::to_multiset_contains(s, s[k]);
        assert(s.contains(s[k]));
        assert(s.to_multiset().remove(s[k]).insert(s[k]) =~= s.to_multiset());
    }
}

/// Ranking puts the entries in descending order of cumulative size.
pub proof fn lemma_ranked_descends(s: Seq<EntryRecord>)
    ensures
        descending(ranked(s)),
    decreases s.len(),
{
    if s.len() > 0 {
        lemma_first_largest(s, s.len() as int);
        let k = first_largest(s, s.len() as int);
        let rest = s.remove(k);
        lemma_ranked_descends(rest);
        lemma_ranked_permutes(rest);
        let r = ranked(s);
        assert(r =~= seq![s[k]] + ranked(rest));
        assert forall|i: int, j: int| 0 <= i < j < r.len() implies r[i].cumulative_size_bytes
            >= r[j].cumulative_size_bytes by {
            if i == 0 {
                let x = ranked(rest)[j - 1];
                assert(ranked(rest).contains(x));
                vstd::seq_lib::to_multiset_contains(ranked(rest), x);
                vstd::seq_lib::to_multiset_contains(rest, x);
                assert(rest.contains(x));
                let q = choose|q: int| 0 <= q < rest.len() && rest[q] == x;
                assert(rest[q] == if q < k {
                    s[q]
                } else {
                    s[q + 1]
                });
            } else {
                assert(r[i] == ranked(rest)[i - 1]);
                assert(r[j] == ranked(rest)[j - 1]);
            }
        }
    }
}

/// Sorts the entries by cumulative size, largest first. Entries of equal
/// size keep their order.
pub fn sort_by_cumulative_size(entries: Vec<DirectoryEntry>) -> (r: Vec<DirectoryEntry>)
    ensures
        entry_records(r@) == ranked(entry_records(entries@)),
{
    let ghost goal = ranked(entry_records(entries@));
    let mut src = entries;
    let mut out: Vec<DirectoryEntry> = Vec::new();
    proof {
        assert(entry_records(out@) + ranked(entry_records(src@)) =~= goal);
    }
    while src.len() > 0
        invariant
            entry_records(out@) + ranked(entry_records(src@)) == goal,
        decreases src.len(),
    {
        let ghost recs = entry_records(src@);
        let ghost done = entry_records(out@);
        let mut m: usize = 0;
        let mut j: usize = 1;
        while j < src.len()
            invariant
                1 <= j <= src.len(),
                recs == entry_records(src@),
                m < j,
                m as int == first_largest(recs, j as int),
            decreases src.len() - j,
        {
            proof {
                assert(recs[j as int] == src@[j as int]@);
                assert(recs[m as int] == src@[m as int]@);
            }
            if src[j].cumulative_size_bytes > src[m].cumulative_size_bytes {
                m = j;
            }
            j += 1;
        }
        let e = src.remove(m);
        out.push(e);
        proof {
            assert(e@ == recs[m as int]);
            assert(entry_records(src@) =~= recs.remove(m as int));
            assert(entry_records(out@) =~= done.push(recs[m as int]));
            assert(ranked(recs) == seq![recs[m as int]] + ranked(recs.remove(m as int)));
            assert(done.push(recs[m as int]) + ranked(recs.remove(m as int)) =~= done + ranked(
                recs,
            ));
        }
    }
    proof {
        assert(ranked(entry_records(src@)) =~= Seq::<EntryRecord>::empty());
        assert(entry_records(out@) + Seq::<EntryRecord>::empty() =~= entry_records(out@));
    }
    out
}

} // verus!
