//! Ranking a frequency table by descending count.

use vstd::prelude::*;
use crate::table::{count_in, entries_wf, lemma_count_absent, lemma_count_entry, FreqTable};

verus! {

/// The view of a ranked list.
pub open spec fn ranked_view(r: Seq<(String, u64)>) -> Seq<(Seq<char>, nat)> {
    r.map_values(|e: (String, u64)| (e.0@, e.1 as nat))
}

/// Counts never rise along the list.
pub open spec fn descending(r: Seq<(Seq<char>, nat)>) -> bool {
    forall|i: int, j: int| 0 <= i < j < r.len() ==> (#[trigger] r[i]).1 >= (#[trigger] r[j]).1
}

/// `r` lists exactly the entries of `tv`, each once, by descending count.
pub open spec fn is_ranking(tv: Seq<(Seq<char>, nat)>, r: Seq<(Seq<char>, nat)>) -> bool {
    &&& r.len() == tv.len()
    &&& entries_wf(r)
    &&& forall|j: int| 0 <= j < r.len() ==> tv.contains(#[trigger] r[j])
    &&& forall|k: int| 0 <= k < tv.len() ==> r.contains(#[trigger] tv[k])
    &&& descending(r)
}

/// The ranked result of a table: every token with its count, by
/// descending count.
pub fn rank(table: &FreqTable) -> (r: Vec<(String, u64)>)
    requires
        table.wf(),
    ensures
        is_ranking(table@, ranked_view(r@)),
{
    let entries: &Vec<(String, u64)> = table.entries();
    let ghost tv = table@;
    let mut out: Vec<(String, u64)> = Vec::new();
    let mut i: usize = 0;
    while i < entries.len()
        invariant
            i <= entries.len(),
            tv == entries@.map_values(|e: (String, u64)| (e.0@, e.1 as nat)),
            entries_wf(tv),
            out@.len() == i,
            entries_wf(ranked_view(out@)),
            descending(ranked_view(out@)),
            forall|j: int| 0 <= j < out@.len() ==> tv.subrange(0, i as int).contains(#[trigger] ranked_view(out@)[j]),
            forall|k: int| 0 <= k < i ==> ranked_view(out@).contains(#[trigger] tv[k]),
        decreases entries.len() - i,
    {
        let c = entries[i].1;
        let ghost e = tv[i as int];
        let ghost ov = ranked_view(out@);
        let mut p: usize = 0;
        while p < out.len() && out[p].1 >= c
            invariant
                p <= out@.len(),
                forall|j: int| 0 <= j < p ==> (#[trigger] out@[j]).1 >= c,
            decreases out@.len() - p,
        {
            p = p + 1;
        }
        proof {
            assert(forall|j: int| 0 <= j < p ==> (#[trigger] ov[j]).1 >= c && ov[j] == (out@[j].0@, out@[j].1 as nat));
            assert(p < out@.len() ==> ov[p as int].1 < c);
        }
        let item = (entries[i].0.clone(), c);
        out.insert(p, item);
        proof {
            let nv = ranked_view(out@);
            assert(e == (entries@[i as int].0@, c as nat));
            assert(nv =~= ov.insert(p as int, e));
            // tokens stay distinct: the new one is not among the earlier ones
            assert forall|j: int| 0 <= j < ov.len() implies (#[trigger] ov[j]).0 != e.0 by {
                let k = choose|k: int| 0 <= k < i && tv.subrange(0, i as int)[k] == ov[j];
                assert(tv[k] == ov[j]);
            }
            assert forall|a: int, b: int| 0 <= a < b < nv.len() implies (#[trigger] nv[a]).0 != (#[trigger] nv[b]).0 by {
                if a < p && b == p {
                } else if a == p {
                    assert(nv[b] == ov[b - 1]);
                } else {
                    let aa = if a < p { a } else { a - 1 };
                    let bb = if b < p { b } else { b - 1 };
                    assert(nv[a] == ov[aa] && nv[b] == ov[bb] && aa < bb);
                }
            }
            assert forall|a: int, b: int| 0 <= a < b < nv.len() implies (#[trigger] nv[a]).1 >= (#[trigger] nv[b]).1 by {
                if a < p && b == p {
                } else if a == p {
                    assert(nv[b] == ov[b - 1]);
                    if b - 1 > p {
                        assert(ov[p as int].1 >= ov[b - 1].1);
                    }
                } else {
                    let aa = if a < p { a } else { a - 1 };
                    let bb = if b < p { b } else { b - 1 };
                    assert(nv[a] == ov[aa] && nv[b] == ov[bb] && aa < bb);
                }
            }
            assert forall|j: int| 0 <= j < nv.len() implies tv.subrange(0, i + 1).contains(#[trigger] nv[j]) by {
                if j == p {
                    assert(tv.subrange(0, i + 1)[i as int] == e);
                } else {
                    let jj = if j < p { j } else { j - 1 };
                    assert(nv[j] == ov[jj]);
                    let k = choose|k: int| 0 <= k < i && tv.subrange(0, i as int)[k] == ov[jj];
                    assert(tv.subrange(0, i + 1)[k] == ov[jj]);
                }
            }
            assert forall|k: int| 0 <= k < i + 1 implies nv.contains(#[trigger] tv[k]) by {
                if k == i {
                    assert(nv[p as int] == e);
                } else {
                    let j = choose|j: int| 0 <= j < ov.len() && ov[j] == tv[k];
                    if j < p {
                        assert(nv[j] == tv[k]);
                    } else {
                        assert(nv[j + 1] == tv[k]);
                    }
                }
            }
        }
        i = i + 1;
    }
    assert(tv.subrange(0, i as int) =~= tv);
    out
}

/// What a ranking says of counts: each listed token carries its count in
/// the table, and every token of the table is listed.
pub proof fn lemma_ranking_counts(tv: Seq<(Seq<char>, nat)>, r: Seq<(Seq<char>, nat)>)
    requires
        entries_wf(tv),
        is_ranking(tv, r),
    ensures
        forall|j: int| 0 <= j < r.len() ==> count_in(tv, (#[trigger] r[j]).0) == r[j].1,
        forall|t: Seq<char>| #[trigger] count_in(tv, t) > 0 ==> exists|j: int| 0 <= j < r.len() && r[j].0 == t,
{
    assert forall|j: int| 0 <= j < r.len() implies count_in(tv, (#[trigger] r[j]).0) == r[j].1 by {
        let k = choose|k: int| 0 <= k < tv.len() && tv[k] == r[j];
        lemma_count_entry(tv, k);
    }
    assert forall|t: Seq<char>| #[trigger] count_in(tv, t) > 0 implies exists|j: int| 0 <= j < r.len() && r[j].0 == t by {
        if forall|k: int| 0 <= k < tv.len() ==> (#[trigger] tv[k]).0 != t {
            lemma_count_absent(tv, t);
        } else {
            let k = choose|k: int| 0 <= k < tv.len() && (#[trigger] tv[k]).0 == t;
            assert(r.contains(tv[k]));
        }
    }
}

} // verus!
