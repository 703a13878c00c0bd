//! Merging any number of local frequency tables into the global one.

use vstd::prelude::*;
use crate::table::FreqTable;

verus! {

/// The count of `t` summed over a list of tables.
pub open spec fn merged_count(ts: Seq<FreqTable>, t: Seq<char>) -> nat
    decreases ts.len(),
{
    if ts.len() == 0 {
        0
    } else {
        merged_count(ts.drop_last(), t) + ts.last().count(t)
    }
}

/// The sum of all counts over a list of tables.
pub open spec fn merged_sum(ts: Seq<FreqTable>) -> nat
    decreases ts.len(),
{
    if ts.len() == 0 {
        0
    } else {
        merged_sum(ts.drop_last()) + ts.last().sum()
    }
}

proof fn lemma_merged_sum_prefix(ts: Seq<FreqTable>, k: int)
    requires
        0 <= k <= ts.len(),
    ensures
        merged_sum(ts.subrange(0, k)) <= merged_sum(ts),
    decreases ts.len() - k,
{
    if k < ts.len() {
        lemma_merged_sum_prefix(ts, k + 1);
        assert(ts.subrange(0, k + 1).drop_last() =~= ts.subrange(0, k));
    } else {
        assert(ts.subrange(0, k) =~= ts);
    }
}

/// Merges the tables in the order given: counts of equal tokens add.
pub fn merge_all(tables: &Vec<FreqTable>) -> (r: FreqTable)
    requires
        forall|i: int| 0 <= i < tables@.len() ==> (#[trigger] tables@[i]).wf(),
        merged_sum(tables@) <= u64::MAX,
    ensures
        r.wf(),
        r.sum() == merged_sum(tables@),
        forall|t: Seq<char>| #[trigger] r.count(t) == merged_count(tables@, t),
{
    let mut global = FreqTable::new();
    let mut i: usize = 0;
    while i < tables.len()
        invariant
            i <= tables.len(),
            forall|j: int| 0 <= j < tables@.len() ==> (#[trigger] tables@[j]).wf(),
            merged_sum(tables@) <= u64::MAX,
            global.wf(),
            global.sum() == merged_sum(tables@.subrange(0, i as int)),
            forall|t: Seq<char>| #[trigger] global.count(t) == merged_count(tables@.subrange(0, i as int), t),
        decreases tables.len() - i,
    {
        proof {
            assert(tables@.subrange(0, i + 1).drop_last() =~= tables@.subrange(0, i as int));
            lemma_merged_sum_prefix(tables@, i + 1);
        }
        global.merge_from(&tables[i]);
        i = i + 1;
    }
    assert(tables@.subrange(0, i as int) =~= tables@);
    global
}

} // verus!
