//! Properties that relate several operations of the library.

use vstd::prelude::*;
use crate::extract::{accepted, byte_len, unwanted_hit};
use crate::merge::merged_count;
use crate::rank::{is_ranking, lemma_ranking_counts};
use crate::rules::{resolved, resolved_from, ConfigModel, RulesModel};
use crate::scan::{eligible, file_count, global_count, occurrences};
use crate::table::FreqTable;

verus! {

broadcast use vstd::seq_lib::group_to_multiset_ensures;

/// Merging the local tables of the files, one per file, gives for every
/// token the sum over the files of the lines that yield it under each
/// file's resolved rule set.
pub proof fn law_global_count(cfg: ConfigModel, files: Seq<(Seq<char>, Seq<Seq<char>>)>, locals: Seq<FreqTable>, t: Seq<char>)
    requires
        locals.len() == files.len(),
        forall|i: int| 0 <= i < files.len() ==> (#[trigger] locals[i]).count(t) == file_count(cfg, files[i], t),
    ensures
        merged_count(locals, t) == global_count(cfg, files, t),
    decreases files.len(),
{
    if files.len() > 0 {
        let n = files.len() - 1;
        assert forall|i: int| 0 <= i < n implies (#[trigger] locals.drop_last()[i]).count(t) == file_count(cfg, files.drop_last()[i], t) by {
            assert(locals.drop_last()[i] == locals[i]);
            assert(files.drop_last()[i] == files[i]);
        }
        law_global_count(cfg, files.drop_last(), locals.drop_last(), t);
    }
}

/// Taking table `j` out of a list takes its count out of the merged count.
proof fn lemma_merged_remove(ts: Seq<FreqTable>, j: int, t: Seq<char>)
    requires
        0 <= j < ts.len(),
    ensures
        merged_count(ts, t) == merged_count(ts.remove(j), t) + ts[j].count(t),
    decreases ts.len(),
{
    if j < ts.len() - 1 {
        assert(ts.remove(j).drop_last() =~= ts.drop_last().remove(j));
        assert(ts.remove(j).last() == ts.last());
        lemma_merged_remove(ts.drop_last(), j, t);
    } else {
        assert(ts.remove(j) =~= ts.drop_last());
    }
}

/// The merged count of a token does not depend on the order in which the
/// tables are merged.
pub proof fn law_merge_order(a: Seq<FreqTable>, b: Seq<FreqTable>, t: Seq<char>)
    requires
        a.to_multiset() == b.to_multiset(),
    ensures
        merged_count(a, t) == merged_count(b, t),
    decreases a.len(),
{
    if a.len() == 0 {
        assert(b.to_multiset().len() == 0);
        assert(b.len() == 0);
    } else {
        let x = a.last();
        assert(a.to_multiset().count(x) > 0) by {
            assert(a.contains(a[a.len() - 1]));
        }
        assert(b.contains(x));
        let j = choose|j: int| 0 <= j < b.len() && b[j] == x;
        lemma_merged_remove(b, j, t);
        assert(a.drop_last() =~= a.remove(a.len() - 1));
        assert(a.remove(a.len() - 1).to_multiset() == a.to_multiset().remove(x));
        assert(b.remove(j).to_multiset() == b.to_multiset().remove(x));
        law_merge_order(a.drop_last(), b.remove(j), t);
    }
}

/// A token that an unwanted expression matches, or that is shorter than
/// the minimum length, is never counted, whatever the lines.
pub proof fn law_filtered_never_counted(lines: Seq<Seq<char>>, m: RulesModel, t: Seq<char>)
    requires
        unwanted_hit(m.unwanted, t) || byte_len(t) < m.min_length,
    ensures
        occurrences(lines, m, t) == 0,
    decreases lines.len(),
{
    if lines.len() > 0 {
        law_filtered_never_counted(lines.drop_last(), m, t);
        assert(accepted(m, lines.last()) != Some(t));
    }
}

/// A file whose name has an override gets the first override for that
/// name, and nothing of the default.
pub proof fn law_override_applies(cfg: ConfigModel, name: Seq<char>, i: int)
    requires
        0 <= i < cfg.files.len(),
        cfg.files[i].0 == name,
        forall|j: int| 0 <= j < i ==> (#[trigger] cfg.files[j]).0 != name,
    ensures
        resolved(cfg, name) == cfg.files[i].1,
{
    lemma_resolved_skip(cfg, name, 0, i);
}

/// A file whose name has no override gets the default.
pub proof fn law_default_applies(cfg: ConfigModel, name: Seq<char>)
    requires
        forall|j: int| 0 <= j < cfg.files.len() ==> (#[trigger] cfg.files[j]).0 != name,
    ensures
        resolved(cfg, name) == cfg.default,
{
    lemma_resolved_skip(cfg, name, 0, cfg.files.len() as int);
}

proof fn lemma_resolved_skip(cfg: ConfigModel, name: Seq<char>, k: int, i: int)
    requires
        0 <= k <= i <= cfg.files.len(),
        forall|j: int| 0 <= j < i ==> (#[trigger] cfg.files[j]).0 != name,
    ensures
        resolved_from(cfg, name, k) == resolved_from(cfg, name, i),
    decreases i - k,
{
    if k < i {
        lemma_resolved_skip(cfg, name, k + 1, i);
    }
}

/// A file that is not eligible adds nothing to any count.
pub proof fn law_ineligible_adds_nothing(cfg: ConfigModel, files: Seq<(Seq<char>, Seq<Seq<char>>)>, f: (Seq<char>, Seq<Seq<char>>), t: Seq<char>)
    requires
        !eligible(f.0),
    ensures
        global_count(cfg, files.push(f), t) == global_count(cfg, files, t),
{
    assert(files.push(f).drop_last() =~= files);
}

/// Two tables with the same counts (two runs on the same input) have
/// rankings that list the same (token, count) pairs, each by descending
/// count: they differ at most in the order of equal counts.
pub proof fn law_rankings_agree(
    a: FreqTable,
    b: FreqTable,
    r1: Seq<(Seq<char>, nat)>,
    r2: Seq<(Seq<char>, nat)>,
)
    requires
        a.wf(),
        b.wf(),
        forall|t: Seq<char>| #[trigger] a.count(t) == b.count(t),
        is_ranking(a@, r1),
        is_ranking(b@, r2),
    ensures
        forall|j: int| 0 <= j < r1.len() ==> r2.contains(#[trigger] r1[j]),
        forall|j: int| 0 <= j < r2.len() ==> r1.contains(#[trigger] r2[j]),
{
    lemma_ranking_counts(a@, r1);
    lemma_ranking_counts(b@, r2);
    assert forall|j: int| 0 <= j < r1.len() implies r2.contains(#[trigger] r1[j]) by {
        let t = r1[j].0;
        assert(a.count(t) == b.count(t));
        assert(r1[j].1 > 0);
        let k = choose|k: int| 0 <= k < r2.len() && r2[k].0 == t;
        assert(r2[k] == r1[j]);
    }
    assert forall|j: int| 0 <= j < r2.len() implies r1.contains(#[trigger] r2[j]) by {
        let t = r2[j].0;
        assert(a.count(t) == b.count(t));
        assert(r2[j].1 > 0);
        let k = choose|k: int| 0 <= k < r1.len() && r1[k].0 == t;
        assert(r1[k] == r2[j]);
    }
}

} // verus!
