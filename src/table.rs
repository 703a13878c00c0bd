//! Token frequency tables: one per file, and their merge into one.

use vstd::prelude::*;

verus! {

/// The count that a list of entries gives a token: the sum of the counts
/// of the entries for it.
pub open spec fn count_in(s: Seq<(Seq<char>, nat)>, t: Seq<char>) -> nat
    decreases s.len(),
{
    if s.len() == 0 {
        0
    } else {
        count_in(s.drop_last(), t) + if s.last().0 == t { s.last().1 } else { 0 }
    }
}

/// The sum of all counts of a list of entries.
pub open spec fn sum_all(s: Seq<(Seq<char>, nat)>) -> nat
    decreases s.len(),
{
    if s.len() == 0 {
        0
    } else {
        sum_all(s.drop_last()) + s.last().1
    }
}

/// Entries with pairwise distinct tokens and positive counts.
pub open spec fn entries_wf(s: Seq<(Seq<char>, nat)>) -> bool {
    &&& forall|i: int, j: int| 0 <= i < j < s.len() ==> (#[trigger] s[i]).0 != (#[trigger] s[j]).0
    &&& forall|i: int| 0 <= i < s.len() ==> (#[trigger] s[i]).1 > 0
}

/// Changing the count of entry `i` by `d` changes the count of its token,
/// and of no other, by `d`.
pub proof fn lemma_count_update(s: Seq<(Seq<char>, nat)>, i: int, v: nat, t: Seq<char>)
    requires
        0 <= i < s.len(),
        s[i].1 <= v,
    ensures
        count_in(s.update(i, (s[i].0, v)), t) == count_in(s, t) + if s[i].0 == t { (v - s[i].1) as nat } else { 0 },
        sum_all(s.update(i, (s[i].0, v))) == sum_all(s) + (v - s[i].1) as nat,
    decreases s.len(),
{
    let u = s.update(i, (s[i].0, v));
    if i < s.len() - 1 {
        assert(u.drop_last() =~= s.drop_last().update(i, (s[i].0, v)));
        lemma_count_update(s.drop_last(), i, v, t);
    } else {
        assert(u.drop_last() =~= s.drop_last());
    }
}

/// With distinct tokens, the count of a token is that of its entry.
pub proof fn lemma_count_entry(s: Seq<(Seq<char>, nat)>, i: int)
    requires
        entries_wf(s),
        0 <= i < s.len(),
    ensures
        count_in(s, s[i].0) == s[i].1,
    decreases s.len(),
{
    if i < s.len() - 1 {
        lemma_count_entry(s.drop_last(), i);
    } else {
        lemma_count_absent(s.drop_last(), s[i].0);
    }
}

/// A token without an entry has count zero.
pub proof fn lemma_count_absent(s: Seq<(Seq<char>, nat)>, t: Seq<char>)
    requires
        forall|j: int| 0 <= j < s.len() ==> (#[trigger] s[j]).0 != t,
    ensures
        count_in(s, t) == 0,
    decreases s.len(),
{
    if s.len() > 0 {
        lemma_count_absent(s.drop_last(), t);
    }
}

/// No entry counts more than the sum of all.
pub proof fn lemma_entry_le_sum(s: Seq<(Seq<char>, nat)>, i: int)
    requires
        0 <= i < s.len(),
    ensures
        s[i].1 <= sum_all(s),
    decreases s.len(),
{
    if i < s.len() - 1 {
        lemma_entry_le_sum(s.drop_last(), i);
    }
}

/// A mapping from token to a positive count.
#[derive(Clone, Debug)]
pub struct FreqTable {
    entries: Vec<(String, u64)>,
    total: u64,
}

impl View for FreqTable {
    type V = Seq<(Seq<char>, nat)>;

    closed spec fn view(&self) -> Seq<(Seq<char>, nat)> {
        self.entries@.map_values(|e: (String, u64)| (e.0@, e.1 as nat))
    }
}

impl FreqTable {
    /// The stored sum matches the entries.
    pub closed spec fn total_ok(&self) -> bool {
        self.total as nat == sum_all(self@)
    }

    pub open spec fn wf(&self) -> bool {
        entries_wf(self@) && self.total_ok()
    }

    /// The count of token `t`; zero when it is absent.
    pub open spec fn count(&self, t: Seq<char>) -> nat {
        count_in(self@, t)
    }

    /// The sum of all counts.
    pub open spec fn sum(&self) -> nat {
        sum_all(self@)
    }

    /// An empty table.
    pub fn new() -> (r: FreqTable)
        ensures
            r.wf(),
            r@.len() == 0,
            forall|t: Seq<char>| #[trigger] r.count(t) == 0,
    {
        let r = FreqTable { entries: Vec::new(), total: 0 };
        assert(r@ =~= Seq::<(Seq<char>, nat)>::empty());
        r
    }

    /// The sum of all counts.
    pub fn total(&self) -> (r: u64)
        requires
            self.wf(),
        ensures
            r as nat == self.sum(),
    {
        self.total
    }

    /// The number of distinct tokens.
    pub fn len(&self) -> (r: usize)
        ensures
            r == self@.len(),
    {
        self.entries.len()
    }

    /// The entries, one per token, in the order the tokens first came.
    pub fn entries(&self) -> (r: &Vec<(String, u64)>)
        ensures
            r@.map_values(|e: (String, u64)| (e.0@, e.1 as nat)) == self@,
    {
        &self.entries
    }

    /// The count of `token`; zero when it is absent.
    pub fn get(&self, token: &str) -> (r: u64)
        requires
            self.wf(),
        ensures
            r as nat == self.count(token@),
    {
        let key = token.to_owned();
        let mut i: usize = 0;
        while i < self.entries.len()
            invariant
                i <= self.entries.len(),
                key@ == token@,
                self.wf(),
                forall|j: int| 0 <= j < i ==> (#[trigger] self@[j]).0 != token@,
            decreases self.entries.len() - i,
        {
            if self.entries[i].0 == key {
                proof {
                    assert(self@[i as int].0 == token@);
                    lemma_count_entry(self@, i as int);
                }
                return self.entries[i].1;
            }
            assert(self@[i as int].0 != token@);
            i = i + 1;
        }
        proof {
            lemma_count_absent(self@, token@);
        }
        0
    }

    /// Adds `n` occurrences of `token`.
    pub fn add(&mut self, token: String, n: u64)
        requires
            old(self).wf(),
            n > 0,
            old(self).sum() + n <= u64::MAX,
        ensures
            final(self).wf(),
            final(self).sum() == old(self).sum() + n,
            forall|t: Seq<char>| #[trigger] final(self).count(t) == old(self).count(t) + if t == token@ { n as nat } else { 0 },
    {
        let ghost s0 = self@;
        let mut i: usize = 0;
        while i < self.entries.len()
            invariant
                i <= self.entries.len(),
                self@ == s0,
                s0 == old(self)@,
                self.wf(),
                n > 0,
                sum_all(s0) + n <= u64::MAX,
                forall|j: int| 0 <= j < i ==> (#[trigger] s0[j]).0 != token@,
            decreases self.entries.len() - i,
        {
            if self.entries[i].0 == token {
                let c = self.entries[i].1;
                assert(s0[i as int].1 == c as nat);
                proof {
                    lemma_entry_le_sum(s0, i as int);
                }
                let tok = self.entries[i].0.clone();
                self.entries.set(i, (tok, c + n));
                self.total = self.total + n;
                proof {
                    assert(self@ =~= s0.update(i as int, (s0[i as int].0, (c + n) as nat)));
                    assert forall|t: Seq<char>| #[trigger] self.count(t) == count_in(s0, t) + if t == token@ { n as nat } else { 0 } by {
                        lemma_count_update(s0, i as int, (c + n) as nat, t);
                    }
                    lemma_count_update(s0, i as int, (c + n) as nat, token@);
                }
                return;
            }
            assert(s0[i as int].0 != token@);
            i = i + 1;
        }
        let ghost tk = token@;
        self.entries.push((token, n));
        self.total = self.total + n;
        assert(self@ =~= s0.push((tk, n as nat)));
        assert(self@.drop_last() =~= s0);
    }

    /// Adds every count of `other` to this table.
    pub fn merge_from(&mut self, other: &FreqTable)
        requires
            old(self).wf(),
            other.wf(),
            old(self).sum() + other.sum() <= u64::MAX,
        ensures
            final(self).wf(),
            final(self).sum() == old(self).sum() + other.sum(),
            forall|t: Seq<char>| #[trigger] final(self).count(t) == old(self).count(t) + other.count(t),
    {
        let ghost s0 = *self;
        let mut i: usize = 0;
        while i < other.entries.len()
            invariant
                i <= other.entries.len(),
                other.wf(),
                self.wf(),
                self.sum() == s0.sum() + sum_all(other@.subrange(0, i as int)),
                s0.sum() + other.sum() <= u64::MAX,
                forall|t: Seq<char>| #[trigger] self.count(t) == s0.count(t) + count_in(other@.subrange(0, i as int), t),
            decreases other.entries.len() - i,
        {
            let ghost pre = other@.subrange(0, i as int);
            let ghost next = other@.subrange(0, i + 1);
            assert(next.drop_last() =~= pre);
            proof {
                lemma_sum_prefix_le(other@, i + 1);
            }
            let tok = other.entries[i].0.clone();
            let n = other.entries[i].1;
            self.add(tok, n);
            i = i + 1;
        }
        assert(other@.subrange(0, other@.len() as int) =~= other@);
    }
}

/// The sum of a prefix is at most the sum of all.
pub proof fn lemma_sum_prefix_le(s: Seq<(Seq<char>, nat)>, k: int)
    requires
        0 <= k <= s.len(),
    ensures
        sum_all(s.subrange(0, k)) <= sum_all(s),
    decreases s.len() - k,
{
    if k < s.len() {
        lemma_sum_prefix_le(s, k + 1);
        assert(s.subrange(0, k + 1).drop_last() =~= s.subrange(0, k));
    } else {
        assert(s.subrange(0, k) =~= s);
    }
}

} // verus!
