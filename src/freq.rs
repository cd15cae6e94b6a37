//! Frequency counts of range-checked values, kept in a hash map.
use vstd::prelude::*;

verus! {

/// How many times each range-checked value occurred, held in a
/// `hashbrown::HashMap<u64, usize>` that only the wrappers below touch.
#[verifier::external_body]
pub struct FreqMap {
    m: hashbrown::HashMap<u64, usize>,
}

/// The entries of the hash map inside a frequency map, by key.
pub uninterp spec fn freq_entries(m: FreqMap) -> Map<u64, usize>;

/// The count of `k` in a frequency map: zero where it holds no entry.
pub open spec fn freq_count(m: FreqMap, k: u64) -> nat {
    if freq_entries(m).contains_key(k) {
        freq_entries(m)[k] as nat
    } else {
        0
    }
}

impl FreqMap {
    /// Relies on `hashbrown::HashMap::new`: the new map is empty.
    #[verifier::external_body]
    fn empty() -> (r: FreqMap)
        ensures
            freq_entries(r).is_empty(),
    {
        FreqMap { m: hashbrown::HashMap::new() }
    }

    /// A map in which every value has count zero.
    pub fn new() -> (r: FreqMap)
        ensures
            forall|v: u64| freq_count(r, v) == 0,
    {
        FreqMap::empty()
    }

    /// Relies on `hashbrown::HashMap::get`: the value stored under `k`, if any.
    #[verifier::external_body]
    fn get(&self, k: u64) -> (r: Option<usize>)
        ensures
            r == (if freq_entries(*self).contains_key(k) {
                Some(freq_entries(*self)[k])
            } else {
                None
            }),
    {
        self.m.get(&k).copied()
    }

    /// Relies on `hashbrown::HashMap::insert`: `k` now maps to `v`, other
    /// entries are kept.
    #[verifier::external_body]
    fn insert(&mut self, k: u64, v: usize)
        ensures
            freq_entries(*final(self)) == freq_entries(*old(self)).insert(k, v),
    {
        self.m.insert(k, v);
    }

    /// The number of times `k` was counted.
    pub fn count(&self, k: u64) -> (r: usize)
        ensures
            r == freq_count(*self, k),
    {
        match self.get(k) {
            Some(c) => c,
            None => 0,
        }
    }

    /// Counts one more occurrence of `k`.
    pub fn increment(&mut self, k: u64)
        requires
            freq_count(*old(self), k) < usize::MAX,
        ensures
            freq_count(*final(self), k) == freq_count(*old(self), k) + 1,
            forall|j: u64| j != k ==> freq_count(*final(self), j) == freq_count(*old(self), j),
    {
        let c = self.count(k);
        self.insert(k, c + 1);
    }
}

/// How many times `v` occurs in `s`.
pub open spec fn count_in(s: Seq<u64>, v: u64) -> nat
    decreases s.len(),
{
    if s.len() == 0 {
        0
    } else {
        count_in(s.drop_last(), v) + (if s.last() == v { 1nat } else { 0nat })
    }
}

/// The occurrences in `s` of the values `0..n`.
pub open spec fn sum_counts(s: Seq<u64>, n: nat) -> nat
    decreases n,
{
    if n == 0 {
        0
    } else {
        sum_counts(s, (n - 1) as nat) + count_in(s, (n - 1) as u64)
    }
}

/// Appending `x` adds one to the occurrences of `0..n` exactly where `x < n`.
proof fn lemma_sum_counts_push(s: Seq<u64>, x: u64, n: nat)
    requires
        n <= u64::MAX + 1,
    ensures
        sum_counts(s.push(x), n) == sum_counts(s, n) + (if x < n { 1nat } else { 0nat }),
    decreases n,
{
    assert(s.push(x).drop_last() =~= s);
    if n > 0 {
        lemma_sum_counts_push(s, x, (n - 1) as nat);
    }
}

/// Where every value of `s` is below `n`, the occurrences of `0..n` count
/// every element of `s`.
pub proof fn lemma_sum_counts_all(s: Seq<u64>, n: nat)
    requires
        n <= u64::MAX + 1,
        forall|i: int| 0 <= i < s.len() ==> s[i] < n,
    ensures
        sum_counts(s, n) == s.len(),
    decreases s.len(),
{
    if s.len() == 0 {
        assert(s =~= Seq::empty());
        lemma_sum_counts_empty(n);
    } else {
        let t = s.drop_last();
        assert(t.push(s.last()) =~= s);
        assert(s.last() == s[s.len() - 1]);
        lemma_sum_counts_all(t, n);
        lemma_sum_counts_push(t, s.last(), n);
    }
}

/// No value occurs in the empty sequence.
proof fn lemma_sum_counts_empty(n: nat)
    ensures
        sum_counts(Seq::empty(), n) == 0,
    decreases n,
{
    if n > 0 {
        lemma_sum_counts_empty((n - 1) as nat);
    }
}

/// No value occurs more often than the sequence is long.
pub proof fn lemma_count_le_len(s: Seq<u64>, v: u64)
    ensures
        count_in(s, v) <= s.len(),
    decreases s.len(),
{
    if s.len() > 0 {
        lemma_count_le_len(s.drop_last(), v);
    }
}

} // verus!
