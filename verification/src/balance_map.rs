//! A sparse, zero-pruned map from account address to token amount.
//!
//! The map has a single mutation entrypoint, [`BalanceMap::insert_balance`]:
//! inserting a nonzero amount inserts or overwrites the entry, and inserting
//! zero removes it, so an entry with amount zero is never persisted.

use vstd::prelude::*;

verus! {

/// One stored entry: an account address owning a nonzero amount.
#[derive(Clone, Copy)]
pub struct MapEntry {
    pub key: u128,
    pub amount: u128,
}

/// Amount stored for `key` in `s`, taking the latest entry if several match;
/// zero if no entry matches.
pub open spec fn seq_get(s: Seq<MapEntry>, key: u128) -> u128
    decreases s.len(),
{
    if s.len() == 0 {
        0
    } else if s.last().key == key {
        s.last().amount
    } else {
        seq_get(s.drop_last(), key)
    }
}

/// Whether some entry of `s` is keyed by `key`.
pub open spec fn seq_has(s: Seq<MapEntry>, key: u128) -> bool {
    exists|i: int| 0 <= i < s.len() && (#[trigger] s[i]).key == key
}

/// Sum of all amounts stored in `s`.
pub open spec fn seq_total(s: Seq<MapEntry>) -> int
    decreases s.len(),
{
    if s.len() == 0 {
        0
    } else {
        seq_total(s.drop_last()) + s.last().amount
    }
}

/// Well-formedness of the entry list: keys are distinct and no amount is zero.
pub open spec fn seq_wf(s: Seq<MapEntry>) -> bool {
    &&& forall|i: int| 0 <= i < s.len() ==> (#[trigger] s[i]).amount != 0
    &&& forall|i: int, j: int|
        0 <= i < j < s.len() ==> #[trigger] s[i].key != #[trigger] s[j].key
}

/// Sparse map from account address to amount; an entry with amount zero is
/// never persisted.
pub struct BalanceMap {
    entries: Vec<MapEntry>,
}

proof fn lemma_seq_get_absent(s: Seq<MapEntry>, key: u128)
    requires
        forall|i: int| 0 <= i < s.len() ==> (#[trigger] s[i]).key != key,
    ensures
        seq_get(s, key) == 0,
    decreases s.len(),
{
    if s.len() > 0 {
        assert(s.last() == s[s.len() - 1]);
        lemma_seq_get_absent(s.drop_last(), key);
    }
}

proof fn lemma_seq_get_found(s: Seq<MapEntry>, i: int)
    requires
        0 <= i < s.len(),
        forall|j: int| 0 <= j < s.len() && j != i ==> #[trigger] s[j].key != s[i].key,
    ensures
        seq_get(s, s[i].key) == s[i].amount,
    decreases s.len(),
{
    if i == s.len() - 1 {
        assert(s.last() == s[i]);
    } else {
        assert(s.last().key != s[i].key);
        assert(s.drop_last()[i] == s[i]);
        lemma_seq_get_found(s.drop_last(), i);
    }
}

/// Effect of removing the single entry at index `i` on lookups and the total.
proof fn lemma_seq_remove(s: Seq<MapEntry>, i: int, k: u128)
    requires
        0 <= i < s.len(),
        forall|j: int| 0 <= j < s.len() && j != i ==> #[trigger] s[j].key != s[i].key,
    ensures
        seq_get(s.remove(i), k) == if k == s[i].key {
            0
        } else {
            seq_get(s, k)
        },
        seq_total(s.remove(i)) == seq_total(s) - s[i].amount,
    decreases s.len(),
{
    let s2 = s.remove(i);
    if i == s.len() - 1 {
        assert(s2 =~= s.drop_last());
        assert(s.last() == s[i]);
        if k == s[i].key {
            lemma_seq_get_absent(s.drop_last(), k);
        }
    } else {
        assert(s2.last() == s[s.len() - 1]);
        assert(s2.last() == s.last());
        assert(s2.drop_last() =~= s.drop_last().remove(i));
        assert(s.drop_last()[i] == s[i]);
        assert(forall|j: int|
            0 <= j < s.drop_last().len() && j != i ==> #[trigger] s.drop_last()[j].key
                != s.drop_last()[i].key);
        lemma_seq_remove(s.drop_last(), i, k);
    }
}

/// Effect of appending an entry on lookups and the total.
proof fn lemma_seq_push(s: Seq<MapEntry>, e: MapEntry, k: u128)
    ensures
        seq_get(s.push(e), k) == if k == e.key {
            e.amount
        } else {
            seq_get(s, k)
        },
        seq_total(s.push(e)) == seq_total(s) + e.amount,
{
    assert(s.push(e).drop_last() =~= s);
    assert(s.push(e).last() == e);
}

impl BalanceMap {
    /// Amount owned by `key`; zero when no entry is stored for it.
    pub closed spec fn spec_get(&self, key: u128) -> u128 {
        seq_get(self.entries@, key)
    }

    /// Whether an entry for `key` is actually stored.
    pub closed spec fn spec_has(&self, key: u128) -> bool {
        seq_has(self.entries@, key)
    }

    /// Sum of all stored amounts, as a mathematical integer.
    pub closed spec fn total(&self) -> int {
        seq_total(self.entries@)
    }

    /// Invariant: keys are distinct and no stored amount is zero.
    pub closed spec fn wf(&self) -> bool {
        seq_wf(self.entries@)
    }

    /// In a well-formed map, an amount of zero is the same thing as absence:
    /// no residual entry remains once a balance reaches zero.
    pub proof fn lemma_zero_iff_absent(&self, key: u128)
        requires
            self.wf(),
        ensures
            self.spec_get(key) == 0 <==> !self.spec_has(key),
    {
        let s = self.entries@;
        if self.spec_has(key) {
            let i = choose|i: int| 0 <= i < s.len() && (#[trigger] s[i]).key == key;
            lemma_seq_get_found(s, i);
        } else {
            lemma_seq_get_absent(s, key);
        }
    }

    /// The empty map.
    pub fn new() -> (m: BalanceMap)
        ensures
            m.wf(),
            forall|k: u128| #[trigger] m.spec_get(k) == 0,
            forall|k: u128| !(#[trigger] m.spec_has(k)),
            m.total() == 0,
    {
        let m = BalanceMap { entries: Vec::new() };
        proof {
            assert(forall|k: u128| #[trigger] m.spec_get(k) == seq_get(m.entries@, k));
        }
        m
    }

    /// Index of the entry keyed by `key`, if one is stored.
    fn find_index(&self, key: u128) -> (r: Option<usize>)
        ensures
            (match r {
                Some(i) => i < self.entries@.len() && self.entries@[i as int].key == key,
                None => forall|j: int|
                    0 <= j < self.entries@.len() ==> (#[trigger] self.entries@[j]).key != key,
            }),
    {
        let n = self.entries.len();
        let mut i: usize = 0;
        while i < n
            invariant
                i <= n,
                n == self.entries@.len(),
                forall|j: int| 0 <= j < i ==> (#[trigger] self.entries@[j]).key != key,
            decreases n - i,
        {
            if self.entries[i].key == key {
                return Some(i);
            }
            i += 1;
        }
        None
    }

    /// Amount owned by `key`, zero when absent.
    pub fn get(&self, key: u128) -> (r: u128)
        requires
            self.wf(),
        ensures
            r == self.spec_get(key),
    {
        match self.find_index(key) {
            Some(i) => {
                proof {
                    lemma_seq_get_found(self.entries@, i as int);
                }
                self.entries[i].amount
            },
            None => {
                proof {
                    lemma_seq_get_absent(self.entries@, key);
                }
                0
            },
        }
    }

    /// Whether an entry for `key` is stored.
    pub fn contains_key(&self, key: u128) -> (r: bool)
        requires
            self.wf(),
        ensures
            r == self.spec_has(key),
    {
        match self.find_index(key) {
            Some(i) => {
                proof {
                    let s = self.entries@;
                    assert(0 <= i < s.len() && s[i as int].key == key);
                }
                true
            },
            None => false,
        }
    }

    /// The single mutation entrypoint. Stores `value` for `key` when `value`
    /// is nonzero; removes the entry when `value` is zero, so a zero balance
    /// is pruned rather than persisted.
    pub fn insert_balance(&mut self, key: u128, value: u128)
        requires
            old(self).wf(),
        ensures
            final(self).wf(),
            forall|k: u128| #[trigger] final(self).spec_get(k) == if k == key {
                value
            } else {
                old(self).spec_get(k)
            },
            forall|k: u128| #[trigger] final(self).spec_has(k) == if k == key {
                value != 0
            } else {
                old(self).spec_has(k)
            },
            final(self).total() == old(self).total() - old(self).spec_get(key) + value,
    {
        let ghost s0 = self.entries@;
        match self.find_index(key) {
            Some(i) => {
                self.entries.remove(i);
                proof {
                    lemma_seq_get_found(s0, i as int);
                    s0.remove_ensures(i as int);
                    let s1 = self.entries@;
                    assert forall|k: u128| #[trigger] seq_get(s1, k) == (if k == key {
                        0u128
                    } else {
                        seq_get(s0, k)
                    }) by {
                        lemma_seq_remove(s0, i as int, k);
                    }
                    lemma_seq_remove(s0, i as int, key);
                    assert forall|j1: int, j2: int|
                        0 <= j1 < j2 < s1.len() implies s1[j1].key != s1[j2].key by {
                        assert(s1[j1] == if j1 < i as int {
                            s0[j1]
                        } else {
                            s0[j1 + 1]
                        });
                        assert(s1[j2] == if j2 < i as int {
                            s0[j2]
                        } else {
                            s0[j2 + 1]
                        });
                    }
                    assert forall|j: int| 0 <= j < s1.len() implies (#[trigger] s1[j]).amount
                        != 0 && s1[j].key != key by {
                        assert(s1[j] == if j < i as int {
                            s0[j]
                        } else {
                            s0[j + 1]
                        });
                    }
                    assert(seq_wf(s1));
                    assert forall|k: u128| k != key && seq_has(s0, k) implies seq_has(s1, k) by {
                        let j = choose|j: int| 0 <= j < s0.len() && (#[trigger] s0[j]).key == k;
                        if j < i as int {
                            assert(s1[j] == s0[j]);
                        } else {
                            assert(s1[j - 1] == s0[j]);
                        }
                    }
                    assert forall|k: u128| seq_has(s1, k) implies k != key && seq_has(s0, k) by {
                        let j = choose|j: int| 0 <= j < s1.len() && (#[trigger] s1[j]).key == k;
                        assert(s1[j] == if j < i as int {
                            s0[j]
                        } else {
                            s0[j + 1]
                        });
                    }
                }
            },
            None => {
                proof {
                    lemma_seq_get_absent(s0, key);
                }
            },
        }
        let ghost s1 = self.entries@;
        proof {
            assert(seq_wf(s1));
            assert(forall|j: int| 0 <= j < s1.len() ==> (#[trigger] s1[j]).key != key);
            assert(!seq_has(s1, key));
            assert(seq_get(s1, key) == 0) by {
                lemma_seq_get_absent(s1, key);
            }
        }
        if value != 0 {
            let e = MapEntry { key, amount: value };
            self.entries.push(e);
            proof {
                let s2 = self.entries@;
                assert forall|k: u128| #[trigger] seq_get(s2, k) == (if k == key {
                    value
                } else {
                    seq_get(s1, k)
                }) by {
                    lemma_seq_push(s1, e, k);
                }
                lemma_seq_push(s1, e, key);
                assert forall|j1: int, j2: int|
                    0 <= j1 < j2 < s2.len() implies s2[j1].key != s2[j2].key by {
                    assert(s2[j1] == s1[j1]);
                    if j2 == s2.len() - 1 {
                        assert(s2[j2] == e);
                    } else {
                        assert(s2[j2] == s1[j2]);
                    }
                }
                assert forall|j: int| 0 <= j < s2.len() implies (#[trigger] s2[j]).amount
                    != 0 by {
                    if j == s2.len() - 1 {
                        assert(s2[j] == e);
                    } else {
                        assert(s2[j] == s1[j]);
                    }
                }
                assert(seq_wf(s2));
                assert forall|k: u128| #[trigger] seq_has(s2, k) == (if k == key {
                    true
                } else {
                    seq_has(s1, k)
                }) by {
                    if k == key {
                        assert(s2[s2.len() - 1].key == key);
                    } else {
                        if seq_has(s1, k) {
                            let j = choose|j: int|
                                0 <= j < s1.len() && (#[trigger] s1[j]).key == k;
                            assert(s2[j] == s1[j]);
                        }
                        if seq_has(s2, k) {
                            let j = choose|j: int|
                                0 <= j < s2.len() && (#[trigger] s2[j]).key == k;
                            assert(s2[j] == if j == s2.len() - 1 {
                                e
                            } else {
                                s1[j]
                            });
                        }
                    }
                }
            }
        }
    }
}

} // verus!
