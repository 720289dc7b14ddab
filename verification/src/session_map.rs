//! Mapping from session tokens to player indices.
//!
//! The coordinator needs a finite map keyed by the opaque token of a live
//! connection. It is kept as a vector of key/value pairs with pairwise
//! distinct keys; its mathematical value is the [`Map`] the pairs denote.

use vstd::prelude::*;

verus! {

/// The finite map a sequence of key/value pairs denotes; later pairs win.
pub open spec fn map_of(s: Seq<(u64, usize)>) -> Map<u64, usize>
    decreases s.len(),
{
    if s.len() == 0 {
        Map::empty()
    } else {
        map_of(s.drop_last()).insert(s.last().0, s.last().1)
    }
}

/// No key occurs twice among the pairs.
pub open spec fn keys_distinct(s: Seq<(u64, usize)>) -> bool {
    forall|i: int, j: int| 0 <= i < j < s.len() ==> (#[trigger] s[i]).0 != (#[trigger] s[j]).0
}

/// A key is in the denoted map exactly when some pair holds it.
pub proof fn lemma_map_of_contains(s: Seq<(u64, usize)>, k: u64)
    ensures
        map_of(s).contains_key(k) <==> exists|i: int| 0 <= i < s.len() && (#[trigger] s[i]).0 == k,
    decreases s.len(),
{
    if s.len() == 0 {
    } else {
        lemma_map_of_contains(s.drop_last(), k);
        if s.last().0 == k {
            assert((s[s.len() - 1]).0 == k);
        } else {
            if map_of(s).contains_key(k) {
                let i = choose|i: int| 0 <= i < s.drop_last().len() && (#[trigger] s.drop_last()[i]).0 == k;
                assert((s[i]).0 == k);
            }
            if exists|i: int| 0 <= i < s.len() && (#[trigger] s[i]).0 == k {
                let i = choose|i: int| 0 <= i < s.len() && (#[trigger] s[i]).0 == k;
                assert(i < s.len() - 1);
                assert((s.drop_last()[i]).0 == k);
            }
        }
    }
}

/// With distinct keys, the pair at any index gives the map's value at its key.
pub proof fn lemma_map_of_index(s: Seq<(u64, usize)>, i: int)
    requires
        keys_distinct(s),
        0 <= i < s.len(),
    ensures
        map_of(s).contains_key(s[i].0),
        map_of(s)[s[i].0] == s[i].1,
    decreases s.len(),
{
    if i == s.len() - 1 {
    } else {
        assert(keys_distinct(s.drop_last())) by {
            assert(forall|a: int, b: int|
                0 <= a < b < s.drop_last().len() ==> (#[trigger] s.drop_last()[a]).0 != (#[trigger] s.drop_last()[b]).0) by {
                assert(forall|a: int| 0 <= a < s.drop_last().len() ==> #[trigger] s.drop_last()[a] == s[a]);
            }
        }
        assert(s.drop_last()[i] == s[i]);
        lemma_map_of_index(s.drop_last(), i);
        assert(s.last().0 != s[i].0);
    }
}

/// With distinct keys, removing the pair at an index removes its key from the
/// denoted map.
pub proof fn lemma_map_of_remove(s: Seq<(u64, usize)>, i: int)
    requires
        keys_distinct(s),
        0 <= i < s.len(),
    ensures
        map_of(s.remove(i)) == map_of(s).remove(s[i].0),
{
    let r = s.remove(i);
    let k = s[i].0;
    s.remove_ensures(i);
    assert(keys_distinct(r)) by {
        assert(forall|a: int, b: int| 0 <= a < b < r.len() ==> (#[trigger] r[a]).0 != (#[trigger] r[b]).0) by {
            assert(forall|a: int| 0 <= a < r.len() ==> #[trigger] r[a] == (if a < i { s[a] } else { s[a + 1] }));
        }
    }
    assert forall|q: u64| map_of(r).contains_key(q) == map_of(s).remove(k).contains_key(q) by {
        lemma_map_of_contains(r, q);
        lemma_map_of_contains(s, q);
        if exists|a: int| 0 <= a < r.len() && (#[trigger] r[a]).0 == q {
            let a = choose|a: int| 0 <= a < r.len() && (#[trigger] r[a]).0 == q;
            if a < i {
                assert((s[a]).0 == q);
                assert(q != k);
            } else {
                assert((s[a + 1]).0 == q);
                assert(q != k);
            }
        }
        if q != k && exists|a: int| 0 <= a < s.len() && (#[trigger] s[a]).0 == q {
            let a = choose|a: int| 0 <= a < s.len() && (#[trigger] s[a]).0 == q;
            assert(a != i);
            if a < i {
                assert((r[a]).0 == q);
            } else {
                assert((r[a - 1]).0 == q);
            }
        }
    }
    assert forall|q: u64| #[trigger] map_of(r).contains_key(q) implies map_of(r)[q] == map_of(s).remove(k)[q] by {
        lemma_map_of_contains(r, q);
        let a = choose|a: int| 0 <= a < r.len() && (#[trigger] r[a]).0 == q;
        lemma_map_of_index(r, a);
        let b: int = if a < i { a } else { a + 1 };
        assert(s[b] == r[a]);
        lemma_map_of_index(s, b);
    }
    assert(map_of(r) =~= map_of(s).remove(k));
}

/// Map from live-session tokens to the index of the player each controls.
///
/// The pairs are kept in the order the sessions registered; keys are
/// pairwise distinct.
pub struct SessionMap {
    entries: Vec<(u64, usize)>,
}

impl View for SessionMap {
    type V = Map<u64, usize>;

    closed spec fn view(&self) -> Map<u64, usize> {
        map_of(self.entries@)
    }
}

impl SessionMap {
    /// The representation holds no key twice.
    pub closed spec fn wf(self) -> bool {
        keys_distinct(self.entries@)
    }

    /// An empty map.
    pub fn new() -> (r: SessionMap)
        ensures
            r.wf(),
            r@ == Map::<u64, usize>::empty(),
    {
        SessionMap { entries: Vec::new() }
    }

    /// The value a key maps to, if any.
    pub fn get(&self, k: u64) -> (r: Option<usize>)
        requires
            self.wf(),
        ensures
            r == (if self@.contains_key(k) {
                Some(self@[k])
            } else {
                None::<usize>
            }),
    {
        let n = self.entries.len();
        let mut idx: usize = 0;
        while idx < n
            invariant
                n == self.entries@.len(),
                0 <= idx <= n,
                self.wf(),
                forall|j: int| 0 <= j < idx ==> (#[trigger] self.entries@[j]).0 != k,
            decreases n - idx,
        {
            if self.entries[idx].0 == k {
                proof {
                    lemma_map_of_index(self.entries@, idx as int);
                }
                return Some(self.entries[idx].1);
            }
            idx += 1;
        }
        proof {
            lemma_map_of_contains(self.entries@, k);
        }
        None
    }

    /// Register a key that is not yet present.
    pub fn insert_new(&mut self, k: u64, v: usize)
        requires
            old(self).wf(),
            !old(self)@.contains_key(k),
        ensures
            final(self).wf(),
            final(self)@ == old(self)@.insert(k, v),
    {
        proof {
            lemma_map_of_contains(self.entries@, k);
        }
        self.entries.push((k, v));
        proof {
            let s = old(self).entries@;
            assert(self.entries@.drop_last() =~= s);
            assert(keys_distinct(self.entries@)) by {
                assert(forall|a: int, b: int|
                    0 <= a < b < self.entries@.len() ==> (#[trigger] self.entries@[a]).0 != (
                    #[trigger] self.entries@[b]).0) by {
                    assert(forall|a: int| 0 <= a < s.len() ==> #[trigger] self.entries@[a] == s[a]);
                }
            }
        }
    }

    /// Unregister a key; returns the value it mapped to, or `None` when the
    /// key was not present (the map is then unchanged).
    pub fn remove(&mut self, k: u64) -> (r: Option<usize>)
        requires
            old(self).wf(),
        ensures
            final(self).wf(),
            final(self)@ == old(self)@.remove(k),
            r == (if old(self)@.contains_key(k) {
                Some(old(self)@[k])
            } else {
                None::<usize>
            }),
    {
        let n = self.entries.len();
        let mut idx: usize = 0;
        while idx < n
            invariant
                n == self.entries@.len(),
                0 <= idx <= n,
                self.wf(),
                self == old(self),
                forall|j: int| 0 <= j < idx ==> (#[trigger] self.entries@[j]).0 != k,
            decreases n - idx,
        {
            if self.entries[idx].0 == k {
                proof {
                    lemma_map_of_index(self.entries@, idx as int);
                    lemma_map_of_remove(self.entries@, idx as int);
                }
                let v = self.entries[idx].1;
                self.entries.remove(idx);
                proof {
                    old(self).entries@.remove_ensures(idx as int);
                    assert(keys_distinct(self.entries@)) by {
                        let s = old(self).entries@;
                        let r2 = self.entries@;
                        assert(forall|a: int, b: int|
                            0 <= a < b < r2.len() ==> (#[trigger] r2[a]).0 != (#[trigger] r2[b]).0) by {
                            assert(forall|a: int|
                                0 <= a < r2.len() ==> #[trigger] r2[a] == (if a < idx {
                                    s[a]
                                } else {
                                    s[a + 1]
                                }));
                        }
                    }
                }
                return Some(v);
            }
            idx += 1;
        }
        proof {
            lemma_map_of_contains(self.entries@, k);
            assert(self@ =~= old(self)@.remove(k));
        }
        None
    }

    /// The registered keys, each exactly once, in registration order.
    pub fn keys(&self) -> (r: Vec<u64>)
        requires
            self.wf(),
        ensures
            r@.no_duplicates(),
            r@.to_set() == self@.dom(),
    {
        let n = self.entries.len();
        let mut r: Vec<u64> = Vec::new();
        let mut idx: usize = 0;
        while idx < n
            invariant
                n == self.entries@.len(),
                0 <= idx <= n,
                self.wf(),
                r@.len() == idx,
                forall|j: int| 0 <= j < idx ==> r@[j] == (#[trigger] self.entries@[j]).0,
            decreases n - idx,
        {
            let k = self.entries[idx].0;
            r.push(k);
            idx += 1;
        }
        proof {
            assert forall|a: int, b: int| 0 <= a < b < r@.len() implies r@[a] != r@[b] by {
                assert(r@[a] == (self.entries@[a]).0);
                assert(r@[b] == (self.entries@[b]).0);
            }
            assert(r@.no_duplicates());
            assert forall|q: u64| r@.to_set().contains(q) == self@.dom().contains(q) by {
                lemma_map_of_contains(self.entries@, q);
                if r@.to_set().contains(q) {
                    let a = choose|a: int| 0 <= a < r@.len() && r@[a] == q;
                    assert((self.entries@[a]).0 == q);
                }
                if self@.dom().contains(q) {
                    let a = choose|a: int| 0 <= a < self.entries@.len() && (#[trigger] self.entries@[a]).0 == q;
                    assert(r@[a] == q);
                    assert(r@.contains(q));
                }
            }
            assert(r@.to_set() =~= self@.dom());
        }
        r
    }

}

} // verus!
