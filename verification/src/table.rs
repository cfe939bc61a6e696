//! An ordered association table with unique keys.
//!
//! The kernel keys its value store, its recipe table and its dependency
//! graph by opaque identifiers. This table keeps its entries in a vector,
//! so iteration order is deterministic, and is viewed in specifications as a
//! [`Map`] from identifier to value.

use vstd::prelude::*;

verus! {

/// An ordered mapping from identifiers to values with unique keys.
pub struct Table<V> {
    items: Vec<(u128, V)>,
}

impl<V> Table<V> {
    /// The entries, in order.
    pub closed spec fn entries(self) -> Seq<(u128, V)> {
        self.items@
    }

    /// The keys, in entry order.
    pub open spec fn keyseq(self) -> Seq<u128> {
        self.entries().map_values(|p: (u128, V)| p.0)
    }

    /// Well-formed: no key occurs twice.
    pub open spec fn wf(self) -> bool {
        forall|i: int, j: int|
            0 <= i < j < self.entries().len() ==> (#[trigger] self.entries()[i]).0 != (
            #[trigger] self.entries()[j]).0
    }

    /// An empty table.
    pub fn new() -> (r: Self)
        ensures
            r.wf(),
            r@ == Map::<u128, V>::empty(),
            r.keyseq() == Seq::<u128>::empty(),
    {
        let r = Table { items: Vec::new() };
        proof {
            assert(r.keyseq() =~= Seq::<u128>::empty());
            assert(r@ =~= Map::<u128, V>::empty());
        }
        r
    }
}

impl<V> View for Table<V> {
    type V = Map<u128, V>;

    open spec fn view(&self) -> Map<u128, V> {
        Map::new(
            |k: u128| self.keyseq().contains(k),
            |k: u128|
                {
                    let i = choose|i: int|
                        0 <= i < self.entries().len() && self.entries()[i].0 == k;
                    self.entries()[i].1
                },
        )
    }
}

impl<V> Table<V> {
    /// The number of entries.
    pub fn len(&self) -> (n: usize)
        ensures
            n == self.keyseq().len(),
    {
        self.items.len()
    }

    /// The key of the entry at the given position.
    pub fn key_at(&self, i: usize) -> (k: u128)
        requires
            i < self.keyseq().len(),
        ensures
            k == self.keyseq()[i as int],
    {
        self.items[i].0
    }

    /// Whether the key is present.
    pub fn contains(&self, k: u128) -> (r: bool)
        ensures
            r == self@.dom().contains(k),
    {
        let n = self.items.len();
        let mut i: usize = 0;
        while i < n
            invariant
                n == self.entries().len(),
                0 <= i <= n,
                forall|j: int| 0 <= j < i ==> (#[trigger] self.entries()[j]).0 != k,
            decreases n - i,
        {
            if self.items[i].0 == k {
                proof {
                    assert(self.keyseq()[i as int] == k);
                    assert(self.keyseq().contains(k));
                }
                return true;
            }
            i += 1;
        }
        proof {
            assert(forall|j: int|
                0 <= j < self.keyseq().len() ==> self.keyseq()[j] == (
                #[trigger] self.entries()[j]).0);
            assert(!self.keyseq().contains(k));
        }
        false
    }

    /// The value under the key, if present, copied out.
    pub fn get_copy(&self, k: u128) -> (r: Option<V>) where V: Copy
        requires
            self.wf(),
        ensures
            r == if self@.dom().contains(k) {
                Some(self@[k])
            } else {
                None::<V>
            },
    {
        let n = self.items.len();
        let mut i: usize = 0;
        while i < n
            invariant
                self.wf(),
                n == self.entries().len(),
                0 <= i <= n,
                forall|j: int| 0 <= j < i ==> (#[trigger] self.entries()[j]).0 != k,
            decreases n - i,
        {
            if self.items[i].0 == k {
                proof {
                    assert(self.keyseq()[i as int] == k);
                    assert(self.keyseq().contains(k));
                    let ci = choose|ci: int|
                        0 <= ci < self.entries().len() && self.entries()[ci].0 == k;
                    assert(self.entries()[ci].0 == k);
                    assert(ci == i);
                }
                return Some(self.items[i].1);
            }
            i += 1;
        }
        proof {
            assert(forall|j: int|
                0 <= j < self.keyseq().len() ==> self.keyseq()[j] == (
                #[trigger] self.entries()[j]).0);
            assert(!self.keyseq().contains(k));
        }
        None
    }

    /// A reference to the value under the key, if present.
    pub fn get(&self, k: u128) -> (r: Option<&V>)
        requires
            self.wf(),
        ensures
            r == if self@.dom().contains(k) {
                Some(&self@[k])
            } else {
                None::<&V>
            },
    {
        let n = self.items.len();
        let mut i: usize = 0;
        while i < n
            invariant
                self.wf(),
                n == self.entries().len(),
                0 <= i <= n,
                forall|j: int| 0 <= j < i ==> (#[trigger] self.entries()[j]).0 != k,
            decreases n - i,
        {
            if self.items[i].0 == k {
                proof {
                    assert(self.keyseq()[i as int] == k);
                    assert(self.keyseq().contains(k));
                    let ci = choose|ci: int|
                        0 <= ci < self.entries().len() && self.entries()[ci].0 == k;
                    assert(self.entries()[ci].0 == k);
                    assert(ci == i);
                }
                return Some(&self.items[i].1);
            }
            i += 1;
        }
        proof {
            assert(forall|j: int|
                0 <= j < self.keyseq().len() ==> self.keyseq()[j] == (
                #[trigger] self.entries()[j]).0);
            assert(!self.keyseq().contains(k));
        }
        None
    }

    /// Insert the value under the key, replacing in place if the key is
    /// present, appending otherwise.
    pub fn insert(&mut self, k: u128, v: V)
        requires
            old(self).wf(),
        ensures
            final(self).wf(),
            final(self)@ == old(self)@.insert(k, v),
            final(self).keyseq() == if old(self)@.dom().contains(k) {
                old(self).keyseq()
            } else {
                old(self).keyseq().push(k)
            },
    {
        let n = self.items.len();
        let mut i: usize = 0;
        while i < n
            invariant
                *self == *old(self),
                old(self).wf(),
                n == self.entries().len(),
                0 <= i <= n,
                forall|j: int| 0 <= j < i ==> (#[trigger] self.entries()[j]).0 != k,
            decreases n - i,
        {
            if self.items[i].0 == k {
                proof {
                    assert(self.keyseq()[i as int] == k);
                    assert(self.keyseq().contains(k));
                }
                self.items[i] = (k, v);
                proof {
                    lemma_table_update(*old(self), *self, i as int, k, v);
                }
                return ;
            }
            i += 1;
        }
        proof {
            assert(forall|j: int|
                0 <= j < self.keyseq().len() ==> self.keyseq()[j] == (
                #[trigger] self.entries()[j]).0);
            assert(!self.keyseq().contains(k));
        }
        self.items.push((k, v));
        proof {
            assert(self.entries() =~= old(self).entries().push((k, v)));
            assert(self.keyseq() =~= old(self).keyseq().push(k));
            assert forall|k2: u128| self@.dom().contains(k2) implies old(self)@.insert(k, v).dom().contains(k2) by {
                let j = choose|j: int|
                    0 <= j < self.entries().len() && self.entries()[j].0 == k2;
                if j < old(self).entries().len() {
                    assert(old(self).keyseq()[j] == k2);
                }
            }
            assert forall|k2: u128| old(self)@.insert(k, v).dom().contains(k2) implies self@.dom().contains(k2) by {
                if k2 == k {
                    assert(self.keyseq()[self.keyseq().len() - 1] == k);
                } else {
                    let j = choose|j: int|
                        0 <= j < old(self).entries().len() && old(self).entries()[j].0 == k2;
                    assert(self.keyseq()[j] == k2);
                }
            }
            assert forall|k2: u128| self@.dom().contains(k2) implies self@[k2] == old(self)@.insert(
                k,
                v,
            )[k2] by {
                let ci = choose|ci: int|
                    0 <= ci < self.entries().len() && self.entries()[ci].0 == k2;
                if k2 == k {
                    assert(ci == self.entries().len() - 1);
                } else {
                    assert(ci < old(self).entries().len());
                    let cj = choose|cj: int|
                        0 <= cj < old(self).entries().len() && old(self).entries()[cj].0 == k2;
                    assert(cj == ci);
                }
            }
            assert(self@ =~= old(self)@.insert(k, v));
        }
    }

    /// Remove the key and return its value, shifting later entries down.
    pub fn remove(&mut self, k: u128) -> (r: Option<V>)
        requires
            old(self).wf(),
        ensures
            final(self).wf(),
            final(self)@ == old(self)@.remove(k),
            r == if old(self)@.dom().contains(k) {
                Some(old(self)@[k])
            } else {
                None::<V>
            },
    {
        let n = self.items.len();
        let mut i: usize = 0;
        while i < n
            invariant
                *self == *old(self),
                old(self).wf(),
                n == self.entries().len(),
                0 <= i <= n,
                forall|j: int| 0 <= j < i ==> (#[trigger] self.entries()[j]).0 != k,
            decreases n - i,
        {
            if self.items[i].0 == k {
                proof {
                    assert(self.keyseq()[i as int] == k);
                    assert(self.keyseq().contains(k));
                    let ci = choose|ci: int|
                        0 <= ci < self.entries().len() && self.entries()[ci].0 == k;
                    assert(ci == i);
                }
                let pair = self.items.remove(i);
                proof {
                    lemma_table_remove(*old(self), *self, i as int, k);
                }
                return Some(pair.1);
            }
            i += 1;
        }
        proof {
            assert(forall|j: int|
                0 <= j < self.keyseq().len() ==> self.keyseq()[j] == (
                #[trigger] self.entries()[j]).0);
            assert(!self.keyseq().contains(k));
            assert(self@ =~= old(self)@.remove(k));
        }
        None
    }
}

/// After replacing the entry at position `i` (whose key is already `k`) with
/// `(k, v)`, the table is still well formed, its keys are unchanged, and its
/// view gains `k -> v`.
proof fn lemma_table_update<V>(pre: Table<V>, post: Table<V>, i: int, k: u128, v: V)
    requires
        pre.wf(),
        0 <= i < pre.entries().len(),
        pre.entries()[i].0 == k,
        post.entries() == pre.entries().update(i, (k, v)),
    ensures
        post.wf(),
        post@ == pre@.insert(k, v),
        post.keyseq() == pre.keyseq(),
{
    assert(post.keyseq() =~= pre.keyseq());
    assert forall|k2: u128| post@.dom().contains(k2) <==> pre@.insert(k, v).dom().contains(
        k2,
    ) by {
        if k2 == k {
            assert(pre.keyseq()[i] == k);
            assert(post.keyseq()[i] == k);
        }
    }
    assert forall|k2: u128| post@.dom().contains(k2) implies post@[k2] == pre@.insert(k, v)[k2] by {
        let ci = choose|ci: int| 0 <= ci < post.entries().len() && post.entries()[ci].0 == k2;
        if k2 == k {
            assert(ci == i);
        } else {
            assert(ci != i);
            let cj = choose|cj: int| 0 <= cj < pre.entries().len() && pre.entries()[cj].0 == k2;
            assert(cj == ci);
        }
    }
    assert(post@ =~= pre@.insert(k, v));
}

/// After removing the entry at position `i` (whose key is `k`), the table is
/// still well formed and its view loses `k`.
proof fn lemma_table_remove<V>(pre: Table<V>, post: Table<V>, i: int, k: u128)
    requires
        pre.wf(),
        0 <= i < pre.entries().len(),
        pre.entries()[i].0 == k,
        post.entries() == pre.entries().remove(i),
    ensures
        post.wf(),
        post@ == pre@.remove(k),
{
    assert forall|a: int, b: int|
        0 <= a < b < post.entries().len() implies (#[trigger] post.entries()[a]).0 != (
    #[trigger] post.entries()[b]).0 by {
        let pa = if a < i {
            a
        } else {
            a + 1
        };
        let pb = if b < i {
            b
        } else {
            b + 1
        };
        assert(post.entries()[a] == pre.entries()[pa]);
        assert(post.entries()[b] == pre.entries()[pb]);
    }
    assert forall|k2: u128| post@.dom().contains(k2) <==> pre@.remove(k).dom().contains(k2) by {
        if k2 != k {
            if pre@.dom().contains(k2) {
                let cj = choose|cj: int|
                    0 <= cj < pre.entries().len() && pre.entries()[cj].0 == k2;
                let pj = if cj < i {
                    cj
                } else {
                    cj - 1
                };
                assert(cj != i);
                assert(post.entries()[pj] == pre.entries()[cj]);
                assert(post.keyseq()[pj] == k2);
            }
            if post@.dom().contains(k2) {
                let cj = choose|cj: int|
                    0 <= cj < post.entries().len() && post.entries()[cj].0 == k2;
                let pj = if cj < i {
                    cj
                } else {
                    cj + 1
                };
                assert(post.entries()[cj] == pre.entries()[pj]);
                assert(pre.keyseq()[pj] == k2);
            }
        } else {
            if post@.dom().contains(k) {
                let cj = choose|cj: int|
                    0 <= cj < post.entries().len() && post.entries()[cj].0 == k;
                let pj = if cj < i {
                    cj
                } else {
                    cj + 1
                };
                assert(post.entries()[cj] == pre.entries()[pj]);
                assert(false);
            }
        }
    }
    assert forall|k2: u128| post@.dom().contains(k2) implies post@[k2] == pre@.remove(k)[k2] by {
        let ci = choose|ci: int| 0 <= ci < post.entries().len() && post.entries()[ci].0 == k2;
        let pi = if ci < i {
            ci
        } else {
            ci + 1
        };
        assert(post.entries()[ci] == pre.entries()[pi]);
        let cj = choose|cj: int| 0 <= cj < pre.entries().len() && pre.entries()[cj].0 == k2;
        assert(cj == pi);
    }
    assert(post@ =~= pre@.remove(k));
}

} // verus!
