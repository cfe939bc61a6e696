//! The listener registry's ordered buckets.
//!
//! Handlers registered for one (event identity, target) pair live in an
//! insertion-ordered map from listener identifier to handler-program slot.
//! The map is `indexmap`'s `IndexMap`, hashed by `ahash`'s `RandomState`;
//! its behaviour is taken on trust through the contracts below, stated over
//! the entry sequence [`bucket_entries`].

use vstd::prelude::*;

use crate::events::EventTag;

verus! {

#[verifier::external_type_specification]
#[verifier::external_body]
#[verifier::reject_recursive_types(K)]
#[verifier::reject_recursive_types(V)]
#[verifier::reject_recursive_types(S)]
pub struct ExIndexMap<K, V, S>(indexmap::IndexMap<K, V, S>);

#[verifier::external_type_specification]
#[verifier::external_body]
pub struct ExRandomState(ahash::RandomState);

/// The entries an ordered listener map holds, in insertion order.
pub uninterp spec fn bucket_entries(m: indexmap::IndexMap<u128, usize, ahash::RandomState>) -> Seq<
    (u128, usize),
>;

/// Whether the key occurs among the entries.
pub open spec fn entries_has(s: Seq<(u128, usize)>, k: u128) -> bool {
    exists|i: int| 0 <= i < s.len() && s[i].0 == k
}

/// The entries after inserting a pair: an existing key keeps its place and
/// only its value changes; a new key is appended last in order.
pub open spec fn entries_insert(s: Seq<(u128, usize)>, k: u128, v: usize) -> Seq<(u128, usize)>
    decreases s.len(),
{
    if s.len() == 0 {
        seq![(k, v)]
    } else if s[0].0 == k {
        seq![(k, v)] + s.drop_first()
    } else {
        seq![s[0]] + entries_insert(s.drop_first(), k, v)
    }
}

/// The entries after removing a key: the first pair with that key leaves and
/// the entries that follow shift down, keeping their relative order.
pub open spec fn entries_remove(s: Seq<(u128, usize)>, k: u128) -> Seq<(u128, usize)>
    decreases s.len(),
{
    if s.len() == 0 {
        s
    } else if s[0].0 == k {
        s.drop_first()
    } else {
        seq![s[0]] + entries_remove(s.drop_first(), k)
    }
}

/// One listener bucket: the handlers registered for one event identity and
/// one optional target, in registration order. Each entry pairs a listener
/// identifier with the slot of its program in the system's program store.
pub struct Bucket {
    pub tag: EventTag,
    pub target: Option<u128>,
    pub entries: indexmap::IndexMap<u128, usize, ahash::RandomState>,
}

/// The mathematical content of a bucket.
#[verifier::ext_equal]
pub struct BucketModel {
    pub tag: EventTag,
    pub target: Option<u128>,
    pub entries: Seq<(u128, usize)>,
}

impl View for Bucket {
    type V = BucketModel;

    open spec fn view(&self) -> BucketModel {
        BucketModel { tag: self.tag, target: self.target, entries: bucket_entries(self.entries) }
    }
}

/// Relies on `IndexMap`'s `Default` (with `ahash::RandomState`'s `Default`
/// as its hasher): an empty map.
#[verifier::external_body]
pub(crate) fn imap_new() -> (r: indexmap::IndexMap<u128, usize, ahash::RandomState>)
    ensures
        bucket_entries(r) == Seq::<(u128, usize)>::empty(),
{
    indexmap::IndexMap::default()
}

/// Relies on `IndexMap::insert`: an existing key keeps its place in the
/// order and its value is replaced; a new key is appended, last in order.
#[verifier::external_body]
pub(crate) fn imap_insert(
    m: &mut indexmap::IndexMap<u128, usize, ahash::RandomState>,
    k: u128,
    v: usize,
)
    ensures
        bucket_entries(*final(m)) == entries_insert(bucket_entries(*old(m)), k, v),
{
    m.insert(k, v);
}

/// Relies on `IndexMap::shift_remove`: the pair with the key is removed and
/// the entries that follow shift down, preserving their relative order;
/// `None` when the key is absent.
#[verifier::external_body]
pub(crate) fn imap_shift_remove(
    m: &mut indexmap::IndexMap<u128, usize, ahash::RandomState>,
    k: u128,
) -> (r: Option<usize>)
    ensures
        bucket_entries(*final(m)) == entries_remove(bucket_entries(*old(m)), k),
        r is Some <==> entries_has(bucket_entries(*old(m)), k),
{
    m.shift_remove(&k)
}

/// Relies on `IndexMap::iter`, which yields the entries in their order.
#[verifier::external_body]
pub(crate) fn imap_snapshot(m: &indexmap::IndexMap<u128, usize, ahash::RandomState>) -> (r: Vec<
    (u128, usize),
>)
    ensures
        r@ == bucket_entries(*m),
{
    m.iter().map(|(k, v)| (*k, *v)).collect()
}

} // verus!
