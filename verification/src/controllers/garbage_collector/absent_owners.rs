//! The bounded memory of owners that were found to be absent.
use vstd::prelude::*;
use crate::controllers::garbage_collector::types::{ObjectReference, ObjectReferenceView};
use crate::protocol::meta::ResourceKind;
use crate::seqs;

verus! {

/// `lru::LruCache`: a map with a limit that drops the entry used longest ago.
#[verifier::external_type_specification]
#[verifier::external_body]
#[verifier::reject_recursive_types(K)]
#[verifier::reject_recursive_types(V)]
#[verifier::reject_recursive_types(S)]
pub struct ExLruCache<K, V, S>(lru::LruCache<K, V, S>);

/// `lru::DefaultHasher`: the hasher that a cache uses unless told otherwise.
#[verifier::external_type_specification]
#[verifier::external_body]
pub struct ExDefaultHasher(lru::DefaultHasher);

/// The keys of a cache, the one used last first.
pub uninterp spec fn lru_keys(c: lru::LruCache<(u8, String, u128, String, u8), ()>) -> Seq<
    (u8, Seq<char>, u128, Seq<char>, u8),
>;

/// The number of keys that a cache holds at most.
pub uninterp spec fn lru_limit(c: lru::LruCache<(u8, String, u128, String, u8), ()>) -> nat;

/// The predicate that holds of every key but one.
pub open spec fn other_than<K>(key: K) -> spec_fn(K) -> bool {
    |k: K| k != key
}

/// The keys after one is put: it stands first, and when a new key meets a full
/// cache the last one leaves.
pub open spec fn after_put<K>(keys: Seq<K>, key: K, limit: nat) -> Seq<K> {
    if keys.contains(key) {
        seq![key] + keys.filter(other_than(key))
    } else if keys.len() == limit {
        seq![key] + keys.drop_last()
    } else {
        seq![key] + keys
    }
}

/// `lru::LruCache::new`: an empty cache with the given limit.
#[verifier::external_body]
fn lru_new(limit: usize) -> (r: lru::LruCache<(u8, String, u128, String, u8), ()>)
    requires
        0 < limit <= 1024,
    ensures
        lru_keys(r) == Seq::<(u8, Seq<char>, u128, Seq<char>, u8)>::empty(),
        lru_limit(r) == limit,
{
    lru::LruCache::new(std::num::NonZeroUsize::new(limit).unwrap())
}

/// `lru::LruCache::put` with the unit value: the key becomes the one used last; a new
/// key in a full cache drops the one used longest ago.
#[verifier::external_body]
fn lru_put(
    c: &mut lru::LruCache<(u8, String, u128, String, u8), ()>,
    key: (u8, String, u128, String, u8),
)
    ensures
        lru_keys(*final(c)) == after_put(
            lru_keys(*old(c)),
            (key.0, key.1@, key.2, key.3@, key.4),
            lru_limit(*old(c)),
        ),
        lru_limit(*final(c)) == lru_limit(*old(c)),
{
    c.put(key, ());
}

/// `lru::LruCache::contains`: whether the key is in the cache; the order of use stays.
#[verifier::external_body]
fn lru_contains(
    c: &lru::LruCache<(u8, String, u128, String, u8), ()>,
    key: &(u8, String, u128, String, u8),
) -> (r: bool)
    ensures
        r == lru_keys(*c).contains((key.0, key.1@, key.2, key.3@, key.4)),
{
    c.contains(key)
}

/// A number for each kind.
pub open spec fn kind_code(k: ResourceKind) -> u8 {
    match k {
        ResourceKind::Pod => 0,
        ResourceKind::Service => 1,
        ResourceKind::Deployment => 2,
        ResourceKind::ReplicaSet => 3,
        ResourceKind::Endpoint => 4,
        ResourceKind::Job => 5,
        ResourceKind::Unknown => 6,
    }
}

/// A number for each optional flag.
pub open spec fn flag_code(b: Option<bool>) -> u8 {
    match b {
        None => 0,
        Some(false) => 1,
        Some(true) => 2,
    }
}

/// The cache key of a reference.
pub open spec fn key_of(r: ObjectReferenceView) -> (u8, Seq<char>, u128, Seq<char>, u8) {
    (kind_code(r.kind), r.name, r.uid, r.namespace, flag_code(r.block_owner_deletion))
}

/// No two owners share a key: recording one as absent says nothing of another.
pub proof fn law_owners_have_keys_of_their_own(a: ObjectReferenceView, b: ObjectReferenceView)
    requires
        key_of(a) == key_of(b),
    ensures
        a == b,
{
}

fn key_for(r: &ObjectReference) -> (k: (u8, String, u128, String, u8))
    ensures
        (k.0, k.1@, k.2, k.3@, k.4) == key_of(r@),
{
    let kind: u8 = match r.kind {
        ResourceKind::Pod => 0,
        ResourceKind::Service => 1,
        ResourceKind::Deployment => 2,
        ResourceKind::ReplicaSet => 3,
        ResourceKind::Endpoint => 4,
        ResourceKind::Job => 5,
        ResourceKind::Unknown => 6,
    };
    let flag: u8 = match r.block_owner_deletion {
        None => 0,
        Some(false) => 1,
        Some(true) => 2,
    };
    (kind, r.name.clone(), r.uid, r.namespace.clone(), flag)
}

/// Owners that were looked up and not found, at most as many as the limit, the one
/// recorded last first.
pub struct AbsentOwnerCache {
    cache: lru::LruCache<(u8, String, u128, String, u8), ()>,
}

impl View for AbsentOwnerCache {
    type V = Seq<(u8, Seq<char>, u128, Seq<char>, u8)>;

    closed spec fn view(&self) -> Seq<(u8, Seq<char>, u128, Seq<char>, u8)> {
        lru_keys(self.cache)
    }
}

/// The number of absent owners that are remembered.
pub const ABSENT_OWNER_LIMIT: usize = 32;

impl AbsentOwnerCache {
    /// The number of owners that the cache holds at most.
    pub closed spec fn limit(self) -> nat {
        lru_limit(self.cache)
    }

    /// An empty cache for `ABSENT_OWNER_LIMIT` owners.
    pub fn new() -> (r: Self)
        ensures
            r@ == Seq::<(u8, Seq<char>, u128, Seq<char>, u8)>::empty(),
            r.limit() == ABSENT_OWNER_LIMIT,
    {
        AbsentOwnerCache { cache: lru_new(ABSENT_OWNER_LIMIT) }
    }

    /// Records an absent owner.
    pub fn put(&mut self, owner: &ObjectReference)
        ensures
            final(self)@ == after_put(old(self)@, key_of(owner@), old(self).limit()),
            final(self).limit() == old(self).limit(),
    {
        lru_put(&mut self.cache, key_for(owner));
    }

    /// Whether the owner was recorded and not dropped since.
    pub fn contains(&self, owner: &ObjectReference) -> (r: bool)
        ensures
            r == self@.contains(key_of(owner@)),
    {
        lru_contains(&self.cache, &key_for(owner))
    }
}

/// An owner that was just recorded is found.
pub proof fn law_recorded_owner_is_found<K>(keys: Seq<K>, key: K, limit: nat)
    ensures
        after_put(keys, key, limit).contains(key),
{
    assert(after_put(keys, key, limit)[0] == key);
}

/// The cache never holds more owners than its limit, and never one twice.
pub proof fn law_cache_is_bounded<K>(keys: Seq<K>, key: K, limit: nat)
    requires
        limit > 0,
        keys.len() <= limit,
        keys.no_duplicates(),
    ensures
        after_put(keys, key, limit).len() <= limit,
        after_put(keys, key, limit).no_duplicates(),
{
    let out = after_put(keys, key, limit);
    if keys.contains(key) {
        let rest = keys.filter(other_than(key));
        seqs::lemma_filter_distinct(keys, other_than(key));
        seqs::lemma_filter_members(keys, other_than(key));
        seqs::lemma_filter_shorter(keys, other_than(key), key);
        assert(out =~= seq![key] + rest);
        assert forall|i: int, j: int| 0 <= i < out.len() && 0 <= j < out.len() && i != j implies out[i]
            != out[j] by {
            if i > 0 {
                assert(out[i] == rest[i - 1]);
                assert(rest.contains(rest[i - 1]));
            }
            if j > 0 {
                assert(out[j] == rest[j - 1]);
                assert(rest.contains(rest[j - 1]));
            }
        }
    } else {
        assert forall|i: int, j: int| 0 <= i < out.len() && 0 <= j < out.len() && i != j implies out[i]
            != out[j] by {
            if i > 0 {
                assert(out[i] == keys[i - 1]);
            }
            if j > 0 {
                assert(out[j] == keys[j - 1]);
            }
        }
    }
}

/// An owner that was found to be absent is known to be, and others stay known while there is room.
pub proof fn law_absent_owner_is_known(
    c: &mut AbsentOwnerCache,
    owner: ObjectReference,
    after: AbsentOwnerCache,
    other: ObjectReference,
    known: bool,
    before: bool,
    was: AbsentOwnerCache,
)
    requires
        call_ensures(AbsentOwnerCache::put, (c, &owner), ()),
        call_ensures(AbsentOwnerCache::contains, (&after, &other), known),
        call_ensures(AbsentOwnerCache::contains, (&was, &other), before),
        old(c).limit() > 0,
    ensures
        after == *final(c) && other@ == owner@ ==> known,
        after == *final(c) && was == *old(c) && old(c)@.len() < old(c).limit() && before ==> known,
        after == *final(c) && was == *old(c) && known && other@ != owner@ ==> before,
{
    let keys = old(c)@;
    let k = key_of(owner@);
    let x = key_of(other@);
    let all = final(c)@;
    assert(all[0] == k);
    seqs::lemma_filter_members(keys, other_than(k));
    if after == *final(c) && was == *old(c) && old(c)@.len() < old(c).limit() && before && x != k {
        if keys.contains(k) {
            let rest = keys.filter(other_than(k));
            assert(other_than(k)(x));
            assert(rest.contains(x));
            let i = choose|i: int| 0 <= i < rest.len() && rest[i] == x;
            assert(all[i + 1] == x);
        } else {
            let i = choose|i: int| 0 <= i < keys.len() && keys[i] == x;
            assert(all[i + 1] == x);
        }
    }
    if after == *final(c) && was == *old(c) && known && other@ != owner@ {
        assert(x != k) by {
            if x == k {
                assert(other@.kind == owner@.kind);
                assert(other@ == owner@);
            }
        }
        let i = choose|i: int| 0 <= i < all.len() && all[i] == x;
        assert(i > 0);
        if keys.contains(k) {
            let rest = keys.filter(other_than(k));
            assert(rest[i - 1] == x);
            assert(rest.contains(x));
        } else {
            assert(keys[i - 1] == x);
        }
    }
}

} // verus!
