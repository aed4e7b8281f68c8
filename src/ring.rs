use std::hash::{BuildHasher, Hasher};
use vstd::prelude::*;

verus! {

/// A consistent-hash ring over node keys, held behind the `hash_ring` crate.
///
/// Each node is placed on the ring at `replicas` points: point `i` of the
/// node with key `k` is `point_of(k, i)`. The ring finds a node again from a
/// point, so every operation below asks that the points of its members be
/// pairwise distinct (`points_distinct`).
#[verifier::external_body]
pub struct KeyRing {
    inner: hash_ring::HashRing<String>,
}

/// The unique keys of the nodes that a ring holds.
pub uninterp spec fn ring_members(r: KeyRing) -> Set<Seq<char>>;

/// The number of points that a ring places for each node.
pub uninterp spec fn ring_replicas(r: KeyRing) -> int;

/// The 64-bit XxHash64 value, seed 0, of the UTF-8 text `"{key}:{i}"`:
/// where the ring places point `i` of the node with key `key`.
pub uninterp spec fn point_of(key: Seq<char>, i: int) -> u64;

/// The unique key of the node that owns `key` on a ring of the nodes
/// `members`, each placed at `replicas` points that are pairwise distinct.
pub uninterp spec fn ring_owner(members: Set<Seq<char>>, replicas: int, key: Seq<char>) -> Seq<char>;

/// No two points of the nodes with keys in `keys` coincide, a node's own
/// points included.
pub open spec fn points_distinct(keys: Set<Seq<char>>, replicas: int) -> bool {
    forall|k1: Seq<char>, i1: int, k2: Seq<char>, i2: int|
        keys.contains(k1) && keys.contains(k2) && 0 <= i1 < replicas && 0 <= i2 < replicas
            && (k1 != k2 || i1 != i2) ==> #[trigger] point_of(k1, i1) != #[trigger] point_of(k2, i2)
}

/// Relies on `twox_hash::XxHash64` through `BuildHasherDefault`, as
/// `hash_ring` builds it (seed 0), fed the bytes of `"{key}:{i}"`: the value
/// depends on the key and the index alone.
#[verifier::external_body]
pub(crate) fn ring_point(key: &String, i: isize) -> (r: u64)
    ensures
        r == point_of(key@, i as int),
{
    let mut hasher = std::hash::BuildHasherDefault::<twox_hash::XxHash64>::default().build_hasher();
    hasher.write(format!("{}:{}", key, i).as_bytes());
    hasher.finish()
}

/// Relies on `hash_ring::HashRing::new`: built from no nodes, the ring is
/// empty and keeps the replica count it was given.
#[verifier::external_body]
pub(crate) fn ring_new(replicas: isize) -> (r: KeyRing)
    ensures
        ring_members(r) == Set::<Seq<char>>::empty(),
        ring_replicas(r) == replicas as int,
{
    KeyRing { inner: hash_ring::HashRing::new(Vec::new(), replicas) }
}

/// Relies on `hash_ring::HashRing::add_node`: the node's `replicas` points
/// join the ring; the replica count is unchanged.
#[verifier::external_body]
pub(crate) fn ring_add(r: &mut KeyRing, key: &String)
    requires
        ring_replicas(*old(r)) > 0,
        !ring_members(*old(r)).contains(key@),
        points_distinct(ring_members(*old(r)).insert(key@), ring_replicas(*old(r))),
    ensures
        ring_members(*final(r)) == ring_members(*old(r)).insert(key@),
        ring_replicas(*final(r)) == ring_replicas(*old(r)),
{
    r.inner.add_node(key)
}

/// Relies on `hash_ring::HashRing::remove_node`: each of the node's points is
/// found and leaves the ring; the replica count is unchanged.
#[verifier::external_body]
pub(crate) fn ring_remove(r: &mut KeyRing, key: &String)
    requires
        ring_members(*old(r)).contains(key@),
        points_distinct(ring_members(*old(r)), ring_replicas(*old(r))),
    ensures
        ring_members(*final(r)) == ring_members(*old(r)).remove(key@),
        ring_replicas(*final(r)) == ring_replicas(*old(r)),
{
    r.inner.remove_node(key)
}

/// Relies on `hash_ring::HashRing::get_node`: an empty ring answers `None`;
/// otherwise the answer is the node that owns the first point at or after
/// the key's hash. With distinct points that point is found, and the answer
/// depends only on the members, the replica count and the key.
#[verifier::external_body]
pub(crate) fn ring_get(r: &KeyRing, key: String) -> (res: Option<String>)
    requires
        ring_replicas(*r) > 0,
        points_distinct(ring_members(*r), ring_replicas(*r)),
    ensures
        res is None <==> ring_members(*r).len() == 0,
        res matches Some(o) ==> o@ == ring_owner(ring_members(*r), ring_replicas(*r), key@),
        res is Some ==> ring_members(*r).contains(res->0@),
{
    r.inner.get_node(key).cloned()
}

} // verus!
