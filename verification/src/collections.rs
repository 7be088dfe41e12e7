//! The outside collections that the engine keeps its state in: `dashmap::DashMap` for the
//! buffered key/value pairs and `rpds::Vector` for a collection's segment list. Each is
//! declared for the specifications, its contents are given a name, and each method the engine calls has
//! a contract over that name.
use crate::segment::{kv_view, KeyValue};
use vstd::prelude::*;

verus! {

#[verifier::external_type_specification]
#[verifier::external_body]
#[verifier::reject_recursive_types(K)]
#[verifier::reject_recursive_types(V)]
#[verifier::reject_recursive_types(S)]
pub struct ExDashMap<K, V, S>(dashmap::DashMap<K, V, S>);

/// The map from key bytes to value bytes that a `DashMap<Vec<u8>, Vec<u8>>` holds.
pub uninterp spec fn byte_map_contents(m: dashmap::DashMap<Vec<u8>, Vec<u8>>) -> Map<Seq<u8>, Seq<u8>>;

/// `DashMap::new`: an empty map.
#[verifier::external_body]
pub(crate) fn byte_map_new() -> (r: dashmap::DashMap<Vec<u8>, Vec<u8>>)
    ensures
        byte_map_contents(r).dom() == Set::<Seq<u8>>::empty(),
{
    dashmap::DashMap::new()
}

/// `DashMap::get` and a clone of the value found: the value stored under the key, if any.
#[verifier::external_body]
pub(crate) fn byte_map_get(m: &dashmap::DashMap<Vec<u8>, Vec<u8>>, key: &[u8]) -> (r: Option<Vec<u8>>)
    ensures
        match r {
            Some(v) => byte_map_contents(*m).contains_key(key@) && byte_map_contents(*m)[key@] == v@,
            None => !byte_map_contents(*m).contains_key(key@),
        },
{
    m.get(key).map(|v| v.value().clone())
}

/// `DashMap::insert`: stores the value under the key, replacing and returning the value
/// that was there. It is called through `&mut` here, as this crate holds the map alone.
#[verifier::external_body]
pub(crate) fn byte_map_insert(
    m: &mut dashmap::DashMap<Vec<u8>, Vec<u8>>,
    key: Vec<u8>,
    value: Vec<u8>,
) -> (r: Option<Vec<u8>>)
    ensures
        byte_map_contents(*final(m)) == byte_map_contents(*old(m)).insert(key@, value@),
        match r {
            Some(v) => byte_map_contents(*old(m)).contains_key(key@) && byte_map_contents(
                *old(m),
            )[key@] == v@,
            None => !byte_map_contents(*old(m)).contains_key(key@),
        },
{
    m.insert(key, value)
}

/// `DashMap::is_empty`: whether the map holds no pair.
#[verifier::external_body]
pub(crate) fn byte_map_is_empty(m: &dashmap::DashMap<Vec<u8>, Vec<u8>>) -> (r: bool)
    ensures
        r == (byte_map_contents(*m).dom() == Set::<Seq<u8>>::empty()),
{
    m.is_empty()
}

/// `DashMap::iter`, each pair cloned: every pair of the map once, in an order that the
/// map does not fix.
#[verifier::external_body]
pub(crate) fn byte_map_entries(m: &dashmap::DashMap<Vec<u8>, Vec<u8>>) -> (r: Vec<KeyValue>)
    ensures
        forall|i: int|
            0 <= i < r@.len() ==> byte_map_contents(*m).contains_key(#[trigger] kv_view(r@)[i].0)
                && byte_map_contents(*m)[kv_view(r@)[i].0] == kv_view(r@)[i].1,
        forall|k: Seq<u8>|
            byte_map_contents(*m).contains_key(k) ==> exists|i: int|
                0 <= i < r@.len() && #[trigger] kv_view(r@)[i].0 == k,
        forall|i: int, j: int|
            0 <= i < j < r@.len() ==> #[trigger] kv_view(r@)[i].0 != #[trigger] kv_view(r@)[j].0,
{
    m.iter().map(|e| (e.key().clone(), e.value().clone())).collect()
}

/// A segment of a collection: its id and its level.
#[derive(Debug)]
pub struct CollectionSegmentState {
    pub id: String,
    pub level: u32,
}

/// A persistent `rpds::VectorSync` of segments. `rpds::Vector` cannot be declared as a
/// type of the specifications (its pointer-kind parameter is bounded by a trait of
/// `archery`), so the vector is held here as an opaque value, behind the functions below.
#[verifier::external_body]
pub struct SegmentList {
    inner: rpds::VectorSync<CollectionSegmentState>,
}

/// The segments, as (id, level), that a segment vector holds, in order.
pub uninterp spec fn segment_list_contents(v: SegmentList) -> Seq<(Seq<char>, u32)>;

/// `Vector::new_sync`: an empty vector.
#[verifier::external_body]
pub(crate) fn segment_list_new() -> (r: SegmentList)
    ensures
        segment_list_contents(r).len() == 0,
{
    SegmentList { inner: rpds::Vector::new_sync() }
}

/// `Vector::push_back`: a new vector with the segment added at the end; the vector it is
/// called on is left as it was.
#[verifier::external_body]
pub(crate) fn segment_list_push_back(
    v: &SegmentList,
    s: CollectionSegmentState,
) -> (r: SegmentList)
    ensures
        segment_list_contents(r) == segment_list_contents(*v).push((s.id@, s.level)),
{
    SegmentList { inner: v.inner.push_back(s) }
}

/// `Vector::len`: the number of segments.
#[verifier::external_body]
pub(crate) fn segment_list_len(v: &SegmentList) -> (r: usize)
    ensures
        r == segment_list_contents(*v).len(),
{
    v.inner.len()
}

/// `Vector::get`: the segment at the index, if the index is in range.
#[verifier::external_body]
pub(crate) fn segment_list_get(
    v: &SegmentList,
    i: usize,
) -> (r: Option<&CollectionSegmentState>)
    ensures
        match r {
            Some(s) => i < segment_list_contents(*v).len() && segment_list_contents(*v)[i as int]
                == (s.id@, s.level),
            None => i >= segment_list_contents(*v).len(),
        },
{
    v.inner.get(i)
}

} // verus!
