//! The LSM document engine: per collection a write buffer and a list of segments, read
//! from the newest data to the oldest, and flushed to a new segment when the buffer grows
//! past a threshold.
//!
//! The segment files are reached through an `LSMDocumentPort`, implemented outside this
//! crate; nothing is assumed of what it answers.
use crate::error::{Code, VixError};
use crate::fieldmap::FieldMap;
use crate::fresh::new_uuid;
use crate::codec::{byte_le, Order};
use crate::lookup::{
    block_outcome, compare_block, key_filter_members, BlockOrdering, BlockSearch, SearchProgress, SegmentState,
};
use crate::lsm::{buffer_store, flushed_empty, CollectionState, GetAllSegmentByCollectionIDPortResult};
use crate::segment::{kv_view, KeyValue, SegmentMetadata};
use vstd::prelude::*;

verus! {

/// The segment files of the engine.
pub trait LSMDocumentPort {
    /// The segments of a collection, as its latest commit lists them.
    fn get_all_segment_by_collection_id(&self, collection_id: &str) -> Result<
        GetAllSegmentByCollectionIDPortResult,
        VixError,
    >;

    /// The metadata record of a segment.
    fn get_metadata(&self, collection_id: &str, segment_id: &str) -> Result<SegmentMetadata, VixError>;

    /// The pairs of the block at the offset of a segment.
    fn get_values_from_block(&self, collection_id: &str, segment_id: &str, block_offset: u64) -> Result<
        Vec<KeyValue>,
        VixError,
    >;

    /// Writes sorted pairs as a new segment and gives back its metadata; with no pairs
    /// nothing is written and there is no segment.
    fn flush_segment(&self, collection_id: &str, segment_id: &str, sorted_key_values: Vec<KeyValue>) -> Result<
        Option<SegmentMetadata>,
        VixError,
    >;
}

/// Reading and writing documents by key.
pub trait DocumentEngine {
    fn get_by_key(&self, collection_id: &str, key: &[u8]) -> Result<Vec<u8>, VixError>;

    fn insert(&mut self, collection_id: &str, key: &[u8], value: &[u8]) -> Result<(), VixError>;
}

/// Loading the engine's collections.
pub trait DocumentEngineLoader {
    fn load(&mut self, collection_ids: &[String]) -> Result<(), VixError>;
}

/// What the search of one listed segment came to: skipped, because its range or filter
/// rules the key out, or searched, with the search's result.
pub enum SegmentOutcome {
    Skipped,
    Searched(Result<Vec<u8>, VixError>),
}

/// The lookup's answer after one segment, if the segment decides it: a value found ends
/// the lookup, and so does any error but `DocumentNotFound`; a skipped segment, or one
/// that does not hold the key, passes the lookup on to the next segment.
pub open spec fn outcome_result(outcome: SegmentOutcome) -> Option<Result<Vec<u8>, VixError>> {
    match outcome {
        SegmentOutcome::Skipped => None,
        SegmentOutcome::Searched(Ok(v)) => Some(Ok(v)),
        SegmentOutcome::Searched(Err(e)) => if e.code == Code::DocumentNotFound {
            None
        } else {
            Some(Err(e))
        },
    }
}

/// Decides the lookup after one segment, as `outcome_result` says.
pub fn segment_decision(outcome: SegmentOutcome) -> (r: Option<Result<Vec<u8>, VixError>>)
    ensures
        r == outcome_result(outcome),
{
    match outcome {
        SegmentOutcome::Skipped => None,
        SegmentOutcome::Searched(Ok(v)) => Some(Ok(v)),
        SegmentOutcome::Searched(Err(e)) => {
            if e.code == Code::DocumentNotFound {
                None
            } else {
                Some(Err(e))
            }
        },
    }
}

/// The key lies between the segment's smallest and biggest key.
pub open spec fn range_admits(s: SegmentState, key: Seq<u8>) -> bool {
    byte_le(s.smallest_key@, key) && byte_le(key, s.biggest_key@)
}

/// The segment is searched for the key: the key lies in its range and its key filter
/// admits it.
pub open spec fn segment_admits(s: SegmentState, key: Seq<u8>) -> bool {
    range_admits(s, key) && key_filter_members(s.key_filter).contains(key)
}

/// The first answer that the outcomes, taken in order, decide.
pub open spec fn first_decision(outs: Seq<SegmentOutcome>) -> Option<Result<Vec<u8>, VixError>>
    decreases outs.len(),
{
    if outs.len() == 0 {
        None
    } else {
        match first_decision(outs.drop_last()) {
            Some(x) => Some(x),
            None => outcome_result(outs.last()),
        }
    }
}

/// `outs` are the outcomes of the first listed segments, in order: each of those segments
/// is loaded, it is searched exactly when it admits the key, and the walk stopped at the
/// first outcome that decides the lookup.
pub open spec fn walked_in_order(
    entries: Seq<(Seq<char>, u32)>,
    segs: Map<Seq<char>, SegmentState>,
    key: Seq<u8>,
    outs: Seq<SegmentOutcome>,
) -> bool {
    &&& outs.len() <= entries.len()
    &&& forall|j: int| 0 <= j < outs.len() ==> segs.contains_key(#[trigger] entries[j].0)
        && (outs[j] is Skipped <==> !segment_admits(segs[entries[j].0], key))
    &&& outs.len() > 0 ==> first_decision(outs.drop_last()) is None
}

/// The answer after the walk `outs`: the first decided outcome; else `DocumentNotFound`
/// when every listed segment was walked; else the next listed segment is not loaded and
/// the answer is `FatalError`.
pub open spec fn walk_ends(
    entries: Seq<(Seq<char>, u32)>,
    segs: Map<Seq<char>, SegmentState>,
    outs: Seq<SegmentOutcome>,
    r: Result<Vec<u8>, VixError>,
) -> bool {
    match first_decision(outs) {
        Some(x) => r == x,
        None => if outs.len() == entries.len() {
            r matches Err(e) && e.code == Code::DocumentNotFound
        } else {
            !segs.contains_key(entries[outs.len() as int].0) && (r matches Err(e) && e.code == Code::FatalError)
        },
    }
}

/// Every listed segment is loaded and none has the key in its range.
pub open spec fn none_in_range(entries: Seq<(Seq<char>, u32)>, segs: Map<Seq<char>, SegmentState>, key: Seq<u8>) -> bool {
    forall|j: int| 0 <= j < entries.len() ==> segs.contains_key(#[trigger] entries[j].0) && !range_admits(segs[entries[j].0], key)
}

/// The listed segment `i` is not loaded, and every segment listed before it is loaded and
/// does not have the key in its range.
pub open spec fn unloaded_first(entries: Seq<(Seq<char>, u32)>, segs: Map<Seq<char>, SegmentState>, key: Seq<u8>, i: int) -> bool {
    &&& 0 <= i < entries.len()
    &&& !segs.contains_key(entries[i].0)
    &&& forall|j: int| 0 <= j < i ==> segs.contains_key(#[trigger] entries[j].0) && !range_admits(segs[entries[j].0], key)
}

/// The listed segment `i` is loaded, has the key in its range, and a block read from it
/// pairs the key with `v`; every segment listed before it is loaded, so it was tried first.
pub open spec fn found_in_segment(
    entries: Seq<(Seq<char>, u32)>,
    segs: Map<Seq<char>, SegmentState>,
    key: Seq<u8>,
    v: Seq<u8>,
    i: int,
) -> bool {
    &&& 0 <= i < entries.len()
    &&& segs.contains_key(entries[i].0)
    &&& range_admits(segs[entries[i].0], key)
    &&& exists|vals: Seq<(Seq<u8>, Seq<u8>)>| #[trigger] block_outcome(vals, key) == Some((Order::Equal, Some(v)))
    &&& forall|j: int| 0 <= j < i ==> segs.contains_key(#[trigger] entries[j].0)
}

/// Looks a key up in a segment: a binary search over its blocks, each read through the
/// port and compared with the key. `DocumentNotFound` when no block holds the key; an
/// error of the port, or an empty block, is passed on.
pub fn get_value_from_segment<P: LSMDocumentPort>(adapter: &P, segment: &SegmentState, key: &[u8]) -> (r:
    Result<Vec<u8>, VixError>)
    ensures
        segment.key_block_offsets@.len() == 0 ==> (r matches Err(e) && e.code == Code::DocumentNotFound),
        r matches Ok(v) ==> segment.key_block_offsets@.len() > 0 && exists|vals: Seq<(Seq<u8>, Seq<u8>)>|
            #[trigger] block_outcome(vals, key@) == Some((Order::Equal, Some(v@))),
{
    let n = segment.key_block_offsets.len();
    let (mut search, first) = BlockSearch::start(n);
    let mut mid = match first {
        SearchProgress::Probe(m) => m,
        SearchProgress::Done(_) => {
            return Err(VixError::new(Code::DocumentNotFound, "value not found in segment"));
        },
    };
    loop
        invariant
            n == segment.key_block_offsets@.len(),
            n > 0,
            search.lo() < search.hi() <= n,
            mid == search.mid(),
        decreases search.hi() - search.lo(),
    {
        let offset = segment.key_block_offsets[mid];
        let values = match adapter.get_values_from_block(
            segment.collection_id.as_str(),
            segment.id.as_str(),
            offset,
        ) {
            Ok(v) => v,
            Err(e) => {
                return Err(e);
            },
        };
        let outcome = match compare_block(&values, key) {
            Ok(o) => o,
            Err(e) => {
                return Err(e);
            },
        };
        let ghost found = if outcome is Equal {
            Some(outcome->Equal_0@)
        } else {
            None::<Seq<u8>>
        };
        proof {
            if found is Some {
                assert(block_outcome(kv_view(values@), key@) == Some((Order::Equal, found)));
            }
        }
        match search.step(outcome) {
            SearchProgress::Probe(m) => {
                mid = m;
            },
            SearchProgress::Done(Some(v)) => {
                assert(found == Some(v@));
                assert(block_outcome(kv_view(values@), key@) == Some((Order::Equal, Some(v@))));
                return Ok(v);
            },
            SearchProgress::Done(None) => {
                return Err(VixError::new(Code::DocumentNotFound, "value not found in segment"));
            },
        }
    }
}

/// The collections of the engine by id, and the loaded segments by id.
pub struct EngineMaps {
    pub collection_by_id: FieldMap<CollectionState>,
    pub segment_by_id: FieldMap<SegmentState>,
}

impl EngineMaps {
    /// Both maps are sound.
    pub open spec fn wf(&self) -> bool {
        self.collection_by_id.wf() && self.segment_by_id.wf()
    }
}

/// Flushes the buffer of a collection to a new segment: the write buffer becomes the
/// buffer being flushed, its pairs are written sorted through the port as a segment with a
/// fresh id, the segment is loaded and listed at level 0, and the flushed buffer is
/// dropped. Nothing happens when a flush is under way or the buffer is empty. On an error
/// of the port the flushed buffer is dropped too and the error is given back.
pub fn flush_collection<P: LSMDocumentPort>(
    adapter: &P,
    collection: &mut CollectionState,
    segment_by_id: &mut FieldMap<SegmentState>,
) -> (r: Result<(), VixError>)
    requires
        old(segment_by_id).wf(),
    ensures
        final(segment_by_id).wf(),
        final(collection).collection_id() == old(collection).collection_id(),
        final(collection).flushing() is None || final(collection).flushing() == old(collection).flushing(),
        old(collection).flushing() is Some ==> {
            &&& r is Ok
            &&& final(collection).active() == old(collection).active()
            &&& final(collection).flushing() == old(collection).flushing()
            &&& final(collection).segment_entries() == old(collection).segment_entries()
            &&& final(segment_by_id)@ == old(segment_by_id)@
        },
        old(collection).flushing() is None ==> final(collection).active().dom() == Set::<Seq<u8>>::empty()
            && final(collection).flushing() is None,
        final(collection).segment_entries() == old(collection).segment_entries() || exists|id: Seq<char>|
            final(collection).segment_entries() == #[trigger] old(collection).segment_entries().take(
                crate::lsm::insert_index(old(collection).segment_entries(), 0),
            ).push((id, 0u32)) + old(collection).segment_entries().skip(
                crate::lsm::insert_index(old(collection).segment_entries(), 0),
            ),
{
    if !collection.try_begin_commit() {
        return Ok(());
    }
    let sorted = match collection.commit_buffer() {
        Some(b) => {
            if b.is_empty() {
                None
            } else {
                Some(b.sorted_key_values())
            }
        },
        None => None,
    };
    let sorted = match sorted {
        Some(s) => s,
        None => {
            collection.end_commit();
            return Ok(());
        },
    };
    let segment_id = new_uuid();
    let metadata = match adapter.flush_segment(collection.id_str(), segment_id.as_str(), sorted) {
        Ok(Some(m)) => m,
        Ok(None) => {
            collection.end_commit();
            return Ok(());
        },
        Err(e) => {
            collection.end_commit();
            return Err(e);
        },
    };
    if metadata.filter_bits.len() == 0 {
        collection.end_commit();
        return Err(VixError::new(Code::FatalError, "segment has no key filter"));
    }
    let state = metadata.segment_state(segment_id.as_str(), collection.id_str());
    segment_by_id.insert(segment_id.clone(), state);
    collection.insert_segment(segment_id.as_str(), 0);
    collection.end_commit();
    Ok(())
}

/// The LSM document engine: the port to the segment files, the collections and the
/// loaded segments, and the buffer size past which a collection is flushed.
pub struct LSMDocumentEngine<P> {
    adapter: P,
    maps: EngineMaps,
    flush_byte_size_threshold: usize,
}

impl<P> LSMDocumentEngine<P> {
    #[verifier::type_invariant]
    spec fn inv(&self) -> bool {
        self.maps.wf()
    }

    /// The collections, by id.
    pub closed spec fn collections(&self) -> Map<Seq<char>, CollectionState> {
        self.maps.collection_by_id@
    }

    /// The loaded segments, by id.
    pub closed spec fn segments(&self) -> Map<Seq<char>, SegmentState> {
        self.maps.segment_by_id@
    }

    /// The buffer size past which a collection is flushed.
    pub closed spec fn threshold(&self) -> usize {
        self.flush_byte_size_threshold
    }

    /// An engine with no collection.
    pub fn new(adapter: P, flush_threshold: usize) -> (r: LSMDocumentEngine<P>)
        ensures
            r.collections().dom() == Set::<Seq<char>>::empty(),
            r.segments().dom() == Set::<Seq<char>>::empty(),
            r.threshold() == flush_threshold,
    {
        LSMDocumentEngine {
            adapter,
            maps: EngineMaps { collection_by_id: FieldMap::new(), segment_by_id: FieldMap::new() },
            flush_byte_size_threshold: flush_threshold,
        }
    }

    fn take_maps(&mut self) -> (r: EngineMaps)
        ensures
            r.wf(),
            r == old(self).maps,
            final(self).adapter == old(self).adapter,
            final(self).flush_byte_size_threshold == old(self).flush_byte_size_threshold,
    {
        proof {
            use_type_invariant(&*self);
        }
        let mut m = EngineMaps { collection_by_id: FieldMap::new(), segment_by_id: FieldMap::new() };
        std::mem::swap(&mut m, &mut self.maps);
        m
    }

    fn put_maps(&mut self, maps: EngineMaps)
        requires
            maps.wf(),
        ensures
            final(self).maps == maps,
            final(self).adapter == old(self).adapter,
            final(self).flush_byte_size_threshold == old(self).flush_byte_size_threshold,
    {
        self.maps = maps;
    }
}

impl<P: LSMDocumentPort> LSMDocumentEngine<P> {
    /// Flushes the collection's buffer to a new segment, as `flush_collection` does. An
    /// error when the engine has no such collection.
    pub fn flush(&mut self, collection_id: &str) -> (r: Result<(), VixError>)
        ensures
            !old(self).collections().contains_key(collection_id@) ==> (r matches Err(e) && e.code
                == Code::CollectionNotFound),
            final(self).collections().dom() == old(self).collections().dom(),
    {
        let mut maps = self.take_maps();
        let ghost before = maps.collection_by_id@;
        let mut collection = match maps.collection_by_id.remove(collection_id) {
            Some(c) => c,
            None => {
                assert(maps.collection_by_id@ =~= before);
                self.put_maps(maps);
                return Err(VixError::new(Code::CollectionNotFound, "collection not found"));
            },
        };
        let r = flush_collection(&self.adapter, &mut collection, &mut maps.segment_by_id);
        maps.collection_by_id.insert(collection_id.to_owned(), collection);
        assert(maps.collection_by_id@.dom() =~= before.dom());
        self.put_maps(maps);
        r
    }
}

/// The ids of the strings.
pub open spec fn ids_set(ids: Seq<String>) -> Set<Seq<char>> {
    Set::new(|k: Seq<char>| exists|i: int| 0 <= i < ids.len() && ids[i]@ == k)
}

/// `c` is the collection `id` as just loaded: an empty write buffer, no flush under way,
/// and each of its segments loaded in `segments`.
pub open spec fn freshly_loaded(c: CollectionState, id: Seq<char>, segments: Map<Seq<char>, SegmentState>) -> bool {
    &&& c.collection_id() == id
    &&& c.active().dom() == Set::<Seq<u8>>::empty()
    &&& c.flushing() is None
    &&& forall|e: int| 0 <= e < c.segment_entries().len() ==> segments.contains_key(#[trigger] c.segment_entries()[e].0)
}

/// A collection loaded before stays freshly loaded while another collection is put in
/// place and segments are added.
proof fn lemma_fresh_grows(
    prev: Map<Seq<char>, CollectionState>,
    after: Map<Seq<char>, CollectionState>,
    prev_segs: Map<Seq<char>, SegmentState>,
    segs: Map<Seq<char>, SegmentState>,
    k: Seq<char>,
    k_i: Seq<char>,
)
    requires
        k != k_i,
        prev.contains_key(k),
        freshly_loaded(prev[k], k, prev_segs),
        after == prev.insert(k_i, after[k_i]),
        prev_segs.dom().subset_of(segs.dom()),
    ensures
        after.contains_key(k),
        freshly_loaded(after[k], k, segs),
{
    assert(after[k] == prev[k]);
}

impl<P: LSMDocumentPort> DocumentEngineLoader for LSMDocumentEngine<P> {
    /// Loads each collection: its segments as its latest commit lists them, each with its
    /// metadata read and its key filter rebuilt. An error of the port, or a segment whose
    /// metadata holds no filter bits, ends the load.
    fn load(&mut self, collection_ids: &[String]) -> (r: Result<(), VixError>)
        ensures
            collection_ids@.len() == 0 ==> r is Ok && final(self).collections() == old(self).collections()
                && final(self).segments() == old(self).segments(),
            old(self).segments().dom().subset_of(final(self).segments().dom()),
            forall|k: Seq<char>| #[trigger] final(self).collections().contains_key(k) ==> old(self).collections().contains_key(k)
                || ids_set(collection_ids@).contains(k),
            forall|k: Seq<char>| #[trigger] old(self).collections().contains_key(k) ==> final(self).collections().contains_key(k)
                && (ids_set(collection_ids@).contains(k) || final(self).collections()[k] == old(self).collections()[k]),
            r is Ok ==> forall|i: int| 0 <= i < collection_ids@.len() ==> #[trigger] final(self).collections().contains_key(collection_ids@[i]@)
                && freshly_loaded(final(self).collections()[collection_ids@[i]@], collection_ids@[i]@, final(self).segments()),
    {
        let mut maps = self.take_maps();
        let ghost before = maps.collection_by_id@;
        let ghost segs_before = maps.segment_by_id@;
        let mut i: usize = 0;
        while i < collection_ids.len()
            invariant
                i <= collection_ids@.len(),
                maps.wf(),
                segs_before.dom().subset_of(maps.segment_by_id@.dom()),
                forall|k: Seq<char>| #[trigger] maps.collection_by_id@.contains_key(k) ==> before.contains_key(k)
                    || ids_set(collection_ids@).contains(k),
                forall|k: Seq<char>| #[trigger] before.contains_key(k) ==> maps.collection_by_id@.contains_key(k)
                    && (ids_set(collection_ids@).contains(k) || maps.collection_by_id@[k] == before[k]),
                forall|j: int| 0 <= j < i ==> #[trigger] maps.collection_by_id@.contains_key(collection_ids@[j]@)
                    && freshly_loaded(maps.collection_by_id@[collection_ids@[j]@], collection_ids@[j]@, maps.segment_by_id@),
                i == 0 ==> maps.collection_by_id@ == before && maps.segment_by_id@ == segs_before,
                before == old(self).collections(),
                segs_before == old(self).segments(),
            decreases collection_ids@.len() - i,
        {
            let collection_id = collection_ids[i].as_str();
            let result = match self.adapter.get_all_segment_by_collection_id(collection_id) {
                Ok(r) => r,
                Err(e) => {
                    self.put_maps(maps);
                    return Err(e);
                },
            };
            let collection = CollectionState::from_get_all_segment_by_collection_id_port_result(collection_id, result);
            let segment_ids = collection.get_segment_ids();
            let ghost prev = maps.collection_by_id@;
            let ghost prev_segs = maps.segment_by_id@;
            let ghost k_i = collection_ids@[i as int]@;
            assert(ids_set(collection_ids@).contains(k_i));
            maps.collection_by_id.insert(collection_ids[i].clone(), collection);
            let ghost after = maps.collection_by_id@;
            proof {
                assert forall|k: Seq<char>| #[trigger] after.contains_key(k) implies before.contains_key(k)
                    || ids_set(collection_ids@).contains(k) by {
                    if k != k_i {
                        assert(prev.contains_key(k));
                    }
                }
                assert forall|k: Seq<char>| #[trigger] before.contains_key(k) implies after.contains_key(k)
                    && (ids_set(collection_ids@).contains(k) || after[k] == before[k]) by {
                    assert(prev.contains_key(k));
                }
            }
            let mut j: usize = 0;
            while j < segment_ids.len()
                invariant
                    j <= segment_ids@.len(),
                    maps.wf(),
                    maps.collection_by_id@ == after,
                    i < collection_ids@.len(),
                    before == old(self).collections(),
                    segs_before == old(self).segments(),
                    segs_before.dom().subset_of(prev_segs.dom()),
                    forall|k: Seq<char>| #[trigger] after.contains_key(k) ==> before.contains_key(k)
                        || ids_set(collection_ids@).contains(k),
                    forall|k: Seq<char>| #[trigger] before.contains_key(k) ==> after.contains_key(k)
                        && (ids_set(collection_ids@).contains(k) || after[k] == before[k]),
                    prev_segs.dom().subset_of(maps.segment_by_id@.dom()),
                    after.contains_key(k_i),
                    segment_ids@.len() == after[k_i].segment_entries().len(),
                    forall|jj: int| 0 <= jj < segment_ids@.len() ==> #[trigger] segment_ids@[jj]@ == after[k_i].segment_entries()[jj].0,
                    forall|jj: int| 0 <= jj < j ==> #[trigger] maps.segment_by_id@.contains_key(segment_ids@[jj]@),
                decreases segment_ids@.len() - j,
            {
                let segment_id = segment_ids[j].as_str();
                let metadata = match self.adapter.get_metadata(collection_id, segment_id) {
                    Ok(m) => m,
                    Err(e) => {
                        self.put_maps(maps);
                        return Err(e);
                    },
                };
                if metadata.filter_bits.len() == 0 {
                    self.put_maps(maps);
                    return Err(VixError::new(Code::FatalError, "segment has no key filter"));
                }
                let state = metadata.segment_state(segment_id, collection_id);
                let ghost segs_now = maps.segment_by_id@;
                maps.segment_by_id.insert(segment_ids[j].clone(), state);
                assert forall|jj: int| 0 <= jj < j + 1 implies #[trigger] maps.segment_by_id@.contains_key(segment_ids@[jj]@) by {
                    if jj < j {
                        assert(segs_now.contains_key(segment_ids@[jj]@));
                    }
                }
                j = j + 1;
            }
            proof {
                assert forall|jj: int| 0 <= jj < i + 1 implies #[trigger] maps.collection_by_id@.contains_key(collection_ids@[jj]@)
                    && freshly_loaded(maps.collection_by_id@[collection_ids@[jj]@], collection_ids@[jj]@, maps.segment_by_id@) by {
                    if collection_ids@[jj]@ == k_i {
                        assert(maps.collection_by_id@[k_i].segment_entries().len() == segment_ids@.len());
                        assert forall|e: int| 0 <= e < maps.collection_by_id@[k_i].segment_entries().len() implies
                            maps.segment_by_id@.contains_key(#[trigger] maps.collection_by_id@[k_i].segment_entries()[e].0) by {
                            assert(segment_ids@[e]@ == after[k_i].segment_entries()[e].0);
                        }
                    } else {
                        lemma_fresh_grows(prev, after, prev_segs, maps.segment_by_id@, collection_ids@[jj]@, k_i);
                    }
                }
            }
            i = i + 1;
        }
        self.put_maps(maps);
        Ok(())
    }
}

impl<P: LSMDocumentPort> DocumentEngine for LSMDocumentEngine<P> {
    /// The value of a key in a collection: the buffered value if there is one, else the
    /// value of the first segment, from the lowest level up, whose range and key filter
    /// admit the key and whose blocks hold it. `CollectionNotFound` for an unknown
    /// collection, `DocumentNotFound` when no segment holds the key, `FatalError` for a
    /// listed segment that is not loaded; an error of the port is passed on.
    fn get_by_key(&self, collection_id: &str, key: &[u8]) -> (r: Result<Vec<u8>, VixError>)
        ensures
            !self.collections().contains_key(collection_id@) ==> (r matches Err(e) && e.code
                == Code::CollectionNotFound),
            self.collections().contains_key(collection_id@) && self.collections()[collection_id@].lookup(key@) is Some
                ==> (r matches Ok(v) && Some(v@) == self.collections()[collection_id@].lookup(key@)),
            self.collections().contains_key(collection_id@) && self.collections()[collection_id@].lookup(key@) is None
                && none_in_range(self.collections()[collection_id@].segment_entries(), self.segments(), key@)
                ==> (r matches Err(e) && e.code == Code::DocumentNotFound),
            self.collections().contains_key(collection_id@) && self.collections()[collection_id@].lookup(key@) is None
                && (exists|i: int| #[trigger] unloaded_first(self.collections()[collection_id@].segment_entries(), self.segments(), key@, i))
                ==> (r matches Err(e) && e.code == Code::FatalError),
            self.collections().contains_key(collection_id@) && self.collections()[collection_id@].lookup(key@) is None
                ==> (r matches Ok(v) ==> exists|i: int| #[trigger] found_in_segment(
                self.collections()[collection_id@].segment_entries(),
                self.segments(),
                key@,
                v@,
                i,
            )),
            self.collections().contains_key(collection_id@) && self.collections()[collection_id@].lookup(key@) is None
                ==> exists|outs: Seq<SegmentOutcome>| #[trigger] walked_in_order(
                self.collections()[collection_id@].segment_entries(),
                self.segments(),
                key@,
                outs,
            ) && walk_ends(self.collections()[collection_id@].segment_entries(), self.segments(), outs, r),
    {
        proof {
            use_type_invariant(self);
        }
        let collection = match self.maps.collection_by_id.get(collection_id) {
            Some(c) => c,
            None => {
                return Err(VixError::new(Code::CollectionNotFound, "collection not found"));
            },
        };
        match collection.value_from_buffer(key) {
            Some(v) => {
                return Ok(v);
            },
            None => {},
        }
        let ghost entries = collection.segment_entries();
        let ghost segs = self.segments();
        let segment_ids = collection.get_segment_ids();
        let mut i: usize = 0;
        let ghost mut outs: Seq<SegmentOutcome> = Seq::empty();
        while i < segment_ids.len()
            invariant
                i <= segment_ids@.len(),
                outs.len() == i,
                walked_in_order(entries, segs, key@, outs),
                first_decision(outs) is None,
                self.maps.segment_by_id.wf(),
                self.collections().contains_key(collection_id@),
                self.collections()[collection_id@].lookup(key@) is None,
                entries == self.collections()[collection_id@].segment_entries(),
                segs == self.segments(),
                segment_ids@.len() == entries.len(),
                forall|j: int| 0 <= j < segment_ids@.len() ==> #[trigger] segment_ids@[j]@ == entries[j].0,
                forall|j: int| 0 <= j < i ==> segs.contains_key(#[trigger] entries[j].0),
            decreases segment_ids@.len() - i,
        {
            let segment = match self.maps.segment_by_id.get(segment_ids[i].as_str()) {
                Some(s) => s,
                None => {
                    proof {
                        assert(segment_ids@[i as int]@ == entries[i as int].0);
                        assert(!none_in_range(entries, segs, key@));
                        assert(walked_in_order(entries, segs, key@, outs));
                    }
                    let r = Err(VixError::new(Code::FatalError, "segment not found"));
                    assert(walk_ends(entries, segs, outs, r));
                    return r;
                },
            };
            assert(segment_ids@[i as int]@ == entries[i as int].0);
            let admitted = segment.may_contain_key(key);
            if admitted {
                proof {
                    assert(range_admits(segs[entries[i as int].0], key@));
                    assert(!none_in_range(entries, segs, key@));
                    assert forall|ii: int| !#[trigger] unloaded_first(entries, segs, key@, ii) by {
                        if 0 <= ii < entries.len() && ii > i {
                            assert(segs.contains_key(entries[i as int].0) && range_admits(segs[entries[i as int].0], key@));
                        }
                        if 0 <= ii <= i {
                            if ii < i {
                                assert(segs.contains_key(entries[ii].0));
                            }
                        }
                    }
                }
            }
            let outcome = if admitted {
                SegmentOutcome::Searched(get_value_from_segment(&self.adapter, segment, key))
            } else {
                SegmentOutcome::Skipped
            };
            let ghost o = outcome;
            let ghost next = outs.push(o);
            proof {
                assert(next.drop_last() =~= outs);
                assert(segment_admits(segs[entries[i as int].0], key@) == admitted);
                assert forall|j: int| 0 <= j < next.len() implies segs.contains_key(#[trigger] entries[j].0)
                    && (next[j] is Skipped <==> !segment_admits(segs[entries[j].0], key@)) by {
                    if j < i {
                        assert(next[j] == outs[j]);
                    }
                }
                assert(walked_in_order(entries, segs, key@, next));
                assert(first_decision(next) == outcome_result(o));
            }
            match segment_decision(outcome) {
                Some(res) => {
                    assert(walk_ends(entries, segs, next, res));
                    proof {
                        if res is Ok {
                            let v = res->Ok_0;
                            assert(o == SegmentOutcome::Searched(Ok(v)));
                            let vals = choose|vals: Seq<(Seq<u8>, Seq<u8>)>| #[trigger] block_outcome(vals, key@)
                                == Some((Order::Equal, Some(v@)));
                            assert(found_in_segment(entries, segs, key@, v@, i as int));
                        }
                    }
                    return res;
                },
                None => {},
            }
            proof {
                outs = next;
            }
            i = i + 1;
        }
        proof {
            assert forall|ii: int| !#[trigger] unloaded_first(entries, segs, key@, ii) by {
                if 0 <= ii < entries.len() {
                    assert(segs.contains_key(entries[ii].0));
                }
            }
        }
        let r = Err(VixError::new(Code::DocumentNotFound, "document not found"));
        assert(walk_ends(entries, segs, outs, r));
        r
    }

    /// Stores the pair in the collection's write buffer; when the buffer has reached the
    /// threshold and no flush is under way, the buffer is flushed to a new segment. A
    /// failed flush does not fail the insert. `CollectionNotFound` for an unknown
    /// collection. Afterwards the key's value is the buffered value, unless the buffer was
    /// flushed.
    fn insert(&mut self, collection_id: &str, key: &[u8], value: &[u8]) -> (r: Result<(), VixError>)
        ensures
            !old(self).collections().contains_key(collection_id@) ==> (r matches Err(e) && e.code
                == Code::CollectionNotFound) && final(self).collections() == old(self).collections(),
            old(self).collections().contains_key(collection_id@) ==> r is Ok && final(self).collections().contains_key(collection_id@)
                && (final(self).collections()[collection_id@].lookup(key@) == Some(value@) || (
                final(self).collections()[collection_id@].active().dom() == Set::<Seq<u8>>::empty()
                    && final(self).collections()[collection_id@].flushing() is None)),
            final(self).collections().dom() == old(self).collections().dom(),
            old(self).collections().contains_key(collection_id@) ==> buffer_store(final(self).collections()[collection_id@])
                == buffer_store(old(self).collections()[collection_id@]).insert(key@, value@) || flushed_empty(
                final(self).collections()[collection_id@],
            ),
    {
        let mut maps = self.take_maps();
        let ghost before = maps.collection_by_id@;
        let mut collection = match maps.collection_by_id.remove(collection_id) {
            Some(c) => c,
            None => {
                assert(maps.collection_by_id@ =~= before);
                self.put_maps(maps);
                return Err(VixError::new(Code::CollectionNotFound, "collection not found"));
            },
        };
        let ghost c0 = collection;
        collection.insert_buffer_value(key, value);
        assert(buffer_store(collection) =~= buffer_store(c0).insert(key@, value@));
        if !collection.is_flushable(self.flush_byte_size_threshold) {
            let _ = flush_collection(&self.adapter, &mut collection, &mut maps.segment_by_id);
        }
        maps.collection_by_id.insert(collection_id.to_owned(), collection);
        assert(maps.collection_by_id@.dom() =~= before.dom());
        self.put_maps(maps);
        Ok(())
    }
}

} // verus!
