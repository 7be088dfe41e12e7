//! The read path of a segment: whether a segment may hold a key, and the binary search
//! over its blocks.
use crate::codec::{
    byte_le, byte_lt, bytes_equal, compare_bytes, lemma_byte_order_antisym,
    lemma_byte_order_equal, lemma_byte_order_trans, Order,
};
use crate::error::{Code, VixError};
use crate::segment::{kv_view, KeyValue, SegmentMetadata};
use crate::sorting::keys_ascending;
use vstd::prelude::*;

verus! {

/// A segment's key filter, a `fastbloom::BloomFilter`. That type cannot be declared as a
/// type of the specifications (its default hasher type is private to `fastbloom`), so the
/// filter is held here as an opaque value.
#[verifier::external_body]
pub struct KeyFilter {
    inner: fastbloom::BloomFilter,
}

/// Calls `BloomFilter::from_vec(bits).hashes(num_hashes)`. The filter gets a freshly
/// seeded hasher, so nothing is stated of the keys it reports (`key_filter_members`). `from_vec` panics on an
/// empty bit vector, which the precondition leaves out.
#[verifier::external_body]
pub(crate) fn bloom_from_bits(bits: Vec<u64>, num_hashes: u32) -> (r: KeyFilter)
    requires
        bits@.len() > 0,
{
    KeyFilter { inner: fastbloom::BloomFilter::from_vec(bits).hashes(num_hashes) }
}

/// The keys that a key filter reports as possibly present. `BloomFilter::contains` reads
/// only the filter's bits and its hasher, both fixed once the filter is built, so each
/// filter answers each key the same way every time; which keys these are depends on the
/// hasher's seed and is not stated.
pub uninterp spec fn key_filter_members(filter: KeyFilter) -> Set<Seq<u8>>;

/// Calls `BloomFilter::contains` on the key: true exactly for the keys that the filter
/// reports as possibly present.
#[verifier::external_body]
pub(crate) fn bloom_contains(filter: &KeyFilter, key: &[u8]) -> (r: bool)
    ensures
        r == key_filter_members(*filter).contains(key@),
{
    filter.inner.contains(&key)
}

/// A loaded segment: where it lives, the range of its keys, its key filter and where
/// each of its blocks starts.
pub struct SegmentState {
    pub id: String,
    pub collection_id: String,
    pub smallest_key: Vec<u8>,
    pub biggest_key: Vec<u8>,
    pub key_filter: KeyFilter,
    pub key_block_offsets: Vec<u64>,
}

impl SegmentMetadata {
    /// The loaded state of a segment from its metadata; the key filter is rebuilt from
    /// its bits and hash count. The metadata must hold some filter bits.
    pub fn segment_state(self, segment_id: &str, collection_id: &str) -> (r: SegmentState)
        requires
            self.filter_bits@.len() > 0,
        ensures
            r.id@ == segment_id@,
            r.collection_id@ == collection_id@,
            r.smallest_key@ == self.smallest_key@,
            r.biggest_key@ == self.biggest_key@,
            r.key_block_offsets@ == self.key_block_offsets@,
    {
        let key_filter = bloom_from_bits(self.filter_bits, self.filter_hash_cnt);
        SegmentState {
            id: segment_id.to_owned(),
            collection_id: collection_id.to_owned(),
            smallest_key: self.smallest_key,
            biggest_key: self.biggest_key,
            key_filter,
            key_block_offsets: self.key_block_offsets,
        }
    }
}

impl SegmentState {
    /// Whether the key lies between the segment's smallest and biggest key.
    pub fn key_in_range(&self, key: &[u8]) -> (r: bool)
        ensures
            r == (byte_le(self.smallest_key@, key@) && byte_le(key@, self.biggest_key@)),
    {
        if compare_bytes(key, self.smallest_key.as_slice()) == Order::Less {
            proof {
                lemma_byte_order_antisym(key@, self.smallest_key@);
            }
            return false;
        }
        proof {
            lemma_byte_order_antisym(key@, self.smallest_key@);
        }
        compare_bytes(key, self.biggest_key.as_slice()) != Order::Greater
    }

    /// Whether the segment may hold the key: the key lies in the segment's range and the
    /// key filter does not rule it out. A key out of range is never reported.
    pub fn may_contain_key(&self, key: &[u8]) -> (r: bool)
        ensures
            r == (byte_le(self.smallest_key@, key@) && byte_le(key@, self.biggest_key@)
                && key_filter_members(self.key_filter).contains(key@)),
    {
        if !self.key_in_range(key) {
            return false;
        }
        bloom_contains(&self.key_filter, key)
    }
}

/// Where a key stands against a block: before its first key, after its last key, found
/// with its value, or within its range but absent.
#[derive(Debug)]
pub enum BlockOrdering {
    Less,
    Greater,
    Equal(Vec<u8>),
    NotFound,
}

/// The index of the first pair of `values` with the key, if any.
pub open spec fn first_with_key(values: Seq<(Seq<u8>, Seq<u8>)>, key: Seq<u8>) -> Option<int>
    decreases values.len(),
{
    if values.len() == 0 {
        None
    } else if values[0].0 == key {
        Some(0)
    } else {
        match first_with_key(values.drop_first(), key) {
            Some(i) => Some(i + 1),
            None => None,
        }
    }
}

/// How a key compares with the pairs of a block, as `get_value_from_segment_compare_fn`
/// decides it; `None` for an empty block.
pub open spec fn block_outcome(values: Seq<(Seq<u8>, Seq<u8>)>, key: Seq<u8>) -> Option<(Order, Option<Seq<u8>>)> {
    if values.len() == 0 {
        None
    } else if byte_lt(key, values[0].0) {
        Some((Order::Less, None))
    } else if byte_lt(values.last().0, key) {
        Some((Order::Greater, None))
    } else {
        match first_with_key(values, key) {
            Some(i) => Some((Order::Equal, Some(values[i].1))),
            None => Some((Order::Equal, None)),
        }
    }
}

proof fn lemma_first_with_key(values: Seq<(Seq<u8>, Seq<u8>)>, key: Seq<u8>)
    ensures
        match first_with_key(values, key) {
            Some(i) => 0 <= i < values.len() && values[i].0 == key && forall|j: int| 0 <= j < i ==> #[trigger] values[j].0 != key,
            None => forall|j: int| 0 <= j < values.len() ==> #[trigger] values[j].0 != key,
        },
    decreases values.len(),
{
    if values.len() > 0 && values[0].0 != key {
        let rest = values.drop_first();
        lemma_first_with_key(rest, key);
        assert forall|j: int| 0 < j < values.len() implies #[trigger] values[j] == rest[j - 1] by {}
        match first_with_key(rest, key) {
            Some(i) => {
                assert(values[i + 1] == rest[i]);
                assert forall|j: int| 0 <= j < i + 1 implies #[trigger] values[j].0 != key by {
                    if j > 0 {
                        assert(values[j] == rest[j - 1]);
                    }
                }
            },
            None => {
                assert forall|j: int| 0 <= j < values.len() implies #[trigger] values[j].0 != key by {
                    if j > 0 {
                        assert(values[j] == rest[j - 1]);
                    }
                }
            },
        }
    }
}

/// Compares the key with the pairs of a block read from a segment: an error for an empty
/// block, `Less` before its first key, `Greater` after its last key, otherwise the value
/// of the first pair with the key, or `NotFound`.
pub fn compare_block(values: &Vec<KeyValue>, key: &[u8]) -> (r: Result<BlockOrdering, VixError>)
    ensures
        match r {
            Err(e) => block_outcome(kv_view(values@), key@) is None && e.code == Code::FatalError,
            Ok(BlockOrdering::Less) => block_outcome(kv_view(values@), key@) == Some((Order::Less, None::<Seq<u8>>)),
            Ok(BlockOrdering::Greater) => block_outcome(kv_view(values@), key@) == Some((Order::Greater, None::<Seq<u8>>)),
            Ok(BlockOrdering::Equal(v)) => block_outcome(kv_view(values@), key@) == Some((Order::Equal, Some(v@))),
            Ok(BlockOrdering::NotFound) => block_outcome(kv_view(values@), key@) == Some((Order::Equal, None::<Seq<u8>>)),
        },
{
    let ghost vs = kv_view(values@);
    if values.len() == 0 {
        return Err(VixError::new(Code::FatalError, "segment has no value in block"));
    }
    if compare_bytes(key, values[0].0.as_slice()) == Order::Less {
        return Ok(BlockOrdering::Less);
    }
    if compare_bytes(key, values[values.len() - 1].0.as_slice()) == Order::Greater {
        proof {
            lemma_byte_order_antisym(vs.last().0, key@);
        }
        return Ok(BlockOrdering::Greater);
    }
    proof {
        lemma_byte_order_antisym(vs.last().0, key@);
        lemma_first_with_key(vs, key@);
    }
    let mut i: usize = 0;
    while i < values.len()
        invariant
            vs == kv_view(values@),
            values@.len() > 0,
            !byte_lt(key@, vs[0].0),
            !byte_lt(vs.last().0, key@),
            i <= values@.len(),
            forall|j: int| 0 <= j < i ==> #[trigger] vs[j].0 != key@,
        decreases values@.len() - i,
    {
        if bytes_equal(values[i].0.as_slice(), key) {
            proof {
                assert(vs[i as int].0 == key@);
                lemma_first_with_key(vs, key@);
                match first_with_key(vs, key@) {
                    Some(f) => {
                        if f < i {
                            assert(vs[f].0 != key@);
                        }
                        if f > i {
                            assert(vs[i as int].0 != key@);
                        }
                        assert(f == i);
                    },
                    None => {
                        assert(vs[i as int].0 != key@);
                    },
                }
            }
            let mut v: Vec<u8> = Vec::new();
            crate::codec::append_bytes(&mut v, values[i].1.as_slice());
            assert(v@ == vs[i as int].1);
            return Ok(BlockOrdering::Equal(v));
        }
        i = i + 1;
    }
    proof {
        match first_with_key(vs, key@) {
            Some(f) => {
                assert(vs[f].0 != key@);
            },
            None => {},
        }
    }
    Ok(BlockOrdering::NotFound)
}

/// The state of a binary search over the blocks of a segment: the blocks from `low` up to
/// `high` (exclusive) may still hold the key.
pub struct BlockSearch {
    low: usize,
    high: usize,
}

/// What a step of the search comes to.
pub enum SearchProgress {
    /// Probe the block at this index next.
    Probe(usize),
    /// The search is over: the value found, or `None`.
    Done(Option<Vec<u8>>),
}

impl BlockSearch {
    pub closed spec fn lo(&self) -> int {
        self.low as int
    }

    pub closed spec fn hi(&self) -> int {
        self.high as int
    }

    /// The middle of the range still searched.
    pub open spec fn mid(&self) -> int {
        self.lo() + (self.hi() - self.lo()) / 2
    }

    /// A search over `block_count` blocks; the first probe comes with it, or the search is
    /// over at once when there are no blocks.
    pub fn start(block_count: usize) -> (r: (BlockSearch, SearchProgress))
        ensures
            r.0.lo() == 0,
            r.0.hi() == block_count,
            match r.1 {
                SearchProgress::Probe(m) => block_count > 0 && m == r.0.mid(),
                SearchProgress::Done(v) => block_count == 0 && v is None,
            },
    {
        let s = BlockSearch { low: 0, high: block_count };
        let p = s.next();
        (s, p)
    }

    fn next(&self) -> (r: SearchProgress)
        requires
            self.low <= self.high,
        ensures
            match r {
                SearchProgress::Probe(m) => self.lo() < self.hi() && m == self.mid(),
                SearchProgress::Done(v) => self.lo() >= self.hi() && v is None,
            },
    {
        if self.low < self.high {
            SearchProgress::Probe(self.low + (self.high - self.low) / 2)
        } else {
            SearchProgress::Done(None)
        }
    }

    /// Takes the outcome of comparing the key with the block probed last: `Less` keeps
    /// the blocks before it, `Greater` the blocks after it; `Equal` ends the search with the
    /// value and `NotFound` ends it without one.
    pub fn step(&mut self, outcome: BlockOrdering) -> (r: SearchProgress)
        requires
            old(self).lo() < old(self).hi(),
        ensures
            final(self).lo() <= final(self).hi(),
            match outcome {
                BlockOrdering::Less => final(self).lo() == old(self).lo() && final(self).hi() == old(self).mid(),
                BlockOrdering::Greater => final(self).lo() == old(self).mid() + 1 && final(self).hi()
                    == old(self).hi(),
                _ => true,
            },
            match outcome {
                BlockOrdering::Equal(v) => r == SearchProgress::Done(Some(v)),
                BlockOrdering::NotFound => r == SearchProgress::Done(None),
                _ => match r {
                    SearchProgress::Probe(m) => final(self).lo() < final(self).hi() && m == final(self).mid(),
                    SearchProgress::Done(v) => final(self).lo() >= final(self).hi() && v is None,
                },
            },
    {
        let mid = self.low + (self.high - self.low) / 2;
        match outcome {
            BlockOrdering::Less => {
                self.high = mid;
                self.next()
            },
            BlockOrdering::Greater => {
                self.low = mid + 1;
                self.next()
            },
            BlockOrdering::Equal(v) => SearchProgress::Done(Some(v)),
            BlockOrdering::NotFound => SearchProgress::Done(None),
        }
    }
}

/// The blocks of a segment hold their keys in ascending order, each block is non-empty,
/// and every key of a block is below every key of the blocks after it.
pub open spec fn blocks_ordered(blocks: Seq<Seq<(Seq<u8>, Seq<u8>)>>) -> bool {
    &&& forall|i: int| 0 <= i < blocks.len() ==> #[trigger] blocks[i].len() > 0 && keys_ascending(blocks[i])
    &&& forall|i: int, j: int|
        0 <= i < j < blocks.len() ==> byte_lt(#[trigger] blocks[i].last().0, #[trigger] blocks[j][0].0)
}

/// The key is in block `i`.
pub open spec fn key_in_block(blocks: Seq<Seq<(Seq<u8>, Seq<u8>)>>, i: int, key: Seq<u8>) -> bool {
    exists|j: int| 0 <= j < blocks[i].len() && #[trigger] blocks[i][j].0 == key
}

proof fn lemma_block_bounds(block: Seq<(Seq<u8>, Seq<u8>)>, j: int)
    requires
        block.len() > 0,
        keys_ascending(block),
        0 <= j < block.len(),
    ensures
        byte_le(block[0].0, block[j].0),
        byte_le(block[j].0, block.last().0),
{
    lemma_byte_order_equal(block[0].0, block[0].0);
    lemma_byte_order_equal(block[j].0, block[j].0);
}

/// A probe of block `mid` never sends the search away from the block `i` that holds the
/// key: `Less` means `i` is before `mid`, `Greater` that it is after, and at `i` itself the
/// outcome is the key's value. When no block holds the key, no probe finds a value.
pub proof fn lemma_probe_toward_key(blocks: Seq<Seq<(Seq<u8>, Seq<u8>)>>, key: Seq<u8>, mid: int)
    requires
        blocks_ordered(blocks),
        0 <= mid < blocks.len(),
    ensures
        forall|i: int|
            0 <= i < blocks.len() && #[trigger] key_in_block(blocks, i, key) ==> {
                &&& block_outcome(blocks[mid], key) matches Some((Order::Less, _)) ==> i < mid
                &&& block_outcome(blocks[mid], key) matches Some((Order::Greater, _)) ==> i > mid
                &&& i == mid ==> block_outcome(blocks[mid], key) matches Some((Order::Equal, Some(_)))
            },
        (forall|i: int| 0 <= i < blocks.len() ==> !#[trigger] key_in_block(blocks, i, key))
            ==> !(block_outcome(blocks[mid], key) matches Some((Order::Equal, Some(_)))),
{
    let b = blocks[mid];
    assert(b.len() > 0 && keys_ascending(b));
    assert forall|i: int|
        0 <= i < blocks.len() && #[trigger] key_in_block(blocks, i, key) implies {
            &&& block_outcome(blocks[mid], key) matches Some((Order::Less, _)) ==> i < mid
            &&& block_outcome(blocks[mid], key) matches Some((Order::Greater, _)) ==> i > mid
            &&& i == mid ==> block_outcome(blocks[mid], key) matches Some((Order::Equal, Some(_)))
        } by {
        let j = choose|j: int| 0 <= j < blocks[i].len() && #[trigger] blocks[i][j].0 == key;
        assert(blocks[i].len() > 0 && keys_ascending(blocks[i]));
        lemma_block_bounds(blocks[i], j);
        lemma_block_bounds(b, 0);
        if byte_lt(key, b[0].0) {
            if i >= mid {
                if i > mid {
                    assert(byte_lt(b.last().0, blocks[i][0].0));
                    lemma_byte_order_trans(b[0].0, b.last().0, blocks[i][0].0);
                    lemma_byte_order_trans(b[0].0, blocks[i][0].0, key);
                } else {
                    lemma_byte_order_trans(b[0].0, key, b[0].0);
                }
                lemma_byte_order_antisym(key, b[0].0);
            }
        } else if byte_lt(b.last().0, key) {
            if i <= mid {
                if i < mid {
                    assert(byte_lt(blocks[i].last().0, b[0].0));
                    lemma_byte_order_trans(key, blocks[i].last().0, b[0].0);
                    lemma_byte_order_trans(key, b[0].0, b.last().0);
                } else {
                    lemma_byte_order_trans(b.last().0, key, b.last().0);
                }
                lemma_byte_order_antisym(b.last().0, key);
            }
        } else if i == mid {
            lemma_first_with_key(b, key);
        }
    }
    if forall|i: int| 0 <= i < blocks.len() ==> !#[trigger] key_in_block(blocks, i, key) {
        lemma_first_with_key(b, key);
        if let Some(f) = first_with_key(b, key) {
            assert(key_in_block(blocks, mid, key));
        }
    }
}

/// What the binary search over blocks `lo` up to `hi` comes to, probing the middle block
/// and following its outcome as `BlockSearch::step` does: the value found or none, or
/// `None` where a probed block is empty.
pub open spec fn search_outcome(
    blocks: Seq<Seq<(Seq<u8>, Seq<u8>)>>,
    key: Seq<u8>,
    lo: int,
    hi: int,
) -> Option<Option<Seq<u8>>>
    decreases hi - lo,
{
    if lo >= hi {
        Some(None)
    } else {
        let mid = lo + (hi - lo) / 2;
        match block_outcome(blocks[mid], key) {
            None => None,
            Some((Order::Less, _)) => search_outcome(blocks, key, lo, mid),
            Some((Order::Greater, _)) => search_outcome(blocks, key, mid + 1, hi),
            Some((Order::Equal, v)) => Some(v),
        }
    }
}

/// The value of the key in a block that holds it: that of its first pair with the key.
pub open spec fn value_in_block(block: Seq<(Seq<u8>, Seq<u8>)>, key: Seq<u8>) -> Seq<u8> {
    block[first_with_key(block, key)->0].1
}

proof fn lemma_equal_only_at_mid(blocks: Seq<Seq<(Seq<u8>, Seq<u8>)>>, key: Seq<u8>, mid: int, i: int)
    requires
        blocks_ordered(blocks),
        0 <= mid < blocks.len(),
        0 <= i < blocks.len(),
        key_in_block(blocks, i, key),
        block_outcome(blocks[mid], key) matches Some((Order::Equal, _)),
    ensures
        i == mid,
{
    let j = choose|j: int| 0 <= j < blocks[i].len() && #[trigger] blocks[i][j].0 == key;
    assert(blocks[i].len() > 0 && keys_ascending(blocks[i]));
    assert(blocks[mid].len() > 0);
    lemma_block_bounds(blocks[i], j);
    if i < mid {
        assert(byte_lt(blocks[i].last().0, blocks[mid][0].0));
        lemma_byte_order_trans(key, blocks[i].last().0, blocks[mid][0].0);
    } else if i > mid {
        assert(byte_lt(blocks[mid].last().0, blocks[i][0].0));
        lemma_byte_order_trans(blocks[mid].last().0, blocks[i][0].0, key);
    }
}

proof fn lemma_search_range(blocks: Seq<Seq<(Seq<u8>, Seq<u8>)>>, key: Seq<u8>, lo: int, hi: int)
    requires
        blocks_ordered(blocks),
        0 <= lo <= hi <= blocks.len(),
        forall|i: int| 0 <= i < blocks.len() && #[trigger] key_in_block(blocks, i, key) ==> lo <= i < hi,
    ensures
        forall|i: int|
            0 <= i < blocks.len() && #[trigger] key_in_block(blocks, i, key) ==> search_outcome(blocks, key, lo, hi)
                == Some(Some(value_in_block(blocks[i], key))),
        (forall|i: int| 0 <= i < blocks.len() ==> !#[trigger] key_in_block(blocks, i, key)) ==> search_outcome(
            blocks,
            key,
            lo,
            hi,
        ) == Some(None::<Seq<u8>>),
    decreases hi - lo,
{
    if lo < hi {
        let mid = lo + (hi - lo) / 2;
        lemma_probe_toward_key(blocks, key, mid);
        assert(blocks[mid].len() > 0);
        let o = block_outcome(blocks[mid], key);
        if o matches Some((Order::Less, _)) {
            lemma_search_range(blocks, key, lo, mid);
        } else if o matches Some((Order::Greater, _)) {
            lemma_search_range(blocks, key, mid + 1, hi);
        } else {
            assert forall|i: int|
                0 <= i < blocks.len() && #[trigger] key_in_block(blocks, i, key) implies search_outcome(blocks, key, lo, hi)
                    == Some(Some(value_in_block(blocks[i], key))) by {
                lemma_equal_only_at_mid(blocks, key, mid, i);
                lemma_first_with_key(blocks[mid], key);
            }
        }
    }
}

/// Over blocks in key order, the binary search finds a key exactly when a block holds it,
/// and then gives the key's value in that block; otherwise it ends with no value.
pub proof fn lemma_search_finds_key(blocks: Seq<Seq<(Seq<u8>, Seq<u8>)>>, key: Seq<u8>)
    requires
        blocks_ordered(blocks),
    ensures
        forall|i: int|
            0 <= i < blocks.len() && #[trigger] key_in_block(blocks, i, key) ==> search_outcome(blocks, key, 0, blocks.len() as int)
                == Some(Some(value_in_block(blocks[i], key))),
        (forall|i: int| 0 <= i < blocks.len() ==> !#[trigger] key_in_block(blocks, i, key)) ==> search_outcome(
            blocks,
            key,
            0,
            blocks.len() as int,
        ) == Some(None::<Seq<u8>>),
{
    lemma_search_range(blocks, key, 0, blocks.len() as int);
}

} // verus!
