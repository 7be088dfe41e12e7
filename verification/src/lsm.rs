//! The in-memory state of a collection in the LSM engine: the write buffer, the buffer
//! being flushed, and the list of segments ordered by level.
use crate::collections::{
    byte_map_contents, byte_map_entries, byte_map_get, byte_map_insert, byte_map_is_empty,
    byte_map_new, segment_list_contents, segment_list_get, segment_list_len, segment_list_new,
    segment_list_push_back, CollectionSegmentState, SegmentList,
};
use crate::segment::{kv_view, KeyValue};
use crate::sorting::{drawn_from, holds_all, keys_ascending, keys_distinct, sort_by_key};
use vstd::prelude::*;

verus! {

/// `kvs` lists the pairs of `m`: each pair of `kvs` is in `m`, each key of `m` occurs in
/// `kvs`, and no key occurs twice.
pub open spec fn lists_map(kvs: Seq<(Seq<u8>, Seq<u8>)>, m: Map<Seq<u8>, Seq<u8>>) -> bool {
    &&& forall|i: int| 0 <= i < kvs.len() ==> m.contains_key(#[trigger] kvs[i].0) && m[kvs[i].0] == kvs[i].1
    &&& forall|k: Seq<u8>| m.contains_key(k) ==> exists|i: int| 0 <= i < kvs.len() && #[trigger] kvs[i].0 == k
    &&& keys_distinct(kvs)
}

/// The key/value pairs written to a collection and not yet flushed, with the
/// approximate number of bytes they take.
pub struct CollectionBuffer {
    byte_size: usize,
    map: dashmap::DashMap<Vec<u8>, Vec<u8>>,
}

/// The approximate size after storing a value of `value_len` bytes under a key of
/// `key_len` bytes that held a value of `old_len` bytes (if any), in the wrapping
/// arithmetic of the atomic counter the size is kept in.
pub open spec fn size_after_insert(size: usize, key_len: usize, value_len: usize, old_len: Option<usize>) -> usize {
    let cur = key_len.wrapping_add(value_len);
    match old_len {
        Some(ol) => size.wrapping_add(cur).wrapping_sub(key_len.wrapping_add(ol)),
        None => size.wrapping_add(cur),
    }
}

/// The number of values a `usize` holds.
pub open spec fn usize_range() -> int {
    usize::MAX as int + 1
}

/// The total length of the keys and values of a map with finitely many keys.
pub open spec fn pairs_size(m: Map<Seq<u8>, Seq<u8>>) -> int
    decreases m.dom().len(),
    when m.dom().finite()
{
    if m.dom().len() == 0 {
        0
    } else {
        let k = m.dom().choose();
        proof {
            vstd::set::axiom_set_choose_len(m.dom());
            vstd::set::axiom_set_remove_len(m.dom(), k);
            assert(m.remove(k).dom() =~= m.dom().remove(k));
        }
        k.len() + m[k].len() + pairs_size(m.remove(k))
    }
}

/// Any pair can be taken out first: the total is its key's and value's length plus the
/// total of the rest.
pub proof fn lemma_pairs_size_remove(m: Map<Seq<u8>, Seq<u8>>, k: Seq<u8>)
    requires
        m.dom().finite(),
        m.contains_key(k),
    ensures
        pairs_size(m) == k.len() + m[k].len() + pairs_size(m.remove(k)),
    decreases m.dom().len(),
{
    vstd::set::axiom_set_remove_len(m.dom(), k);
    assert(m.dom().len() != 0);
    let c = m.dom().choose();
    vstd::set::axiom_set_choose_len(m.dom());
    assert(m.remove(k).dom() =~= m.dom().remove(k));
    assert(m.remove(c).dom() =~= m.dom().remove(c));
    if c != k {
        vstd::set::axiom_set_remove_len(m.dom(), c);
        lemma_pairs_size_remove(m.remove(c), k);
        lemma_pairs_size_remove(m.remove(k), c);
        assert(m.remove(c).remove(k) =~= m.remove(k).remove(c));
        assert(m.remove(c)[k] == m[k]);
        assert(m.remove(k)[c] == m[c]);
    }
}

proof fn lemma_wrap_add(x: usize, y: usize)
    ensures
        x.wrapping_add(y) as int == (x + y) % usize_range(),
{
    let r = usize_range();
    if x + y < r {
        vstd::arithmetic::div_mod::lemma_small_mod((x + y) as nat, r as nat);
    } else {
        vstd::arithmetic::div_mod::lemma_mod_add_multiples_vanish(x + y - r, r);
        vstd::arithmetic::div_mod::lemma_small_mod((x + y - r) as nat, r as nat);
    }
}

proof fn lemma_wrap_sub(x: usize, y: usize)
    ensures
        x.wrapping_sub(y) as int == (x - y) % usize_range(),
{
    let r = usize_range();
    if x - y < 0 {
        vstd::arithmetic::div_mod::lemma_mod_add_multiples_vanish(x - y, r);
        vstd::arithmetic::div_mod::lemma_small_mod((x - y + r) as nat, r as nat);
    } else {
        vstd::arithmetic::div_mod::lemma_small_mod((x - y) as nat, r as nat);
    }
}

/// The approximate size of a buffer is the total length of its keys and values, in the
/// wrapping arithmetic of its counter: storing a pair keeps it so.
pub proof fn lemma_size_after_insert(
    m: Map<Seq<u8>, Seq<u8>>,
    size: usize,
    key: Seq<u8>,
    value: Seq<u8>,
)
    requires
        m.dom().finite(),
        size as int == pairs_size(m) % usize_range(),
        key.len() <= usize::MAX,
        value.len() <= usize::MAX,
        m.contains_key(key) ==> m[key].len() <= usize::MAX,
    ensures
        m.insert(key, value).dom().finite(),
        size_after_insert(
            size,
            key.len() as usize,
            value.len() as usize,
            if m.contains_key(key) {
                Some(m[key].len() as usize)
            } else {
                None
            },
        ) as int == pairs_size(m.insert(key, value)) % usize_range(),
{
    let n = m.insert(key, value);
    let r = usize_range();
    let kl = key.len() as usize;
    let vl = value.len() as usize;
    let p = pairs_size(m);
    lemma_pairs_size_remove(n, key);
    lemma_wrap_add(kl, vl);
    let cur = kl.wrapping_add(vl);
    lemma_wrap_add(size, cur);
    vstd::arithmetic::div_mod::lemma_add_mod_noop(p, (kl + vl) as int, r);
    vstd::arithmetic::div_mod::lemma_mod_mod(p, r, 1);
    vstd::arithmetic::div_mod::lemma_mod_mod((kl + vl) as int, r, 1);
    assert(size.wrapping_add(cur) as int == (p + kl + vl) % r);
    if m.contains_key(key) {
        lemma_pairs_size_remove(m, key);
        assert(n.remove(key) =~= m.remove(key));
        let ol = m[key].len() as usize;
        lemma_wrap_add(kl, ol);
        let old = kl.wrapping_add(ol);
        lemma_wrap_sub(size.wrapping_add(cur), old);
        vstd::arithmetic::div_mod::lemma_sub_mod_noop(p + kl + vl, (kl + ol) as int, r);
        vstd::arithmetic::div_mod::lemma_mod_mod(p + kl + vl, r, 1);
        vstd::arithmetic::div_mod::lemma_mod_mod((kl + ol) as int, r, 1);
        assert(pairs_size(n) == p + kl + vl - (kl + ol));
    } else {
        assert(n.remove(key) =~= m);
    }
}

/// A buffer's approximate size is the total length of its keys and values, in the
/// wrapping arithmetic of its counter.
pub open spec fn size_matches(contents: Map<Seq<u8>, Seq<u8>>, size: usize) -> bool {
    &&& contents.dom().finite()
    &&& forall|k: Seq<u8>| #[trigger] contents.contains_key(k) ==> contents[k].len() <= usize::MAX
    &&& size as int == pairs_size(contents) % usize_range()
}

impl CollectionBuffer {
    /// The pairs the buffer holds.
    pub closed spec fn contents(&self) -> Map<Seq<u8>, Seq<u8>> {
        byte_map_contents(self.map)
    }

    /// The approximate number of bytes of the pairs.
    pub closed spec fn size(&self) -> usize {
        self.byte_size
    }

    /// An empty buffer.
    pub fn new() -> (r: CollectionBuffer)
        ensures
            r.contents().dom() == Set::<Seq<u8>>::empty(),
            r.size() == 0,
            size_matches(r.contents(), r.size()),
    {
        let r = CollectionBuffer { byte_size: 0, map: byte_map_new() };
        assert(r.contents().dom() =~= Set::<Seq<u8>>::empty());
        assert(r.contents().dom().len() == 0);
        assert(pairs_size(r.contents()) == 0);
        r
    }

    /// The buffer's pairs, sorted by key.
    pub fn sorted_key_values(&self) -> (r: Vec<KeyValue>)
        ensures
            keys_ascending(kv_view(r@)),
            lists_map(kv_view(r@), self.contents()),
    {
        let entries = byte_map_entries(&self.map);
        let sorted = sort_by_key(entries);
        proof {
            lemma_sorted_lists(kv_view(entries@), kv_view(sorted@), self.contents());
        }
        sorted
    }

    /// The value stored under the key, if any.
    pub fn get(&self, key: &[u8]) -> (r: Option<Vec<u8>>)
        ensures
            match r {
                Some(v) => self.contents().contains_key(key@) && self.contents()[key@] == v@,
                None => !self.contents().contains_key(key@),
            },
    {
        byte_map_get(&self.map, key)
    }

    /// Stores the value under the key and adjusts the approximate size: the key and value
    /// lengths are added, and the key and old value lengths taken off where a value is
    /// replaced.
    pub fn insert(&mut self, key: Vec<u8>, value: Vec<u8>)
        ensures
            final(self).contents() == old(self).contents().insert(key@, value@),
            final(self).size() == size_after_insert(
                old(self).size(),
                key@.len() as usize,
                value@.len() as usize,
                if old(self).contents().contains_key(key@) {
                    Some(old(self).contents()[key@].len() as usize)
                } else {
                    None
                },
            ),
            size_matches(old(self).contents(), old(self).size()) ==> size_matches(final(self).contents(), final(self).size()),
    {
        let key_size = key.len();
        let cur_approx_size = key_size.wrapping_add(value.len());
        proof {
            if size_matches(self.contents(), self.size()) {
                lemma_size_after_insert(self.contents(), self.size(), key@, value@);
            }
        }
        let old_approx_size = match byte_map_insert(&mut self.map, key, value) {
            Some(old_value) => key_size.wrapping_add(old_value.len()),
            None => 0,
        };
        if cur_approx_size > old_approx_size {
            self.byte_size = self.byte_size.wrapping_add(cur_approx_size - old_approx_size);
        } else {
            self.byte_size = self.byte_size.wrapping_sub(old_approx_size - cur_approx_size);
        }
        proof {
            lemma_wrapping_difference(old(self).size(), cur_approx_size, old_approx_size);
        }
    }

    /// The approximate number of bytes of the pairs.
    pub fn byte_size(&self) -> (r: usize)
        ensures
            r == self.size(),
    {
        self.byte_size
    }

    /// Whether the buffer holds no pair.
    pub fn is_empty(&self) -> (r: bool)
        ensures
            r == (self.contents().dom() == Set::<Seq<u8>>::empty()),
    {
        byte_map_is_empty(&self.map)
    }
}

proof fn lemma_wrapping_difference(s: usize, c: usize, o: usize)
    ensures
        c > o ==> s.wrapping_add((c - o) as usize) == (if o == 0 {
            s.wrapping_add(c)
        } else {
            s.wrapping_add(c).wrapping_sub(o)
        }),
        c <= o ==> s.wrapping_sub((o - c) as usize) == (if o == 0 {
            s.wrapping_add(c)
        } else {
            s.wrapping_add(c).wrapping_sub(o)
        }),
{
    assert(c > o ==> s.wrapping_add((c - o) as usize) == s.wrapping_add(c).wrapping_sub(o));
    assert(c <= o ==> s.wrapping_sub((o - c) as usize) == s.wrapping_add(c).wrapping_sub(o));
    assert(s.wrapping_add(c).wrapping_sub(0) == s.wrapping_add(c));
}

proof fn lemma_sorted_pairs_in_map(entries: Seq<(Seq<u8>, Seq<u8>)>, sorted: Seq<(Seq<u8>, Seq<u8>)>, m: Map<Seq<u8>, Seq<u8>>)
    requires
        forall|i: int| 0 <= i < entries.len() ==> m.contains_key(#[trigger] entries[i].0) && m[entries[i].0] == entries[i].1,
        drawn_from(sorted, entries, 0),
    ensures
        forall|i: int| 0 <= i < sorted.len() ==> m.contains_key(#[trigger] sorted[i].0) && m[sorted[i].0] == sorted[i].1,
{
    reveal(drawn_from);
    assert forall|i: int| 0 <= i < sorted.len() implies m.contains_key(#[trigger] sorted[i].0) && m[sorted[i].0] == sorted[i].1 by {
        let j = choose|j: int| 0 <= j < entries.len() && #[trigger] sorted[i] == #[trigger] entries[j];
        assert(entries[j].0 == sorted[i].0);
    }
}

proof fn lemma_sorted_keys_cover(entries: Seq<(Seq<u8>, Seq<u8>)>, sorted: Seq<(Seq<u8>, Seq<u8>)>, m: Map<Seq<u8>, Seq<u8>>)
    requires
        forall|k: Seq<u8>| m.contains_key(k) ==> exists|i: int| 0 <= i < entries.len() && #[trigger] entries[i].0 == k,
        holds_all(sorted, entries, 0),
    ensures
        forall|k: Seq<u8>| m.contains_key(k) ==> exists|i: int| 0 <= i < sorted.len() && #[trigger] sorted[i].0 == k,
{
    assert forall|k: Seq<u8>| m.contains_key(k) implies exists|i: int| 0 <= i < sorted.len() && #[trigger] sorted[i].0 == k by {
        let j = choose|j: int| 0 <= j < entries.len() && #[trigger] entries[j].0 == k;
        reveal(holds_all);
        let i = choose|i: int| 0 <= i < sorted.len() && #[trigger] sorted[i] == #[trigger] entries[j];
        assert(sorted[i].0 == k);
    }
}

proof fn lemma_sorted_lists(entries: Seq<(Seq<u8>, Seq<u8>)>, sorted: Seq<(Seq<u8>, Seq<u8>)>, m: Map<Seq<u8>, Seq<u8>>)
    requires
        forall|i: int| 0 <= i < entries.len() ==> m.contains_key(#[trigger] entries[i].0) && m[entries[i].0] == entries[i].1,
        forall|k: Seq<u8>| m.contains_key(k) ==> exists|i: int| 0 <= i < entries.len() && #[trigger] entries[i].0 == k,
        keys_ascending(sorted),
        drawn_from(sorted, entries, 0),
        holds_all(sorted, entries, 0),
    ensures
        lists_map(sorted, m),
{
    lemma_sorted_pairs_in_map(entries, sorted, m);
    lemma_sorted_keys_cover(entries, sorted, m);
    assert forall|i: int, j: int| 0 <= i < j < sorted.len() implies #[trigger] sorted[i].0 != #[trigger] sorted[j].0 by {
        crate::codec::lemma_byte_order_equal(sorted[i].0, sorted[j].0);
    }
}


/// A segment as the latest commit of a collection lists it.
#[derive(Debug)]
pub struct GetAllSegmentByCollectionIDPortResultSegment {
    pub id: String,
    pub level: u32,
}

/// The segments of a collection, as its latest commit lists them.
#[derive(Debug)]
pub struct GetAllSegmentByCollectionIDPortResult {
    pub segments: Vec<GetAllSegmentByCollectionIDPortResultSegment>,
}

/// The write buffer alone, or the write buffer and the buffer being flushed.
enum BufferState {
    Idle { buffer: CollectionBuffer },
    Committing { buffer: CollectionBuffer, commit_buffer: CollectionBuffer },
}

/// A collection in the engine: its id, its buffers and its segments in ascending order
/// of (level, creation).
pub struct CollectionState {
    pub(crate) id: String,
    buffer: BufferState,
    segments: SegmentList,
}

/// Where a segment of `level` goes in `s`: before the first segment of a higher level.
pub open spec fn insert_index(s: Seq<(Seq<char>, u32)>, level: u32) -> int
    decreases s.len(),
{
    if s.len() == 0 {
        0
    } else if s[0].1 > level {
        0
    } else {
        1 + insert_index(s.drop_first(), level)
    }
}

/// The levels do not decrease along the list.
pub open spec fn levels_ascending(s: Seq<(Seq<char>, u32)>) -> bool {
    forall|i: int, j: int| 0 <= i <= j < s.len() ==> #[trigger] s[i].1 <= #[trigger] s[j].1
}

/// The segments a commit lists, as (id, level), in the commit's order.
pub open spec fn port_segments_view(segs: Seq<GetAllSegmentByCollectionIDPortResultSegment>) -> Seq<(Seq<char>, u32)> {
    segs.map_values(|s: GetAllSegmentByCollectionIDPortResultSegment| (s.id@, s.level))
}

/// `s` with `x` placed before the first entry of a higher level.
pub open spec fn insert_by_level(s: Seq<(Seq<char>, u32)>, x: (Seq<char>, u32)) -> Seq<(Seq<char>, u32)> {
    s.take(insert_index(s, x.1)).push(x) + s.skip(insert_index(s, x.1))
}

/// The entries placed one after the other by level: ascending by level, and within a
/// level in their order in `segs`.
pub open spec fn ordered_by_level(segs: Seq<(Seq<char>, u32)>) -> Seq<(Seq<char>, u32)>
    decreases segs.len(),
{
    if segs.len() == 0 {
        Seq::empty()
    } else {
        insert_by_level(ordered_by_level(segs.drop_last()), segs.last())
    }
}

/// What lookups of the collection's buffers find, as one map.
pub open spec fn buffer_store(c: CollectionState) -> Map<Seq<u8>, Seq<u8>> {
    Map::new(|k: Seq<u8>| c.lookup(k) is Some, |k: Seq<u8>| c.lookup(k)->0)
}

/// The collection's buffers were flushed: the write buffer is empty and no flush is under
/// way.
pub open spec fn flushed_empty(c: CollectionState) -> bool {
    c.active().dom() == Set::<Seq<u8>>::empty() && c.flushing() is None
}

/// The value under `key` in `m`, if any.
pub open spec fn map_get(m: Map<Seq<u8>, Seq<u8>>, key: Seq<u8>) -> Option<Seq<u8>> {
    if m.contains_key(key) {
        Some(m[key])
    } else {
        None
    }
}

impl CollectionState {
    /// The segments stay ordered by level.
    #[verifier::type_invariant]
    spec fn inv(&self) -> bool {
        levels_ascending(segment_list_contents(self.segments))
    }

    /// The collection's id.
    pub closed spec fn collection_id(&self) -> Seq<char> {
        self.id@
    }

    /// The pairs in the write buffer.
    pub closed spec fn active(&self) -> Map<Seq<u8>, Seq<u8>> {
        match self.buffer {
            BufferState::Idle { buffer } => buffer.contents(),
            BufferState::Committing { buffer, .. } => buffer.contents(),
        }
    }

    /// The approximate size of the write buffer.
    pub closed spec fn active_size(&self) -> usize {
        match self.buffer {
            BufferState::Idle { buffer } => buffer.size(),
            BufferState::Committing { buffer, .. } => buffer.size(),
        }
    }

    /// The pairs being flushed, if a flush is under way.
    pub closed spec fn flushing(&self) -> Option<Map<Seq<u8>, Seq<u8>>> {
        match self.buffer {
            BufferState::Idle { .. } => None,
            BufferState::Committing { commit_buffer, .. } => Some(commit_buffer.contents()),
        }
    }

    /// The segments, as (id, level), in order.
    pub closed spec fn segment_entries(&self) -> Seq<(Seq<char>, u32)> {
        segment_list_contents(self.segments)
    }

    /// The buffered value of a key: the write buffer's, else the flushing buffer's.
    pub open spec fn lookup(&self, key: Seq<u8>) -> Option<Seq<u8>> {
        if self.active().contains_key(key) {
            Some(self.active()[key])
        } else {
            match self.flushing() {
                Some(m) => map_get(m, key),
                None => None,
            }
        }
    }

    /// The collection's id.
    pub fn id_str(&self) -> (r: &str)
        ensures
            r@ == self.collection_id(),
    {
        self.id.as_str()
    }

    /// A collection with empty buffers and the segments of its latest commit, ordered by
    /// level; segments of one level keep the commit's order.
    pub fn from_get_all_segment_by_collection_id_port_result(
        id: &str,
        result: GetAllSegmentByCollectionIDPortResult,
    ) -> (r: CollectionState)
        ensures
            r.collection_id() == id@,
            r.active().dom() == Set::<Seq<u8>>::empty(),
            r.active_size() == 0,
            r.flushing() is None,
            r.segment_entries() == ordered_by_level(port_segments_view(result.segments@)),
            r.segment_entries().len() == result.segments@.len(),
            levels_ascending(r.segment_entries()),
    {
        let mut state = CollectionState {
            id: id.to_owned(),
            buffer: BufferState::Idle { buffer: CollectionBuffer::new() },
            segments: segment_list_new(),
        };
        let ghost listed = port_segments_view(result.segments@);
        let mut i: usize = 0;
        assert(listed.take(0) =~= Seq::<(Seq<char>, u32)>::empty());
        assert(state.segment_entries() =~= Seq::<(Seq<char>, u32)>::empty());
        while i < result.segments.len()
            invariant
                i <= result.segments@.len(),
                listed == port_segments_view(result.segments@),
                listed.len() == result.segments@.len(),
                state.collection_id() == id@,
                state.active().dom() == Set::<Seq<u8>>::empty(),
                state.active_size() == 0,
                state.flushing() is None,
                state.segment_entries() == ordered_by_level(listed.take(i as int)),
                state.segment_entries().len() == i,
                levels_ascending(state.segment_entries()),
            decreases result.segments@.len() - i,
        {
            let s = &result.segments[i];
            let ghost before = state.segment_entries();
            proof {
                assert(listed.take(i + 1).drop_last() =~= listed.take(i as int));
                assert(listed.take(i + 1).last() == (s.id@, s.level));
                lemma_insert_segment_keeps_order(before, s.id@, s.level);
            }
            state.insert_segment(s.id.as_str(), s.level);
            i = i + 1;
        }
        assert(listed.take(listed.len() as int) =~= listed);
        state
    }

    /// Adds a segment before the first segment of a higher level, so that segments stay
    /// ordered by level and, within a level, by creation.
    pub fn insert_segment(&mut self, id: &str, level: u32)
        ensures
            final(self).collection_id() == old(self).collection_id(),
            final(self).active() == old(self).active(),
            final(self).active_size() == old(self).active_size(),
            final(self).flushing() == old(self).flushing(),
            final(self).segment_entries() == old(self).segment_entries().take(
                insert_index(old(self).segment_entries(), level),
            ).push((id@, level)) + old(self).segment_entries().skip(
                insert_index(old(self).segment_entries(), level),
            ),
            levels_ascending(old(self).segment_entries()) ==> levels_ascending(final(self).segment_entries()),
    {
        proof {
            use_type_invariant(&*self);
            lemma_insert_segment_keeps_order(segment_list_contents(self.segments), id@, level);
        }
        let ghost s = segment_list_contents(self.segments);
        let n = segment_list_len(&self.segments);
        let mut pos: usize = 0;
        let mut found = false;
        while pos < n && !found
            invariant
                n == s.len(),
                s == segment_list_contents(self.segments),
                pos <= n,
                found ==> pos < n && s[pos as int].1 > level,
                forall|j: int| 0 <= j < pos ==> #[trigger] s[j].1 <= level,
                !found ==> forall|j: int| 0 <= j < pos ==> #[trigger] s[j].1 <= level,
            decreases 2 * (n - pos) + (if found { 0int } else { 1int }),
        {
            match segment_list_get(&self.segments, pos) {
                Some(seg) => {
                    if seg.level > level {
                        found = true;
                    } else {
                        pos = pos + 1;
                    }
                },
                None => {
                    pos = n;
                },
            }
        }
        proof {
            lemma_insert_index(s, level, pos as int);
        }
        let mut list = segment_list_new();
        let mut i: usize = 0;
        while i < n
            invariant
                n == s.len(),
                s == segment_list_contents(self.segments),
                pos <= n,
                i <= n,
                segment_list_contents(list) == (if i <= pos {
                    s.take(i as int)
                } else {
                    s.take(pos as int).push((id@, level)) + s.subrange(pos as int, i as int)
                }),
            decreases n - i,
        {
            if i == pos {
                list = segment_list_push_back(&list, CollectionSegmentState { id: id.to_owned(), level });
                assert(s.take(pos as int).push((id@, level)) + s.subrange(pos as int, i as int) =~= s.take(pos as int).push((id@, level)));
            }
            match segment_list_get(&self.segments, i) {
                Some(seg) => {
                    let ghost before = segment_list_contents(list);
                    list = segment_list_push_back(&list, CollectionSegmentState { id: seg.id.clone(), level: seg.level });
                    proof {
                        if i < pos {
                            assert(s.take(i + 1) =~= s.take(i as int).push(s[i as int]));
                        } else {
                            assert(s.take(pos as int).push((id@, level)) + s.subrange(pos as int, i + 1) =~= before.push(s[i as int]));
                        }
                    }
                },
                None => {},
            }
            i = i + 1;
        }
        if pos == n {
            list = segment_list_push_back(&list, CollectionSegmentState { id: id.to_owned(), level });
        }
        proof {
            assert(s.skip(pos as int) =~= s.subrange(pos as int, n as int));
            assert(s.take(n as int) =~= s);
            if pos == n {
                assert(s.skip(pos as int) =~= Seq::<(Seq<char>, u32)>::empty());
            }
        }
        assert(segment_list_contents(list) =~= s.take(pos as int).push((id@, level)) + s.skip(pos as int));
        self.segments = list;
    }

    /// The buffered value of a key: the write buffer's if it has the key, else the
    /// flushing buffer's.
    pub fn value_from_buffer(&self, key: &[u8]) -> (r: Option<Vec<u8>>)
        ensures
            match r {
                Some(v) => self.lookup(key@) == Some(v@),
                None => self.lookup(key@) is None,
            },
    {
        match &self.buffer {
            BufferState::Idle { buffer } => buffer.get(key),
            BufferState::Committing { buffer, commit_buffer } => {
                match buffer.get(key) {
                    Some(value) => Some(value),
                    None => commit_buffer.get(key),
                }
            },
        }
    }

    /// Stores the pair in the write buffer.
    pub fn insert_buffer_value(&mut self, key: &[u8], value: &[u8])
        ensures
            final(self).collection_id() == old(self).collection_id(),
            final(self).active() == old(self).active().insert(key@, value@),
            final(self).flushing() == old(self).flushing(),
            final(self).segment_entries() == old(self).segment_entries(),
    {
        let k = crate::codec::copy_range(key, 0, key.len());
        let v = crate::codec::copy_range(value, 0, value.len());
        assert(key@.subrange(0, key@.len() as int) =~= key@);
        assert(value@.subrange(0, value@.len() as int) =~= value@);
        proof {
            use_type_invariant(&*self);
        }
        let mut state = BufferState::Idle { buffer: CollectionBuffer::new() };
        std::mem::swap(&mut state, &mut self.buffer);
        match state {
            BufferState::Idle { mut buffer } => {
                buffer.insert(k, v);
                self.buffer = BufferState::Idle { buffer };
            },
            BufferState::Committing { mut buffer, commit_buffer } => {
                buffer.insert(k, v);
                self.buffer = BufferState::Committing { buffer, commit_buffer };
            },
        }
    }

    /// The ids of all segments, from the lowest level up.
    pub fn get_segment_ids(&self) -> (r: Vec<String>)
        ensures
            r@.len() == self.segment_entries().len(),
            forall|i: int| 0 <= i < r@.len() ==> #[trigger] r@[i]@ == self.segment_entries()[i].0,
            levels_ascending(self.segment_entries()),
    {
        proof {
            use_type_invariant(self);
        }
        let ghost s = segment_list_contents(self.segments);
        let n = segment_list_len(&self.segments);
        let mut r: Vec<String> = Vec::new();
        let mut i: usize = 0;
        while i < n
            invariant
                n == s.len(),
                s == segment_list_contents(self.segments),
                i <= n,
                r@.len() == i,
                forall|j: int| 0 <= j < i ==> #[trigger] r@[j]@ == s[j].0,
            decreases n - i,
        {
            match segment_list_get(&self.segments, i) {
                Some(seg) => r.push(seg.id.clone()),
                None => {},
            }
            i = i + 1;
        }
        r
    }

    /// True when the write buffer is below the threshold and no flush is under way, that
    /// is when an insert need not submit a flush.
    pub fn is_flushable(&self, flush_byte_size_threshold: usize) -> (r: bool)
        ensures
            r == (self.flushing() is None && self.active_size() < flush_byte_size_threshold),
    {
        match &self.buffer {
            BufferState::Idle { buffer } => buffer.byte_size() < flush_byte_size_threshold,
            BufferState::Committing { .. } => false,
        }
    }

    /// Starts a flush: the write buffer becomes the buffer being flushed and a new empty
    /// write buffer takes its place. Nothing changes, and false comes back, when a flush
    /// is already under way.
    pub fn try_begin_commit(&mut self) -> (r: bool)
        ensures
            final(self).collection_id() == old(self).collection_id(),
            final(self).segment_entries() == old(self).segment_entries(),
            r == (old(self).flushing() is None),
            r ==> final(self).flushing() == Some(old(self).active()) && final(self).active().dom()
                == Set::<Seq<u8>>::empty() && final(self).active_size() == 0,
            !r ==> final(self).active() == old(self).active() && final(self).flushing() == old(self).flushing() && final(self).active_size() == old(self).active_size(),
    {
        proof {
            use_type_invariant(&*self);
        }
        let mut state = BufferState::Idle { buffer: CollectionBuffer::new() };
        std::mem::swap(&mut state, &mut self.buffer);
        match state {
            BufferState::Idle { buffer } => {
                self.buffer = BufferState::Committing { buffer: CollectionBuffer::new(), commit_buffer: buffer };
                true
            },
            BufferState::Committing { buffer, commit_buffer } => {
                self.buffer = BufferState::Committing { buffer, commit_buffer };
                false
            },
        }
    }

    /// The buffer being flushed, if a flush is under way.
    pub fn commit_buffer(&self) -> (r: Option<&CollectionBuffer>)
        ensures
            match r {
                Some(b) => self.flushing() == Some(b.contents()),
                None => self.flushing() is None,
            },
    {
        match &self.buffer {
            BufferState::Idle { .. } => None,
            BufferState::Committing { commit_buffer, .. } => Some(commit_buffer),
        }
    }

    /// Ends a flush: the buffer being flushed is dropped and the write buffer stays.
    pub fn end_commit(&mut self)
        requires
            old(self).flushing() is Some,
        ensures
            final(self).collection_id() == old(self).collection_id(),
            final(self).segment_entries() == old(self).segment_entries(),
            final(self).active() == old(self).active(),
            final(self).active_size() == old(self).active_size(),
            final(self).flushing() is None,
    {
        proof {
            use_type_invariant(&*self);
        }
        let mut state = BufferState::Idle { buffer: CollectionBuffer::new() };
        std::mem::swap(&mut state, &mut self.buffer);
        match state {
            BufferState::Idle { buffer } => {
                self.buffer = BufferState::Idle { buffer };
            },
            BufferState::Committing { buffer, .. } => {
                self.buffer = BufferState::Idle { buffer };
            },
        }
    }
}

proof fn lemma_insert_index(s: Seq<(Seq<char>, u32)>, level: u32, pos: int)
    requires
        0 <= pos <= s.len(),
        forall|j: int| 0 <= j < pos ==> #[trigger] s[j].1 <= level,
        pos < s.len() ==> s[pos].1 > level,
    ensures
        insert_index(s, level) == pos,
    decreases s.len(),
{
    if s.len() > 0 && pos > 0 {
        assert(s[0].1 <= level);
        assert forall|j: int| 0 <= j < pos - 1 implies #[trigger] s.drop_first()[j].1 <= level by {
            assert(s.drop_first()[j] == s[j + 1]);
        }
        lemma_insert_index(s.drop_first(), level, pos - 1);
    }
}

/// Storing a pair in the write buffer makes it what a lookup of its key finds, and
/// leaves what a lookup of any other key finds as it was.
pub proof fn lemma_write_then_lookup(before: CollectionState, after: CollectionState, key: Seq<u8>, value: Seq<u8>, other: Seq<u8>)
    requires
        after.active() == before.active().insert(key, value),
        after.flushing() == before.flushing(),
        other != key,
    ensures
        after.lookup(key) == Some(value),
        after.lookup(other) == before.lookup(other),
{
}

/// Starting a flush changes no buffered value a lookup finds.
pub proof fn lemma_begin_commit_keeps_lookups(before: CollectionState, after: CollectionState, key: Seq<u8>)
    requires
        before.flushing() is None,
        after.flushing() == Some(before.active()),
        after.active().dom() == Set::<Seq<u8>>::empty(),
    ensures
        after.lookup(key) == before.lookup(key),
{
}

/// Adding a segment where `insert_segment` puts it keeps segments ordered by level: the
/// new segment follows every segment of its level or lower and precedes every segment of
/// a higher level.
pub proof fn lemma_insert_segment_keeps_order(s: Seq<(Seq<char>, u32)>, id: Seq<char>, level: u32)
    requires
        levels_ascending(s),
    ensures
        levels_ascending(s.take(insert_index(s, level)).push((id, level)) + s.skip(insert_index(s, level))),
        (s.take(insert_index(s, level)).push((id, level)) + s.skip(insert_index(s, level))).len() == s.len() + 1,
        (s.take(insert_index(s, level)).push((id, level)) + s.skip(insert_index(s, level)))[insert_index(s, level)] == (id, level),
{
    let p = insert_index(s, level);
    lemma_insert_index_bounds(s, level);
    let t = s.take(p).push((id, level)) + s.skip(p);
    assert forall|i: int, j: int| 0 <= i <= j < t.len() implies #[trigger] t[i].1 <= #[trigger] t[j].1 by {
        if j < p {
            assert(t[i] == s[i] && t[j] == s[j]);
        } else if j == p {
            if i < p {
                assert(t[i] == s[i]);
            }
        } else {
            assert(t[j] == s[j - 1]);
            if i < p {
                assert(t[i] == s[i]);
            } else if i > p {
                assert(t[i] == s[i - 1]);
            }
        }
    }
}

proof fn lemma_insert_index_bounds(s: Seq<(Seq<char>, u32)>, level: u32)
    ensures
        0 <= insert_index(s, level) <= s.len(),
        forall|j: int| 0 <= j < insert_index(s, level) ==> #[trigger] s[j].1 <= level,
        insert_index(s, level) < s.len() ==> s[insert_index(s, level)].1 > level,
    decreases s.len(),
{
    if s.len() > 0 && s[0].1 <= level {
        lemma_insert_index_bounds(s.drop_first(), level);
        assert forall|j: int| 0 <= j < insert_index(s, level) implies #[trigger] s[j].1 <= level by {
            if j > 0 {
                assert(s[j] == s.drop_first()[j - 1]);
            }
        }
        if insert_index(s, level) < s.len() {
            assert(s[insert_index(s, level)] == s.drop_first()[insert_index(s, level) - 1]);
        }
    }
}

} // verus!
