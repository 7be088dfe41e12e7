//! Reading documents from segment blocks by document id or by sequence id, through a
//! port implemented outside this crate.
use crate::document::Document;
use crate::error::VixError;
use vstd::prelude::*;

verus! {

/// The blocks of document segments, read by document id or by sequence id.
pub trait Port {
    fn get_from_id_block(&self, segment_id: &str, block_offset: &u64) -> Result<Vec<Document>, VixError>;

    fn get_from_seq_id_block(&self, segment_id: &str, block_offset: &u64) -> Result<Vec<Document>, VixError>;

    fn flush_segment(&self) -> Result<(), VixError>;
}

/// The segments of one level, by id.
#[derive(Debug)]
pub struct LevelState {
    pub segment_ids: Vec<String>,
}

/// Strings as character sequences.
pub open spec fn strings_view(v: Seq<String>) -> Seq<Seq<char>> {
    v.map_values(|s: String| s@)
}

/// The segment ids of the levels, one level after the other.
pub open spec fn level_ids(levels: Seq<LevelState>) -> Seq<Seq<char>>
    decreases levels.len(),
{
    if levels.len() == 0 {
        Seq::empty()
    } else {
        level_ids(levels.drop_last()) + strings_view(levels.last().segment_ids@)
    }
}

/// The ids of the segments of all levels, from the lowest level up.
pub fn level_segment_ids(levels: &Vec<LevelState>) -> (r: Vec<String>)
    ensures
        strings_view(r@) == level_ids(levels@),
{
    let mut r: Vec<String> = Vec::new();
    let mut i: usize = 0;
    assert(strings_view(r@) =~= level_ids(levels@.subrange(0, 0)));
    while i < levels.len()
        invariant
            i <= levels@.len(),
            strings_view(r@) == level_ids(levels@.subrange(0, i as int)),
        decreases levels@.len() - i,
    {
        let ids = &levels[i].segment_ids;
        let ghost before = strings_view(r@);
        let mut j: usize = 0;
        assert(strings_view(r@) =~= before + strings_view(ids@.subrange(0, 0)));
        while j < ids.len()
            invariant
                j <= ids@.len(),
                strings_view(r@) == before + strings_view(ids@.subrange(0, j as int)),
            decreases ids@.len() - j,
        {
            let ghost old_r = r@;
            let c = ids[j].clone();
            r.push(c);
            proof {
                assert(strings_view(r@) =~= strings_view(old_r).push(ids@[j as int]@));
                assert(strings_view(ids@.subrange(0, j + 1)) =~= strings_view(ids@.subrange(0, j as int)).push(ids@[j as int]@));
            }
            j = j + 1;
        }
        proof {
            let s = levels@.subrange(0, i + 1);
            assert(s.drop_last() =~= levels@.subrange(0, i as int));
            assert(s.last() == levels@[i as int]);
            assert(ids@.subrange(0, ids@.len() as int) =~= ids@);
        }
        i = i + 1;
    }
    assert(levels@.subrange(0, levels@.len() as int) =~= levels@);
    r
}

/// Reads documents from segment blocks by document id.
pub struct IDLookup<P> {
    adapter: P,
}

/// Reads documents from segment blocks by sequence id.
pub struct SeqIDLookup<P> {
    adapter: P,
}

impl<P> IDLookup<P> {
    /// The port the blocks are read through.
    pub closed spec fn adapter_view(&self) -> P {
        self.adapter
    }
}

impl<P> SeqIDLookup<P> {
    /// The port the blocks are read through.
    pub closed spec fn adapter_view(&self) -> P {
        self.adapter
    }
}

impl<P: Port> IDLookup<P> {
    /// A lookup by document id through the port.
    pub fn new(adapter: P) -> (r: IDLookup<P>)
        ensures
            r.adapter_view() == adapter,
    {
        IDLookup { adapter }
    }

    /// The documents of the block at the offset of the segment's id blocks.
    pub fn doc_from_block(&self, segment_id: &str, block_offset: &u64) -> (r: Result<Vec<Document>, VixError>) {
        self.adapter.get_from_id_block(segment_id, block_offset)
    }
}

impl<P: Port> SeqIDLookup<P> {
    /// A lookup by sequence id through the port.
    pub fn new(adapter: P) -> (r: SeqIDLookup<P>)
        ensures
            r.adapter_view() == adapter,
    {
        SeqIDLookup { adapter }
    }

    /// The documents of the block at the offset of the segment's sequence id blocks.
    pub fn doc_from_block(&self, segment_id: &str, block_offset: &u64) -> (r: Result<Vec<Document>, VixError>) {
        self.adapter.get_from_seq_id_block(segment_id, block_offset)
    }
}

} // verus!
