//! Where the LSM engine keeps a collection's files, which commit file is the latest, and
//! what a commit file holds: the segments of the collection.
use crate::checksum::{crc32, crc32_hash};
use crate::codec::{
    byte_le, compare_bytes, lemma_byte_order_antisym, lemma_byte_order_trans, read_u32, u32_at,
    Order,
};
use crate::error::{Code, VixError};
use crate::lsm::{GetAllSegmentByCollectionIDPortResult, GetAllSegmentByCollectionIDPortResultSegment};
use crate::text::{join2, join3, starts_with};
use vstd::prelude::*;
use vstd::utf8::encode_utf8;

verus! {

/// The store that holds a collection's documents: `collection/<id>/document`.
pub fn store(collection_id: &str) -> (r: String)
    ensures
        r@ == "collection/"@ + collection_id@ + "/document"@,
{
    join3("collection/", collection_id, "/document")
}

/// The file name of a segment: `log_<id>`.
pub fn name(segment_id: &str) -> (r: String)
    ensures
        r@ == "log_"@ + segment_id@,
{
    join2("log_", segment_id)
}

/// The name of a commit file starts with `commit_`.
pub open spec fn is_commit_name(s: Seq<char>) -> bool {
    "commit_"@.len() <= s.len() && s.subrange(0, "commit_"@.len() as int) == "commit_"@
}

/// The bytes of a name, in which names are ordered.
pub open spec fn name_bytes(s: String) -> Seq<u8> {
    encode_utf8(s@)
}

/// The greatest commit file name, in the byte order of names, or `None` where no name is
/// a commit file's.
pub fn latest_commit_name(names: &[String]) -> (r: Option<String>)
    ensures
        match r {
            Some(n) => {
                &&& is_commit_name(n@)
                &&& exists|i: int| 0 <= i < names@.len() && #[trigger] names@[i]@ == n@
                &&& forall|j: int|
                    0 <= j < names@.len() && is_commit_name(#[trigger] names@[j]@) ==> byte_le(
                        name_bytes(names@[j]),
                        encode_utf8(n@),
                    )
            },
            None => forall|j: int| 0 <= j < names@.len() ==> !is_commit_name(#[trigger] names@[j]@),
        },
{
    let mut best: Option<usize> = None;
    let mut i: usize = 0;
    while i < names.len()
        invariant
            i <= names@.len(),
            match best {
                Some(b) => {
                    &&& b < i
                    &&& is_commit_name(names@[b as int]@)
                    &&& forall|j: int|
                        0 <= j < i && is_commit_name(#[trigger] names@[j]@) ==> byte_le(
                            name_bytes(names@[j]),
                            name_bytes(names@[b as int]),
                        )
                },
                None => forall|j: int| 0 <= j < i ==> !is_commit_name(#[trigger] names@[j]@),
            },
        decreases names@.len() - i,
    {
        if starts_with(names[i].as_str(), "commit_") {
            match best {
                None => {
                    proof {
                        crate::codec::lemma_byte_order_equal(name_bytes(names@[i as int]), name_bytes(names@[i as int]));
                    }
                    best = Some(i);
                },
                Some(b) => {
                    let sb = names[b].as_str();
                    let si = names[i].as_str();
                    let bb = sb.as_bytes();
                    let bi = si.as_bytes();
                    assert(bb@ == name_bytes(names@[b as int]));
                    assert(bi@ == name_bytes(names@[i as int]));
                    let o = compare_bytes(bb, bi);
                    if o == Order::Less {
                        proof {
                            let nb = name_bytes(names@[b as int]);
                            let ni = name_bytes(names@[i as int]);
                            assert forall|j: int|
                                0 <= j < i + 1 && is_commit_name(#[trigger] names@[j]@) implies byte_le(
                                    name_bytes(names@[j]),
                                    ni,
                                ) by {
                                if j < i {
                                    lemma_byte_order_trans(name_bytes(names@[j]), nb, ni);
                                } else {
                                    crate::codec::lemma_byte_order_equal(ni, ni);
                                }
                            }
                        }
                        best = Some(i);
                    } else {
                        proof {
                            let nb = name_bytes(names@[b as int]);
                            let ni = name_bytes(names@[i as int]);
                            lemma_byte_order_antisym(nb, ni);
                            assert(byte_le(ni, nb));
                            assert forall|j: int|
                                0 <= j < i + 1 && is_commit_name(#[trigger] names@[j]@) implies byte_le(
                                    name_bytes(names@[j]),
                                    nb,
                                ) by {
                                if j == i {
                                    assert(names@[j] == names@[i as int]);
                                }
                            }
                        }
                    }
                },
            }
        }
        i = i + 1;
    }
    match best {
        Some(b) => Some(names[b].clone()),
        None => None,
    }
}

/// A segment as a commit file lists it.
#[derive(Debug)]
pub struct CommitSegment {
    pub id: String,
    pub level: u32,
}

/// What a commit file of a collection holds: its segments.
#[derive(Debug)]
pub struct Commit {
    pub segments: Vec<CommitSegment>,
}

impl CommitSegment {
    /// The segment as the engine loads it.
    pub fn get_all_segment_by_collection_id_port_result_segment(self) -> (r:
        GetAllSegmentByCollectionIDPortResultSegment)
        ensures
            r.id == self.id,
            r.level == self.level,
    {
        GetAllSegmentByCollectionIDPortResultSegment { id: self.id, level: self.level }
    }
}

impl Commit {
    /// The commit of a collection that has no segment yet.
    pub fn empty() -> (r: Commit)
        ensures
            r.segments@.len() == 0,
    {
        Commit { segments: Vec::new() }
    }

    /// The segments of the commit, in order, as the engine loads them.
    pub fn get_all_segment_by_collection_id_port_result(self) -> (r:
        GetAllSegmentByCollectionIDPortResult)
        ensures
            r.segments@.len() == self.segments@.len(),
            forall|i: int|
                0 <= i < self.segments@.len() ==> #[trigger] r.segments@[i].id == self.segments@[i].id
                    && r.segments@[i].level == self.segments@[i].level,
    {
        let mut segments = self.segments;
        let ghost given = segments@;
        let mut out: Vec<GetAllSegmentByCollectionIDPortResultSegment> = Vec::new();
        while segments.len() > 0
            invariant
                out@.len() + segments@.len() == given.len(),
                segments@ == given.skip(out@.len() as int),
                forall|i: int|
                    0 <= i < out@.len() ==> #[trigger] out@[i].id == given[i].id && out@[i].level
                        == given[i].level,
            decreases segments@.len(),
        {
            let ghost k = out@.len() as int;
            let s = segments.remove(0);
            assert(s == given[k]);
            assert(segments@ =~= given.skip(k + 1));
            out.push(s.get_all_segment_by_collection_id_port_result_segment());
        }
        GetAllSegmentByCollectionIDPortResult { segments: out }
    }
}

/// The content of a commit file: after a 4-byte little-endian checksum, the content it
/// covers. A fatal error when the checksum does not match.
pub fn commit_content(commit_buf: &[u8]) -> (r: Result<Vec<u8>, VixError>)
    requires
        commit_buf@.len() >= 4,
    ensures
        match r {
            Ok(c) => c@ == commit_buf@.subrange(4, commit_buf@.len() as int) && u32_at(commit_buf@, 0)
                == crc32(c@),
            Err(e) => u32_at(commit_buf@, 0) != crc32(commit_buf@.subrange(4, commit_buf@.len() as int))
                && e.code == Code::FatalError,
        },
{
    let content = crate::codec::copy_range(commit_buf, 4, commit_buf.len());
    let expected_hash = read_u32(commit_buf, 0);
    if expected_hash != crc32_hash(content.as_slice()) {
        return Err(VixError::new(Code::FatalError, "invalid commit format: hash mismatch"));
    }
    Ok(content)
}

} // verus!
