//! The engine's segment files over a file storage: reading a collection's latest commit,
//! a segment's metadata and its blocks, and writing a buffer out as a new segment.
//!
//! The storage, the MessagePack form of commits and the key filters (built from a
//! false-positive rate) are reached through traits implemented outside this crate;
//! nothing is assumed of what they answer. What is read is checked before it is used.
use crate::engine::LSMDocumentPort;
use crate::error::{Code, VixError};
use crate::checksum::crc32;
use crate::codec::u32_at;
use crate::lsm::{port_segments_view, GetAllSegmentByCollectionIDPortResult};
use crate::lsm_store::{commit_content, latest_commit_name, name, store, Commit, CommitSegment};
use crate::segment::{
    block_content_offset, block_read, blocks_offsets, metadata_content_offset, check_block_header, check_metadata_header, decode_block_content, decode_footer,
    decode_metadata_body, document_runs, encode_segment, footer_offset, footer_read, kv_view, metadata_read, KeyValue,
    SegmentMetadata, BLOCK_HEADER_SIZE, FOOTER_SIZE, METADATA_HEADER_SIZE,
};
use vstd::prelude::*;

verus! {

/// An open file of the storage.
pub trait StorageAccessor {
    /// The file's size.
    fn size(&self) -> Result<u64, VixError>;

    /// The bytes of the file from the offset, as many as asked for.
    fn read(&self, offset: u64, len: u64) -> Result<Vec<u8>, VixError>;

    /// Writes the bytes at the offset.
    fn write(&self, offset: u64, buf: &[u8]) -> Result<(), VixError>;

    /// Makes what was written durable.
    fn flush(&self) -> Result<(), VixError>;
}

/// A storage of named files in stores.
pub trait FileStorage {
    type Accessor: StorageAccessor;

    /// The names of a store's files, sorted.
    fn get_all_name_sorted(&self, store: &str) -> Result<Vec<String>, VixError>;

    /// Opens a file, creating it when it does not exist.
    fn open(&self, store: &str, name: &str) -> Result<Self::Accessor, VixError>;
}

/// The MessagePack form of a collection's commit.
pub trait CommitDecoder {
    /// A parse error when the bytes are not a commit.
    fn decode_commit(&self, data: &[u8]) -> Result<Commit, VixError>;
}

/// Key filters for the segments written.
pub trait KeyFilterBuilder {
    /// The hash count and bits of a filter holding the keys.
    fn build_filter(&self, keys: &Vec<Vec<u8>>) -> (u32, Vec<u64>);
}

/// The segment files of the engine over a storage.
pub struct LSMDocumentAdapter<S, D, F> {
    storage: S,
    decoder: D,
    filters: F,
    min_document_content_size: usize,
}

/// Reads `len` bytes at the offset; a fatal error when the storage gives back another
/// number of bytes.
fn read_exact<A: StorageAccessor>(accessor: &A, offset: u64, len: u64) -> (r: Result<Vec<u8>, VixError>)
    ensures
        r matches Ok(b) ==> b@.len() == len,
{
    let buf = match accessor.read(offset, len) {
        Ok(b) => b,
        Err(e) => {
            return Err(e);
        },
    };
    if buf.len() as u64 != len {
        return Err(VixError::new(Code::FatalError, "invalid block format: short read"));
    }
    Ok(buf)
}

/// Where the metadata record of an open segment starts, from its footer.
pub fn get_metadata_offset<A: StorageAccessor>(accessor: &A) -> (r: Result<u64, VixError>)
    ensures
        r matches Ok(o) ==> exists|f: Seq<u8>| #[trigger] footer_read(f, o),
{
    let size = match accessor.size() {
        Ok(s) => s,
        Err(e) => {
            return Err(e);
        },
    };
    let offset = match footer_offset(size) {
        Ok(o) => o,
        Err(e) => {
            return Err(e);
        },
    };
    let footer = match read_exact(accessor, offset, FOOTER_SIZE as u64) {
        Ok(f) => f,
        Err(e) => {
            return Err(e);
        },
    };
    let r = decode_footer(footer.as_slice());
    if let Ok(o) = r {
        assert(footer_read(footer@, o));
    }
    r
}

/// The commit in a commit file's bytes: a fatal error when the file is shorter than its
/// checksum or the checksum does not match its content; otherwise the decoder's reading of
/// the content.
pub fn decode_commit_file<D: CommitDecoder>(buf: &[u8], decoder: &D) -> (r: Result<Commit, VixError>)
    ensures
        buf@.len() < 4 ==> (r matches Err(e) && e.code == Code::FatalError && e.message@
            == "invalid commit format: too short"@),
        buf@.len() >= 4 && u32_at(buf@, 0) != crc32(buf@.subrange(4, buf@.len() as int)) ==> (r matches Err(e)
            && e.code == Code::FatalError),
        r is Ok ==> buf@.len() >= 4 && u32_at(buf@, 0) == crc32(buf@.subrange(4, buf@.len() as int)),
{
    if buf.len() < 4 {
        return Err(VixError::new(Code::FatalError, "invalid commit format: too short"));
    }
    let content = match commit_content(buf) {
        Ok(c) => c,
        Err(e) => {
            return Err(e);
        },
    };
    decoder.decode_commit(content.as_slice())
}

/// The latest commit of a collection from its open commit file: the whole file is read,
/// then decoded as `decode_commit_file` does.
pub fn get_latest_commit<A: StorageAccessor, D: CommitDecoder>(accessor: &A, decoder: &D) -> (r: Result<
    Commit,
    VixError,
>) {
    let size = match accessor.size() {
        Ok(s) => s,
        Err(e) => {
            return Err(e);
        },
    };
    let buf = match read_exact(accessor, 0, size) {
        Ok(b) => b,
        Err(e) => {
            return Err(e);
        },
    };
    decode_commit_file(buf.as_slice(), decoder)
}

/// The segments a commit lists, as (id, level), in order; none without a commit.
pub open spec fn commit_port_segments(latest: Option<Commit>) -> Seq<(Seq<char>, u32)> {
    match latest {
        Some(c) => c.segments@.map_values(|s: CommitSegment| (s.id@, s.level)),
        None => Seq::empty(),
    }
}

/// The segments of the latest commit, in the commit's order; none when there is no
/// commit file.
pub fn commit_segments(latest: Option<Commit>) -> (r: GetAllSegmentByCollectionIDPortResult)
    ensures
        port_segments_view(r.segments@) == commit_port_segments(latest),
{
    let c = match latest {
        Some(c) => c,
        None => Commit::empty(),
    };
    let ghost given = c.segments@;
    let r = c.get_all_segment_by_collection_id_port_result();
    assert(port_segments_view(r.segments@) =~= commit_port_segments(latest));
    r
}

impl<S, D, F> LSMDocumentAdapter<S, D, F> {
    /// The content size at which a document block is closed.
    pub closed spec fn min_content_size(&self) -> usize {
        self.min_document_content_size
    }
}

impl<S: FileStorage, D: CommitDecoder, F: KeyFilterBuilder> LSMDocumentAdapter<S, D, F> {
    /// The segment files of a storage; blocks are closed once their content reaches
    /// `min_document_content_size` bytes.
    pub fn new(storage: S, decoder: D, filters: F, min_document_content_size: usize) -> (r:
        LSMDocumentAdapter<S, D, F>)
        ensures
            r.min_content_size() == min_document_content_size,
    {
        LSMDocumentAdapter { storage, decoder, filters, min_document_content_size }
    }
}

impl<S: FileStorage, D: CommitDecoder, F: KeyFilterBuilder> LSMDocumentPort for LSMDocumentAdapter<S, D, F> {
    /// The segments of a collection, as its latest commit file lists them; none when the
    /// collection has no commit file.
    fn get_all_segment_by_collection_id(&self, collection_id: &str) -> (r: Result<
        GetAllSegmentByCollectionIDPortResult,
        VixError,
    >) {
        let store = store(collection_id);
        let names = match self.storage.get_all_name_sorted(store.as_str()) {
            Ok(n) => n,
            Err(e) => {
                return Err(e);
            },
        };
        let latest = match latest_commit_name(names.as_slice()) {
            Some(latest) => {
                let accessor = match self.storage.open(store.as_str(), latest.as_str()) {
                    Ok(a) => a,
                    Err(e) => {
                        return Err(e);
                    },
                };
                match get_latest_commit(&accessor, &self.decoder) {
                    Ok(c) => Some(c),
                    Err(e) => {
                        return Err(e);
                    },
                }
            },
            None => None,
        };
        Ok(commit_segments(latest))
    }

    /// The metadata of a segment: the footer gives its offset, the header its magic,
    /// checksum and length, and the body, once its checksum holds, its parts.
    fn get_metadata(&self, collection_id: &str, segment_id: &str) -> (r: Result<SegmentMetadata, VixError>)
        ensures
            r matches Ok(m) ==> exists|h: Seq<u8>, c: Seq<u8>| #[trigger] metadata_read(h, c, m),
    {
        let store = store(collection_id);
        let name = name(segment_id);
        let accessor = match self.storage.open(store.as_str(), name.as_str()) {
            Ok(a) => a,
            Err(e) => {
                return Err(e);
            },
        };
        let metadata_offset = match get_metadata_offset(&accessor) {
            Ok(o) => o,
            Err(e) => {
                return Err(e);
            },
        };
        let header_bytes = match read_exact(&accessor, metadata_offset, METADATA_HEADER_SIZE as u64) {
            Ok(h) => h,
            Err(e) => {
                return Err(e);
            },
        };
        let header = match check_metadata_header(header_bytes.as_slice()) {
            Ok(h) => h,
            Err(e) => {
                return Err(e);
            },
        };
        let content_offset = match metadata_content_offset(metadata_offset) {
            Ok(o) => o,
            Err(e) => {
                return Err(e);
            },
        };
        let content = match read_exact(&accessor, content_offset, header.content_len) {
            Ok(c) => c,
            Err(e) => {
                return Err(e);
            },
        };
        let r = decode_metadata_body(header, content.as_slice());
        if let Ok(m) = &r {
            assert(metadata_read(header_bytes@, content@, *m));
        }
        r
    }

    /// The pairs of the block at the offset: the header's magic and length checksum are
    /// checked, then the content's checksum, then the content is split into pairs.
    fn get_values_from_block(&self, collection_id: &str, segment_id: &str, block_offset: u64) -> (r:
        Result<Vec<KeyValue>, VixError>)
        ensures
            r matches Ok(v) ==> exists|h: Seq<u8>, c: Seq<u8>| #[trigger] block_read(h, c, kv_view(v@)),
    {
        let store = store(collection_id);
        let name = name(segment_id);
        let accessor = match self.storage.open(store.as_str(), name.as_str()) {
            Ok(a) => a,
            Err(e) => {
                return Err(e);
            },
        };
        let header_bytes = match read_exact(&accessor, block_offset, BLOCK_HEADER_SIZE as u64) {
            Ok(h) => h,
            Err(e) => {
                return Err(e);
            },
        };
        let header = match check_block_header(header_bytes.as_slice()) {
            Ok(h) => h,
            Err(e) => {
                return Err(e);
            },
        };
        let content_offset = match block_content_offset(block_offset) {
            Ok(o) => o,
            Err(e) => {
                return Err(e);
            },
        };
        let content = match read_exact(&accessor, content_offset, header.content_len) {
            Ok(c) => c,
            Err(e) => {
                return Err(e);
            },
        };
        let r = decode_block_content(header.content_hash, content.as_slice());
        if let Ok(v) = &r {
            assert(block_read(header_bytes@, content@, kv_view(v@)));
        }
        r
    }

    /// Writes sorted pairs as a new segment file: the document blocks, the metadata record
    /// with the key filter of the keys, and the footer; gives back the segment's metadata.
    /// With no pairs nothing is opened or written, and there is no segment.
    fn flush_segment(&self, collection_id: &str, segment_id: &str, sorted_key_values: Vec<KeyValue>) -> (r:
        Result<Option<SegmentMetadata>, VixError>)
        ensures
            sorted_key_values@.len() == 0 ==> r matches Ok(None),
            r matches Ok(Some(m)) ==> {
                &&& sorted_key_values@.len() > 0
                &&& m.smallest_key@ == sorted_key_values@[0].0@
                &&& m.biggest_key@ == sorted_key_values@.last().0@
                &&& m.key_block_offsets@ == blocks_offsets(
                    document_runs(kv_view(sorted_key_values@), self.min_content_size() as nat),
                )
            },
    {
        if sorted_key_values.len() == 0 {
            return Ok(None);
        }
        let mut keys: Vec<Vec<u8>> = Vec::new();
        let mut i: usize = 0;
        while i < sorted_key_values.len()
            invariant
                i <= sorted_key_values@.len(),
            decreases sorted_key_values@.len() - i,
        {
            keys.push(sorted_key_values[i].0.clone());
            i = i + 1;
        }
        let (filter_hash_cnt, filter_bits) = self.filters.build_filter(&keys);
        let (file, key_block_offsets) = match encode_segment(
            &sorted_key_values,
            self.min_document_content_size,
            filter_hash_cnt,
            &filter_bits,
        ) {
            Ok(f) => f,
            Err(e) => {
                return Err(e);
            },
        };
        let store = store(collection_id);
        let name = name(segment_id);
        let accessor = match self.storage.open(store.as_str(), name.as_str()) {
            Ok(a) => a,
            Err(e) => {
                return Err(e);
            },
        };
        match accessor.write(0, file.as_slice()) {
            Ok(()) => {},
            Err(e) => {
                return Err(e);
            },
        }
        match accessor.flush() {
            Ok(()) => {},
            Err(e) => {
                return Err(e);
            },
        }
        let last = sorted_key_values.len() - 1;
        Ok(
            Some(
                SegmentMetadata {
                    key_block_offsets,
                    filter_hash_cnt,
                    filter_bits,
                    smallest_key: sorted_key_values[0].0.clone(),
                    biggest_key: sorted_key_values[last].0.clone(),
                },
            ),
        )
    }
}

} // verus!
