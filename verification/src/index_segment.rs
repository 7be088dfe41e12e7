//! The segment files of the identifier index.
//!
//! A file holds document blocks from offset 0, then a metadata record, then a footer. A
//! block is `BLCK`, the CRC-32 of its content, the content's length (8 bytes), then the
//! content: entries, each the length of what follows (8 bytes), the document id, `:`, and
//! the document as JSON. The metadata record and the footer are laid out as in the
//! engine's segments. All integers are little-endian.
use crate::checksum::{crc32, crc32_hash};
use crate::codec::{append_bytes, append_u32, append_u64, bytes_equal_at, le32, le64, read_u32, read_u64, u32_at, u64_at};
use crate::error::{Code, VixError};
use crate::msgpack::{decode_u64s, msgpack_u64s, msgpack_u64s_decoded};
use crate::segment::{
    block_magic, block_magic_bytes, encode_footer, encode_metadata_record, footer_bytes,
    metadata_body, metadata_bytes, metadata_magic, words_bytes, MetadataHeader, METADATA_HEADER_SIZE,
};
use crate::text::join2;
use vstd::prelude::*;
use vstd::string::*;
use vstd::utf8::encode_utf8;

verus! {

/// The size of a block header: magic, content checksum, content length.
pub const INDEX_BLOCK_HEADER_SIZE: usize = 16;

/// One entry of a block: the length of what follows, the id, `:`, the document.
pub open spec fn entry_bytes(e: (Seq<u8>, Seq<u8>)) -> Seq<u8> {
    le64((e.0.len() + 1 + e.1.len()) as u64) + e.0 + seq![58u8] + e.1
}

/// Entries one after the other.
pub open spec fn entries_bytes(es: Seq<(Seq<u8>, Seq<u8>)>) -> Seq<u8>
    decreases es.len(),
{
    if es.len() == 0 {
        Seq::empty()
    } else {
        entries_bytes(es.drop_last()) + entry_bytes(es.last())
    }
}

/// How `write_documents` groups entries into blocks: before each entry, the block being
/// filled is closed when its content has reached `min` bytes; at the end a non-empty block
/// is closed. `cur` is the block being filled.
pub open spec fn entry_runs(
    es: Seq<(Seq<u8>, Seq<u8>)>,
    min: nat,
    cur: Seq<(Seq<u8>, Seq<u8>)>,
) -> Seq<Seq<(Seq<u8>, Seq<u8>)>>
    decreases es.len(),
{
    if es.len() == 0 {
        if entries_bytes(cur).len() > 0 {
            seq![cur]
        } else {
            Seq::empty()
        }
    } else if entries_bytes(cur).len() >= min {
        seq![cur] + entry_runs(es.drop_first(), min, seq![es[0]])
    } else {
        entry_runs(es.drop_first(), min, cur.push(es[0]))
    }
}

/// The entries of each block of a file, in order.
pub open spec fn index_runs(es: Seq<(Seq<u8>, Seq<u8>)>, min: nat) -> Seq<Seq<(Seq<u8>, Seq<u8>)>> {
    entry_runs(es, min, Seq::empty())
}

/// A block around `content`.
pub open spec fn index_block_bytes(content: Seq<u8>) -> Seq<u8> {
    block_magic() + le32(crc32(content)) + le64(content.len() as u64) + content
}

/// The blocks of the given runs, one after the other.
pub open spec fn index_blocks_bytes(runs: Seq<Seq<(Seq<u8>, Seq<u8>)>>) -> Seq<u8>
    decreases runs.len(),
{
    if runs.len() == 0 {
        Seq::empty()
    } else {
        index_blocks_bytes(runs.drop_last()) + index_block_bytes(entries_bytes(runs.last()))
    }
}

/// Where each block of the given runs starts.
pub open spec fn index_blocks_offsets(runs: Seq<Seq<(Seq<u8>, Seq<u8>)>>) -> Seq<u64>
    decreases runs.len(),
{
    if runs.len() == 0 {
        Seq::empty()
    } else {
        index_blocks_offsets(runs.drop_last()).push(index_blocks_bytes(runs.drop_last()).len() as u64)
    }
}

/// The entries of documents: each id's bytes with its document's JSON bytes.
pub open spec fn entries_view(ids: Seq<String>, docs: Seq<Vec<u8>>) -> Seq<(Seq<u8>, Seq<u8>)> {
    Seq::new(ids.len(), |i: int| (encode_utf8(ids[i]@), docs[i]@))
}

/// An entry's length field holds the length of what follows it.
pub open spec fn entries_fit(ids: Seq<String>, docs: Seq<Vec<u8>>) -> bool {
    forall|i: int| 0 <= i < ids.len() ==> encode_utf8(#[trigger] ids[i]@).len() + 1 + docs[i]@.len() <= usize::MAX
}

/// The whole file for the entries: the blocks, the metadata record with the block offsets,
/// the key filter and the first and last id, and the footer.
pub open spec fn index_segment_bytes(
    es: Seq<(Seq<u8>, Seq<u8>)>,
    min: nat,
    hash_cnt: u32,
    filter_bits: Seq<u64>,
) -> Seq<u8> {
    let runs = index_runs(es, min);
    let docs = index_blocks_bytes(runs);
    docs + metadata_bytes(
        metadata_body(
            msgpack_u64s(index_blocks_offsets(runs)),
            hash_cnt,
            words_bytes(filter_bits),
            es[0].0,
            es.last().0,
        ),
    ) + footer_bytes(docs.len() as u64)
}

/// The document blocks of a file and where each starts.
#[derive(Debug)]
pub struct EntryLayout {
    pub bytes: Vec<u8>,
    pub block_offsets: Vec<u64>,
}

proof fn lemma_entry_runs_step(
    es: Seq<(Seq<u8>, Seq<u8>)>,
    i: int,
    min: nat,
    cur: Seq<(Seq<u8>, Seq<u8>)>,
)
    requires
        0 <= i < es.len(),
    ensures
        entries_bytes(cur).len() >= min ==> entry_runs(es.skip(i), min, cur) == seq![cur]
            + entry_runs(es.skip(i + 1), min, seq![es[i]]),
        entries_bytes(cur).len() < min ==> entry_runs(es.skip(i), min, cur) == entry_runs(
            es.skip(i + 1),
            min,
            cur.push(es[i]),
        ),
{
    assert(es.skip(i).drop_first() =~= es.skip(i + 1));
    assert(es.skip(i)[0] == es[i]);
}

proof fn lemma_entries_bytes_push(es: Seq<(Seq<u8>, Seq<u8>)>, e: (Seq<u8>, Seq<u8>))
    ensures
        entries_bytes(es.push(e)) == entries_bytes(es) + entry_bytes(e),
{
    assert(es.push(e).drop_last() =~= es);
}

/// Writes and reads the segment files of the identifier index.
pub struct Writer {
    base_dir: String,
    segment_id: String,
    min_document_block_size: usize,
    min_document_content_size: usize,
}

impl Writer {
    /// The least content of a block before it is closed.
    pub closed spec fn min_content_size(&self) -> nat {
        self.min_document_content_size as nat
    }

    /// The segment's id.
    pub closed spec fn segment_id_view(&self) -> Seq<char> {
        self.segment_id@
    }

    /// The directory of the segment's file.
    pub closed spec fn base_dir_view(&self) -> Seq<char> {
        self.base_dir@
    }

    /// A writer of the segment with the given id, whose blocks are closed once they reach
    /// `min_document_block_size` bytes with their header. The size must cover a header.
    pub fn new(base_dir: String, segment_id: String, min_document_block_size: usize) -> (r: Writer)
        requires
            min_document_block_size >= INDEX_BLOCK_HEADER_SIZE,
        ensures
            r.min_content_size() == min_document_block_size - INDEX_BLOCK_HEADER_SIZE,
            r.segment_id_view() == segment_id@,
            r.base_dir_view() == base_dir@,
    {
        Writer {
            base_dir,
            segment_id,
            min_document_block_size,
            min_document_content_size: min_document_block_size - INDEX_BLOCK_HEADER_SIZE,
        }
    }

    /// The directory of the segment's file.
    pub fn base_dir(&self) -> (r: &str)
        ensures
            r@ == self.base_dir_view(),
    {
        self.base_dir.as_str()
    }

    /// The name of the segment's file: `log_<id>`.
    pub fn file_name(&self) -> (r: String)
        ensures
            r@ == "log_"@ + self.segment_id_view(),
    {
        join2("log_", self.segment_id.as_str())
    }

    /// The bytes of the segment's file for the documents: the ids, sorted, and each
    /// document's JSON. A fatal error when there are no ids or not one document per id.
    /// The key filter's hash count and bits are given.
    pub fn write(
        &self,
        ids: &Vec<String>,
        docs: &Vec<Vec<u8>>,
        filter_hash_cnt: u32,
        filter_bits: &Vec<u64>,
    ) -> (r: Result<Vec<u8>, VixError>)
        requires
            ids@.len() == docs@.len() ==> entries_fit(ids@, docs@),
        ensures
            match r {
                Ok(b) => {
                    &&& ids@.len() > 0
                    &&& ids@.len() == docs@.len()
                    &&& index_blocks_offsets(index_runs(entries_view(ids@, docs@), self.min_content_size())).len() < 0x1_0000_0000
                        ==> msgpack_u64s_decoded(msgpack_u64s(index_blocks_offsets(index_runs(entries_view(ids@, docs@), self.min_content_size()))))
                        == Some(index_blocks_offsets(index_runs(entries_view(ids@, docs@), self.min_content_size())))
                    &&& b@ == index_segment_bytes(
                        entries_view(ids@, docs@),
                        self.min_content_size(),
                        filter_hash_cnt,
                        filter_bits@,
                    )
                },
                Err(e) => (ids@.len() == 0 || ids@.len() != docs@.len()) && e.code == Code::FatalError,
            },
    {
        if ids.len() == 0 || ids.len() != docs.len() {
            return Err(VixError::new(Code::FatalError, "invalid ids and docs"));
        }
        let layout = self.write_documents(ids, docs);
        let metadata = match self.write_metadata(ids, &layout.block_offsets, filter_hash_cnt, filter_bits) {
            Ok(m) => m,
            Err(e) => {
                return Err(e);
            },
        };
        let footer = self.write_footer(layout.bytes.len() as u64);
        let mut file = layout.bytes;
        append_bytes(&mut file, metadata.as_slice());
        append_bytes(&mut file, footer.as_slice());
        proof {
            let es = entries_view(ids@, docs@);
            assert(es[0].0 == encode_utf8(ids@[0]@));
            assert(es.last().0 == encode_utf8(ids@.last()@));
        }
        Ok(file)
    }

    /// Groups the entries into blocks and lays the blocks out one after the other from
    /// offset 0; the metadata record follows at `bytes.len()`.
    pub fn write_documents(&self, ids: &Vec<String>, docs: &Vec<Vec<u8>>) -> (r: EntryLayout)
        requires
            ids@.len() == docs@.len(),
            entries_fit(ids@, docs@),
        ensures
            r.bytes@ == index_blocks_bytes(index_runs(entries_view(ids@, docs@), self.min_content_size())),
            r.block_offsets@ == index_blocks_offsets(index_runs(entries_view(ids@, docs@), self.min_content_size())),
    {
        let ghost es = entries_view(ids@, docs@);
        let ghost min = self.min_content_size();
        let min_size = self.min_document_content_size;
        let mut out: Vec<u8> = Vec::new();
        let mut offsets: Vec<u64> = Vec::new();
        let mut content: Vec<u8> = Vec::new();
        let ghost mut emitted: Seq<Seq<(Seq<u8>, Seq<u8>)>> = Seq::empty();
        let ghost mut cur: Seq<(Seq<u8>, Seq<u8>)> = Seq::empty();
        assert(es.skip(0) =~= es);
        assert(emitted + entry_runs(es.skip(0), min, cur) =~= index_runs(es, min));
        let n = ids.len();
        let mut i: usize = 0;
        while i < n
            invariant
                n == ids@.len(),
                n == docs@.len(),
                i <= n,
                es == entries_view(ids@, docs@),
                entries_fit(ids@, docs@),
                min == min_size as nat,
                out@ == index_blocks_bytes(emitted),
                offsets@ == index_blocks_offsets(emitted),
                content@ == entries_bytes(cur),
                index_runs(es, min) == emitted + entry_runs(es.skip(i as int), min, cur),
            decreases n - i,
        {
            proof {
                lemma_entry_runs_step(es, i as int, min, cur);
            }
            if content.len() >= min_size {
                let block = write_document_block(content.as_slice());
                proof {
                    assert(emitted.push(cur).drop_last() =~= emitted);
                    assert(emitted + (seq![cur] + entry_runs(es.skip(i + 1), min, seq![es[i as int]]))
                        =~= emitted.push(cur) + entry_runs(es.skip(i + 1), min, seq![es[i as int]]));
                    emitted = emitted.push(cur);
                    cur = Seq::empty();
                }
                offsets.push(out.len() as u64);
                append_bytes(&mut out, block.as_slice());
                content = Vec::new();
                assert(content@ =~= entries_bytes(cur));
            }
            let id_bytes = ids[i].as_str().as_bytes();
            let doc = &docs[i];
            assert(encode_utf8(ids@[i as int]@).len() + 1 + docs@[i as int]@.len() <= usize::MAX);
            let total_len = id_bytes.len() + 1 + doc.len();
            append_u64(&mut content, total_len as u64);
            append_bytes(&mut content, id_bytes);
            content.push(58u8);
            append_bytes(&mut content, doc.as_slice());
            proof {
                assert(es[i as int] == (id_bytes@, doc@));
                lemma_entries_bytes_push(cur, es[i as int]);
                assert(content@ =~= entries_bytes(cur.push(es[i as int])));
                cur = cur.push(es[i as int]);
            }
            i = i + 1;
        }
        assert(es.skip(n as int) =~= Seq::<(Seq<u8>, Seq<u8>)>::empty());
        if content.len() > 0 {
            let block = write_document_block(content.as_slice());
            proof {
                assert(emitted.push(cur).drop_last() =~= emitted);
                assert(emitted + seq![cur] =~= emitted.push(cur));
                emitted = emitted.push(cur);
            }
            offsets.push(out.len() as u64);
            append_bytes(&mut out, block.as_slice());
        } else {
            assert(emitted + Seq::<Seq<(Seq<u8>, Seq<u8>)>>::empty() =~= emitted);
        }
        EntryLayout { bytes: out, block_offsets: offsets }
    }

    /// The metadata record: the block offsets, the key filter's hash count and bits, and
    /// the first and last id. A fatal error when there are no ids.
    pub fn write_metadata(
        &self,
        ids: &Vec<String>,
        block_offsets: &Vec<u64>,
        filter_hash_cnt: u32,
        filter_bits: &Vec<u64>,
    ) -> (r: Result<Vec<u8>, VixError>)
        ensures
            match r {
                Ok(b) => ids@.len() > 0 && (block_offsets@.len() < 0x1_0000_0000 ==> msgpack_u64s_decoded(
                    msgpack_u64s(block_offsets@),
                ) == Some(block_offsets@)) && b@ == metadata_bytes(
                    metadata_body(
                        msgpack_u64s(block_offsets@),
                        filter_hash_cnt,
                        words_bytes(filter_bits@),
                        encode_utf8(ids@[0]@),
                        encode_utf8(ids@.last()@),
                    ),
                ),
                Err(e) => ids@.len() == 0 && e.code == Code::FatalError,
            },
    {
        if ids.len() == 0 {
            return Err(VixError::new(Code::FatalError, "invalid first key"));
        }
        let smallest = ids[0].as_str().as_bytes();
        let biggest = ids[ids.len() - 1].as_str().as_bytes();
        Ok(encode_metadata_record(block_offsets, filter_hash_cnt, filter_bits, smallest, biggest))
    }

    /// The footer that points at the metadata record.
    pub fn write_footer(&self, metadata_offset: u64) -> (r: Vec<u8>)
        ensures
            r@ == footer_bytes(metadata_offset),
    {
        encode_footer(metadata_offset)
    }
}

/// A block around the content: `BLCK`, the content's checksum, its length, the content.
pub fn write_document_block(content_bytes: &[u8]) -> (r: Vec<u8>)
    ensures
        r@ == index_block_bytes(content_bytes@),
{
    let checksum = crc32_hash(content_bytes);
    let mut buf = block_magic_bytes();
    append_u32(&mut buf, checksum);
    append_u64(&mut buf, content_bytes.len() as u64);
    append_bytes(&mut buf, content_bytes);
    buf
}

/// Checks the header of a metadata record as the reader does: its magic, and a content
/// length no greater than `max_metadata_content_len`.
pub fn check_metadata_header_within(header: &[u8], max_metadata_content_len: usize) -> (r: Result<
    MetadataHeader,
    VixError,
>)
    requires
        header@.len() == METADATA_HEADER_SIZE,
    ensures
        match r {
            Ok(h) => {
                &&& header@.subrange(0, 4) == metadata_magic()
                &&& u64_at(header@, 8) <= max_metadata_content_len
                &&& h.expected_hash == u32_at(header@, 4)
                &&& h.content_len == u64_at(header@, 8)
            },
            Err(e) => (header@.subrange(0, 4) != metadata_magic() || u64_at(header@, 8)
                > max_metadata_content_len) && e.code == Code::FatalError,
        },
{
    let magic = crate::segment::metadata_magic_bytes();
    if !bytes_equal_at(header, 0, magic.as_slice()) {
        return Err(VixError::new(Code::FatalError, "invalid file format: bad metadata magic"));
    }
    let len = read_u64(header, 8);
    if len > max_metadata_content_len as u64 {
        return Err(VixError::new(Code::FatalError, "invalid file format: bad metadata length"));
    }
    Ok(MetadataHeader { expected_hash: read_u32(header, 4), content_len: len })
}

/// The encoded block offsets at the start of a metadata body, if the body holds them whole.
pub open spec fn offsets_part(c: Seq<u8>) -> Option<Seq<u8>> {
    if c.len() >= 8 && u64_at(c, 0) <= c.len() - 8 {
        Some(c.subrange(8, 8 + u64_at(c, 0)))
    } else {
        None
    }
}

/// A metadata body starts with whole encoded block offsets that decode.
pub open spec fn offsets_well_formed(c: Seq<u8>) -> bool {
    match offsets_part(c) {
        Some(o) => msgpack_u64s_decoded(o) is Some,
        None => false,
    }
}

/// Whether a metadata body starts with whole encoded block offsets that decode.
pub fn block_offsets_well_formed(content: &[u8]) -> (r: bool)
    ensures
        r == offsets_well_formed(content@),
{
    let n = content.len();
    if n < 8 {
        return false;
    }
    let len = read_u64(content, 0);
    if len > (n - 8) as u64 {
        return false;
    }
    let part = vstd::slice::slice_subrange(content, 8, 8 + len as usize);
    decode_u64s(part).is_some()
}

/// Checks a metadata body against the header's checksum, which covers the length field
/// and the body, and reads the block offsets it starts with.
pub fn read_block_offsets(header: MetadataHeader, content: &[u8]) -> (r: Result<Vec<u64>, VixError>)
    ensures
        match r {
            Ok(o) => {
                &&& crc32(le64(header.content_len) + content@) == header.expected_hash
                &&& offsets_part(content@) matches Some(p)
                &&& msgpack_u64s_decoded(p) == Some(o@)
            },
            Err(e) => (crc32(le64(header.content_len) + content@) != header.expected_hash
                || !offsets_well_formed(content@)) && e.code == Code::FatalError,
        },
{
    let mut checked: Vec<u8> = Vec::new();
    append_u64(&mut checked, header.content_len);
    append_bytes(&mut checked, content);
    assert(checked@ =~= le64(header.content_len) + content@);
    if header.expected_hash != crc32_hash(checked.as_slice()) {
        return Err(VixError::new(Code::FatalError, "invalid file format: metadata hash mismatch"));
    }
    let n = content.len();
    if n < 8 {
        return Err(VixError::new(Code::FatalError, "invalid file format: bad offsets"));
    }
    let len = read_u64(content, 0);
    if len > (n - 8) as u64 {
        return Err(VixError::new(Code::FatalError, "invalid file format: bad offsets"));
    }
    let end: usize = 8 + len as usize;
    let part = vstd::slice::slice_subrange(content, 8, end);
    match decode_u64s(part) {
        Some(o) => Ok(o),
        None => Err(VixError::new(Code::FatalError, "invalid file format: bad offsets")),
    }
}

} // verus!
