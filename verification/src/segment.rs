//! The on-disk layout of an LSM segment: document blocks, the metadata record and the
//! footer, and their decoding.
//!
//! A document block is `BLCK`, the CRC-32 of the content length, the content length
//! (8 bytes), the CRC-32 of the content, then the content: key/value pairs, each as key
//! length (8 bytes), value length (8 bytes), key, value. All integers are little-endian.
use crate::checksum::{crc32, crc32_hash};
use crate::codec::{
    append_bytes, append_u32, append_u64, bytes_equal_at, copy_range, le32, le64,
    lemma_le_roundtrip, read_u32, read_u64, u32_at, u64_at,
};
use crate::error::{Code, VixError};
use crate::msgpack::{decode_u64s, encode_u64s, msgpack_u64s, msgpack_u64s_decoded};
use vstd::prelude::*;

verus! {

/// A key/value pair as plain bytes.
pub type KeyValue = (Vec<u8>, Vec<u8>);

/// The size of a block header: magic, length checksum, length, content checksum.
pub const BLOCK_HEADER_SIZE: usize = 20;

/// The size of the metadata header: magic, checksum, content length.
pub const METADATA_HEADER_SIZE: usize = 16;

/// The size of the footer: magic, checksum, metadata offset.
pub const FOOTER_SIZE: usize = 16;

/// `BLCK`
pub open spec fn block_magic() -> Seq<u8> {
    seq![66u8, 76u8, 67u8, 75u8]
}

/// `META`
pub open spec fn metadata_magic() -> Seq<u8> {
    seq![77u8, 69u8, 84u8, 65u8]
}

/// `FOOT`
pub open spec fn footer_magic() -> Seq<u8> {
    seq![70u8, 79u8, 79u8, 84u8]
}

pub(crate) fn block_magic_bytes() -> (r: Vec<u8>)
    ensures
        r@ == block_magic(),
{
    let r = vec![66u8, 76u8, 67u8, 75u8];
    assert(r@ =~= block_magic());
    r
}

pub(crate) fn metadata_magic_bytes() -> (r: Vec<u8>)
    ensures
        r@ == metadata_magic(),
{
    let r = vec![77u8, 69u8, 84u8, 65u8];
    assert(r@ =~= metadata_magic());
    r
}

fn footer_magic_bytes() -> (r: Vec<u8>)
    ensures
        r@ == footer_magic(),
{
    let r = vec![70u8, 79u8, 79u8, 84u8];
    assert(r@ =~= footer_magic());
    r
}

/// The pairs of a vector, as byte sequences.
pub open spec fn kv_view(kvs: Seq<KeyValue>) -> Seq<(Seq<u8>, Seq<u8>)> {
    kvs.map_values(|p: KeyValue| (p.0@, p.1@))
}

/// One pair in a block: key length, value length, key, value.
pub open spec fn kv_bytes(kv: (Seq<u8>, Seq<u8>)) -> Seq<u8> {
    le64(kv.0.len() as u64) + le64(kv.1.len() as u64) + kv.0 + kv.1
}

/// The pairs one after the other.
pub open spec fn kvs_bytes(kvs: Seq<(Seq<u8>, Seq<u8>)>) -> Seq<u8>
    decreases kvs.len(),
{
    if kvs.len() == 0 {
        Seq::empty()
    } else {
        kvs_bytes(kvs.drop_last()) + kv_bytes(kvs.last())
    }
}

/// The pairs that block content holds, or `None` where it does not split into whole pairs.
pub open spec fn parse_kvs(s: Seq<u8>) -> Option<Seq<(Seq<u8>, Seq<u8>)>>
    decreases s.len(),
{
    if s.len() == 0 {
        Some(Seq::empty())
    } else if s.len() < 16 {
        None
    } else {
        let kl = u64_at(s, 0) as int;
        let vl = u64_at(s, 8) as int;
        if 16 + kl + vl > s.len() {
            None
        } else {
            match parse_kvs(s.subrange(16 + kl + vl, s.len() as int)) {
                Some(rest) => Some(seq![(s.subrange(16, 16 + kl), s.subrange(16 + kl, 16 + kl + vl))] + rest),
                None => None,
            }
        }
    }
}

/// A whole block around `content`.
pub open spec fn block_bytes(content: Seq<u8>) -> Seq<u8> {
    block_magic() + le32(crc32(le64(content.len() as u64))) + le64(content.len() as u64) + le32(
        crc32(content),
    ) + content
}

/// A pair's keys and values have lengths that a `u64` holds.
pub open spec fn kvs_fit(kvs: Seq<(Seq<u8>, Seq<u8>)>) -> bool {
    forall|i: int| 0 <= i < kvs.len() ==> #[trigger] kvs[i].0.len() <= u64::MAX && kvs[i].1.len() <= u64::MAX
}

/// The bytes of a non-empty sequence of pairs start with its first pair.
pub proof fn lemma_kvs_bytes_first(kvs: Seq<(Seq<u8>, Seq<u8>)>)
    requires
        kvs.len() > 0,
    ensures
        kvs_bytes(kvs) == kv_bytes(kvs[0]) + kvs_bytes(kvs.drop_first()),
    decreases kvs.len(),
{
    if kvs.len() == 1 {
        assert(kvs.drop_last() =~= Seq::<(Seq<u8>, Seq<u8>)>::empty());
        assert(kvs.drop_first() =~= Seq::<(Seq<u8>, Seq<u8>)>::empty());
        assert(kvs_bytes(kvs) =~= kv_bytes(kvs[0]) + kvs_bytes(kvs.drop_first()));
    } else {
        lemma_kvs_bytes_first(kvs.drop_last());
        assert(kvs.drop_last().drop_first() =~= kvs.drop_first().drop_last());
        assert(kvs.drop_first().last() == kvs.last());
        assert(kvs_bytes(kvs) =~= kv_bytes(kvs[0]) + kvs_bytes(kvs.drop_first()));
    }
}

/// Pushing a pair appends its bytes.
pub proof fn lemma_kvs_bytes_push(kvs: Seq<(Seq<u8>, Seq<u8>)>, kv: (Seq<u8>, Seq<u8>))
    ensures
        kvs_bytes(kvs.push(kv)) == kvs_bytes(kvs) + kv_bytes(kv),
{
    assert(kvs.push(kv).drop_last() =~= kvs);
}

/// The bytes of pairs are empty exactly when there are no pairs.
pub proof fn lemma_kvs_bytes_len(kvs: Seq<(Seq<u8>, Seq<u8>)>)
    ensures
        kvs_bytes(kvs).len() >= 16 * kvs.len(),
        kvs_bytes(kvs).len() == 0 <==> kvs.len() == 0,
    decreases kvs.len(),
{
    lemma_le_roundtrip();
    if kvs.len() > 0 {
        lemma_kvs_bytes_len(kvs.drop_last());
    }
}

/// Parsing the bytes of pairs gives the pairs back.
pub proof fn lemma_parse_kvs_roundtrip(kvs: Seq<(Seq<u8>, Seq<u8>)>)
    requires
        kvs_fit(kvs),
    ensures
        parse_kvs(kvs_bytes(kvs)) == Some(kvs),
    decreases kvs.len(),
{
    lemma_le_roundtrip();
    if kvs.len() == 0 {
        assert(kvs_bytes(kvs) =~= Seq::<u8>::empty());
        assert(kvs =~= Seq::<(Seq<u8>, Seq<u8>)>::empty());
    } else {
        lemma_kvs_bytes_first(kvs);
        let k = kvs[0].0;
        let v = kvs[0].1;
        let rest = kvs.drop_first();
        assert(kvs_fit(rest)) by {
            assert forall|i: int| 0 <= i < rest.len() implies #[trigger] rest[i].0.len() <= u64::MAX
                && rest[i].1.len() <= u64::MAX by {
                assert(rest[i] == kvs[i + 1]);
            }
        }
        lemma_parse_kvs_roundtrip(rest);
        let s = kvs_bytes(kvs);
        let kl = k.len() as u64;
        let vl = v.len() as u64;
        assert(kvs[0].0.len() <= u64::MAX);
        assert(s.subrange(0, 8) =~= le64(kl));
        assert(s.subrange(8, 16) =~= le64(vl));
        assert(u64_at(s, 0) == kl);
        assert(u64_at(s, 8) == vl);
        let n: int = 16 + k.len() as int + v.len() as int;
        assert(s.subrange(16, 16 + k.len() as int) =~= k);
        assert(s.subrange(16 + k.len() as int, n) =~= v);
        assert(s.subrange(n, s.len() as int) =~= kvs_bytes(rest));
        assert(seq![(k, v)] + rest =~= kvs);
    }
}

/// The whole block around `content`, as `write_document_block` lays it out.
pub fn encode_document_block(content: &[u8]) -> (r: Vec<u8>)
    ensures
        r@ == block_bytes(content@),
{
    let len_bytes = vstd::bytes::u64_to_le_bytes(content.len() as u64);
    let len_checksum = crc32_hash(len_bytes.as_slice());
    let content_checksum = crc32_hash(content);
    let mut buf = block_magic_bytes();
    append_u32(&mut buf, len_checksum);
    append_bytes(&mut buf, len_bytes.as_slice());
    append_u32(&mut buf, content_checksum);
    append_bytes(&mut buf, content);
    buf
}

/// What a block header says of the content that follows it.
#[derive(Clone, Copy, Debug)]
pub struct BlockHeader {
    pub content_len: u64,
    pub content_hash: u32,
}

/// A block header holds the block magic and the checksum of its content length.
pub open spec fn block_header_ok(h: Seq<u8>) -> bool {
    &&& h.subrange(0, 4) == block_magic()
    &&& u32_at(h, 4) == crc32(h.subrange(8, 16))
}

/// Checks a block header: its magic and the checksum of the content length. On success
/// it gives the content length and the content's expected checksum.
pub fn check_block_header(header: &[u8]) -> (r: Result<BlockHeader, VixError>)
    requires
        header@.len() == BLOCK_HEADER_SIZE,
    ensures
        match r {
            Ok(h) => {
                &&& block_header_ok(header@)
                &&& h.content_len == u64_at(header@, 8)
                &&& h.content_hash == u32_at(header@, 16)
            },
            Err(e) => !block_header_ok(header@) && e.code == Code::FatalError,
        },
{
    let magic = block_magic_bytes();
    if !bytes_equal_at(header, 0, magic.as_slice()) {
        return Err(VixError::new(Code::FatalError, "invalid block format: bad block magic"));
    }
    let expected_len_hash = read_u32(header, 4);
    let len_buf = vstd::slice::slice_subrange(header, 8, 16);
    if expected_len_hash != crc32_hash(len_buf) {
        return Err(
            VixError::new(Code::FatalError, "invalid block format: content length hash mismatch"),
        );
    }
    Ok(BlockHeader { content_len: read_u64(header, 8), content_hash: read_u32(header, 16) })
}

/// Splits block content into its pairs; `None` where the content does not split into
/// whole pairs.
fn parse_kv_pairs(s: &[u8]) -> (r: Option<Vec<KeyValue>>)
    ensures
        match r {
            Some(v) => parse_kvs(s@) == Some(kv_view(v@)),
            None => parse_kvs(s@) is None,
        },
{
    let n = s.len();
    let mut out: Vec<KeyValue> = Vec::new();
    let mut off: usize = 0;
    assert(s@.subrange(0, n as int) =~= s@);
    assert(kv_view(out@) =~= Seq::<(Seq<u8>, Seq<u8>)>::empty());
    while off < n
        invariant
            off <= n,
            n == s@.len(),
            parse_kvs(s@) == (match parse_kvs(s@.subrange(off as int, n as int)) {
                Some(rest) => Some(kv_view(out@) + rest),
                None => None,
            }),
        decreases n - off,
    {
        let ghost t = s@.subrange(off as int, n as int);
        if n - off < 16 {
            return None;
        }
        let kl = read_u64(s, off);
        let vl = read_u64(s, off + 8);
        assert(t.subrange(0, 8) =~= s@.subrange(off as int, off + 8));
        assert(t.subrange(8, 16) =~= s@.subrange(off + 8, off + 16));
        let remain = (n - off - 16) as u64;
        if kl > remain || vl > remain - kl {
            return None;
        }
        let kl_u = kl as usize;
        let vl_u = vl as usize;
        let key = copy_range(s, off + 16, off + 16 + kl_u);
        let value = copy_range(s, off + 16 + kl_u, off + 16 + kl_u + vl_u);
        let next = off + 16 + kl_u + vl_u;
        assert(t.subrange(16, 16 + kl as int) =~= key@);
        assert(t.subrange(16 + kl as int, 16 + kl + vl) =~= value@);
        assert(t.subrange(16 + kl + vl, t.len() as int) =~= s@.subrange(next as int, n as int));
        let ghost old_out = out@;
        out.push((key, value));
        assert(kv_view(out@) =~= kv_view(old_out).push((key@, value@)));
        assert(kv_view(old_out) + (seq![(key@, value@)] + parse_kvs(
            s@.subrange(next as int, n as int),
        )->0) =~= kv_view(out@) + parse_kvs(s@.subrange(next as int, n as int))->0);
        off = next;
    }
    assert(s@.subrange(n as int, n as int) =~= Seq::<u8>::empty());
    assert(kv_view(out@) + Seq::<(Seq<u8>, Seq<u8>)>::empty() =~= kv_view(out@));
    Some(out)
}

/// Whether block content splits into whole pairs.
pub fn kv_content_well_formed(content: &[u8]) -> (r: bool)
    ensures
        r == parse_kvs(content@) is Some,
{
    match parse_kv_pairs(content) {
        Some(_) => true,
        None => false,
    }
}

/// Checks block content against the checksum from its header, then splits it into its
/// pairs, as `get_values_from_block` does after reading the block.
pub fn decode_block_content(expected_hash: u32, content: &[u8]) -> (r: Result<
    Vec<KeyValue>,
    VixError,
>)
    ensures
        match r {
            Ok(v) => crc32(content@) == expected_hash && parse_kvs(content@) == Some(kv_view(v@)),
            Err(e) => (crc32(content@) != expected_hash || parse_kvs(content@) is None) && e.code
                == Code::FatalError,
        },
{
    if expected_hash != crc32_hash(content) {
        return Err(VixError::new(Code::FatalError, "invalid block format: content hash mismatch"));
    }
    match parse_kv_pairs(content) {
        Some(v) => Ok(v),
        None => Err(VixError::new(Code::FatalError, "invalid block format: bad content")),
    }
}


/// How `write_documents` groups sorted pairs into blocks: before each pair, the block
/// being filled is closed when its content has reached `min` bytes; at the end a
/// non-empty block is closed. `cur` is the block being filled.
pub open spec fn split_runs(
    kvs: Seq<(Seq<u8>, Seq<u8>)>,
    min: nat,
    cur: Seq<(Seq<u8>, Seq<u8>)>,
) -> Seq<Seq<(Seq<u8>, Seq<u8>)>>
    decreases kvs.len(),
{
    if kvs.len() == 0 {
        if kvs_bytes(cur).len() > 0 {
            seq![cur]
        } else {
            Seq::empty()
        }
    } else if kvs_bytes(cur).len() >= min {
        seq![cur] + split_runs(kvs.drop_first(), min, seq![kvs[0]])
    } else {
        split_runs(kvs.drop_first(), min, cur.push(kvs[0]))
    }
}

/// The pairs of each block of a segment, in order.
pub open spec fn document_runs(kvs: Seq<(Seq<u8>, Seq<u8>)>, min: nat) -> Seq<
    Seq<(Seq<u8>, Seq<u8>)>,
> {
    split_runs(kvs, min, Seq::empty())
}

/// The blocks of the given runs, one after the other.
pub open spec fn blocks_bytes(runs: Seq<Seq<(Seq<u8>, Seq<u8>)>>) -> Seq<u8>
    decreases runs.len(),
{
    if runs.len() == 0 {
        Seq::empty()
    } else {
        blocks_bytes(runs.drop_last()) + block_bytes(kvs_bytes(runs.last()))
    }
}

/// Where each block of the given runs starts.
pub open spec fn blocks_offsets(runs: Seq<Seq<(Seq<u8>, Seq<u8>)>>) -> Seq<u64>
    decreases runs.len(),
{
    if runs.len() == 0 {
        Seq::empty()
    } else {
        blocks_offsets(runs.drop_last()).push(blocks_bytes(runs.drop_last()).len() as u64)
    }
}

/// The document blocks of a segment and where each starts.
#[derive(Debug)]
pub struct DocumentLayout {
    pub bytes: Vec<u8>,
    pub block_offsets: Vec<u64>,
}

proof fn lemma_split_runs_step(
    kvs: Seq<(Seq<u8>, Seq<u8>)>,
    i: int,
    min: nat,
    cur: Seq<(Seq<u8>, Seq<u8>)>,
)
    requires
        0 <= i < kvs.len(),
    ensures
        kvs_bytes(cur).len() >= min ==> split_runs(kvs.skip(i), min, cur) == seq![cur]
            + split_runs(kvs.skip(i + 1), min, seq![kvs[i]]),
        kvs_bytes(cur).len() < min ==> split_runs(kvs.skip(i), min, cur) == split_runs(
            kvs.skip(i + 1),
            min,
            cur.push(kvs[i]),
        ),
{
    assert(kvs.skip(i).drop_first() =~= kvs.skip(i + 1));
    assert(kvs.skip(i)[0] == kvs[i]);
}

/// Groups sorted pairs into document blocks and lays the blocks out one after the
/// other from offset 0, as `write_documents` writes them. The metadata record follows
/// at `bytes.len()`.
pub fn layout_documents(kv_pairs: &Vec<KeyValue>, min_content_size: usize) -> (r: DocumentLayout)
    ensures
        r.bytes@ == blocks_bytes(document_runs(kv_view(kv_pairs@), min_content_size as nat)),
        r.block_offsets@ == blocks_offsets(document_runs(kv_view(kv_pairs@), min_content_size as nat)),
{
    let ghost kvs = kv_view(kv_pairs@);
    let ghost min = min_content_size as nat;
    let mut out: Vec<u8> = Vec::new();
    let mut offsets: Vec<u64> = Vec::new();
    let mut content: Vec<u8> = Vec::new();
    let ghost mut emitted: Seq<Seq<(Seq<u8>, Seq<u8>)>> = Seq::empty();
    let ghost mut cur: Seq<(Seq<u8>, Seq<u8>)> = Seq::empty();
    assert(kvs.skip(0) =~= kvs);
    assert(emitted + split_runs(kvs.skip(0), min, cur) =~= document_runs(kvs, min));
    let n = kv_pairs.len();
    let mut i: usize = 0;
    while i < n
        invariant
            n == kv_pairs@.len(),
            i <= n,
            kvs == kv_view(kv_pairs@),
            min == min_content_size as nat,
            out@ == blocks_bytes(emitted),
            offsets@ == blocks_offsets(emitted),
            content@ == kvs_bytes(cur),
            document_runs(kvs, min) == emitted + split_runs(kvs.skip(i as int), min, cur),
        decreases n - i,
    {
        proof {
            lemma_split_runs_step(kvs, i as int, min, cur);
        }
        if content.len() >= min_content_size {
            let block = encode_document_block(content.as_slice());
            proof {
                assert(emitted.push(cur).drop_last() =~= emitted);
                assert(emitted + (seq![cur] + split_runs(kvs.skip(i + 1), min, seq![kvs[i as int]]))
                    =~= emitted.push(cur) + split_runs(kvs.skip(i + 1), min, seq![kvs[i as int]]));
                emitted = emitted.push(cur);
                cur = Seq::empty();
            }
            offsets.push(out.len() as u64);
            append_bytes(&mut out, block.as_slice());
            content = Vec::new();
            assert(content@ =~= kvs_bytes(cur));
        }
        let pair = &kv_pairs[i];
        append_u64(&mut content, pair.0.len() as u64);
        append_u64(&mut content, pair.1.len() as u64);
        append_bytes(&mut content, pair.0.as_slice());
        append_bytes(&mut content, pair.1.as_slice());
        proof {
            assert(kvs[i as int] == (pair.0@, pair.1@));
            lemma_kvs_bytes_push(cur, kvs[i as int]);
            assert(content@ =~= kvs_bytes(cur.push(kvs[i as int])));
            cur = cur.push(kvs[i as int]);
        }
        i = i + 1;
    }
    assert(kvs.skip(n as int) =~= Seq::<(Seq<u8>, Seq<u8>)>::empty());
    if content.len() > 0 {
        let block = encode_document_block(content.as_slice());
        proof {
            assert(emitted.push(cur).drop_last() =~= emitted);
            assert(emitted + seq![cur] =~= emitted.push(cur));
            emitted = emitted.push(cur);
        }
        offsets.push(out.len() as u64);
        append_bytes(&mut out, block.as_slice());
    } else {
        assert(emitted + Seq::<Seq<(Seq<u8>, Seq<u8>)>>::empty() =~= emitted);
    }
    DocumentLayout { bytes: out, block_offsets: offsets }
}


/// Words as their little-endian bytes, one after the other.
pub open spec fn words_bytes(words: Seq<u64>) -> Seq<u8>
    decreases words.len(),
{
    if words.len() == 0 {
        Seq::empty()
    } else {
        words_bytes(words.drop_last()) + le64(words.last())
    }
}

/// The whole 8-byte words of `b`, read little-endian; trailing bytes are ignored.
pub open spec fn words_of(b: Seq<u8>) -> Seq<u64> {
    Seq::new(b.len() / 8, |i: int| u64_at(b, 8 * i))
}

/// The body of the metadata record: the encoded block offsets, the filter's hash count,
/// the filter's bits, the smallest key and the biggest key, each variable part after its
/// length.
pub open spec fn metadata_body(
    offsets_bytes: Seq<u8>,
    hash_cnt: u32,
    filter_bytes: Seq<u8>,
    smallest: Seq<u8>,
    biggest: Seq<u8>,
) -> Seq<u8> {
    le64(offsets_bytes.len() as u64) + offsets_bytes + le32(hash_cnt) + le64(
        filter_bytes.len() as u64,
    ) + filter_bytes + le64(smallest.len() as u64) + smallest + le64(biggest.len() as u64)
        + biggest
}

/// The metadata record: `META`, the checksum of length and body, the body's length, the
/// body.
pub open spec fn metadata_bytes(body: Seq<u8>) -> Seq<u8> {
    metadata_magic() + le32(crc32(le64(body.len() as u64) + body)) + le64(body.len() as u64)
        + body
}

/// The parts of a metadata body: encoded offsets, hash count, filter bytes, smallest and
/// biggest key; `None` where a part runs past the end.
pub open spec fn parse_metadata_body(c: Seq<u8>) -> Option<(Seq<u8>, u32, Seq<u8>, Seq<u8>, Seq<u8>)> {
    if c.len() < 8 {
        None
    } else {
        let p1 = 8 + u64_at(c, 0) as int;
        if p1 + 4 > c.len() {
            None
        } else {
            let p2 = p1 + 4;
            if p2 + 8 > c.len() {
                None
            } else {
                let p3 = p2 + 8;
                let p4 = p3 + u64_at(c, p2) as int;
                if p4 + 8 > c.len() {
                    None
                } else {
                    let p5 = p4 + 8;
                    let p6 = p5 + u64_at(c, p4) as int;
                    if p6 + 8 > c.len() {
                        None
                    } else {
                        let p7 = p6 + 8;
                        let p8 = p7 + u64_at(c, p6) as int;
                        if p8 > c.len() {
                            None
                        } else {
                            Some(
                                (
                                    c.subrange(8, p1),
                                    u32_at(c, p1),
                                    c.subrange(p3, p4),
                                    c.subrange(p5, p6),
                                    c.subrange(p7, p8),
                                ),
                            )
                        }
                    }
                }
            }
        }
    }
}

/// A metadata body whose parts are all there and whose offsets decode.
pub open spec fn metadata_well_formed(c: Seq<u8>) -> bool {
    match parse_metadata_body(c) {
        Some((o, _, _, _, _)) => msgpack_u64s_decoded(o) is Some,
        None => false,
    }
}

/// What a segment's metadata record holds.
#[derive(Debug)]
pub struct SegmentMetadata {
    pub key_block_offsets: Vec<u64>,
    pub filter_hash_cnt: u32,
    pub filter_bits: Vec<u64>,
    pub smallest_key: Vec<u8>,
    pub biggest_key: Vec<u8>,
}

fn encode_words(words: &Vec<u64>) -> (r: Vec<u8>)
    ensures
        r@ == words_bytes(words@),
{
    let mut r: Vec<u8> = Vec::new();
    let mut i: usize = 0;
    while i < words.len()
        invariant
            i <= words@.len(),
            r@ == words_bytes(words@.subrange(0, i as int)),
        decreases words@.len() - i,
    {
        append_u64(&mut r, words[i]);
        i = i + 1;
        assert(words@.subrange(0, i as int).drop_last() =~= words@.subrange(0, i - 1));
    }
    assert(words@.subrange(0, words@.len() as int) =~= words@);
    r
}

/// The metadata record of a segment, as `write_metadata` lays it out: the block
/// offsets, the key filter's hash count and bits, and the first and last key of the
/// sorted pairs. It fails when there are no pairs.
pub fn encode_metadata(
    kv_pairs: &Vec<KeyValue>,
    block_offsets: &Vec<u64>,
    filter_hash_cnt: u32,
    filter_bits: &Vec<u64>,
) -> (r: Result<Vec<u8>, VixError>)
    ensures
        match r {
            Ok(b) => {
                &&& kv_pairs@.len() > 0
                &&& block_offsets@.len() < 0x1_0000_0000 ==> msgpack_u64s_decoded(msgpack_u64s(block_offsets@)) == Some(block_offsets@)
                &&& b@ == metadata_bytes(
                    metadata_body(
                        msgpack_u64s(block_offsets@),
                        filter_hash_cnt,
                        words_bytes(filter_bits@),
                        kv_pairs@[0].0@,
                        kv_pairs@.last().0@,
                    ),
                )
            },
            Err(e) => kv_pairs@.len() == 0 && e.code == Code::FatalError,
        },
{
    if kv_pairs.len() == 0 {
        return Err(VixError::new(Code::FatalError, "invalid first key"));
    }
    let smallest = &kv_pairs[0].0;
    let biggest = &kv_pairs[kv_pairs.len() - 1].0;
    Ok(encode_metadata_record(block_offsets, filter_hash_cnt, filter_bits, smallest.as_slice(), biggest.as_slice()))
}

/// The metadata record for the given parts: `META`, the checksum of what follows it, the
/// body's length and the body.
pub fn encode_metadata_record(
    block_offsets: &Vec<u64>,
    filter_hash_cnt: u32,
    filter_bits: &Vec<u64>,
    smallest: &[u8],
    biggest: &[u8],
) -> (r: Vec<u8>)
    ensures
        block_offsets@.len() < 0x1_0000_0000 ==> msgpack_u64s_decoded(msgpack_u64s(block_offsets@)) == Some(block_offsets@),
        r@ == metadata_bytes(
            metadata_body(
                msgpack_u64s(block_offsets@),
                filter_hash_cnt,
                words_bytes(filter_bits@),
                smallest@,
                biggest@,
            ),
        ),
{
    let offsets_bytes = encode_u64s(block_offsets);
    let filter_bytes = encode_words(filter_bits);
    let mut body: Vec<u8> = Vec::new();
    append_u64(&mut body, offsets_bytes.len() as u64);
    append_bytes(&mut body, offsets_bytes.as_slice());
    append_u32(&mut body, filter_hash_cnt);
    append_u64(&mut body, filter_bytes.len() as u64);
    append_bytes(&mut body, filter_bytes.as_slice());
    append_u64(&mut body, smallest.len() as u64);
    append_bytes(&mut body, smallest);
    append_u64(&mut body, biggest.len() as u64);
    append_bytes(&mut body, biggest);
    let mut checked: Vec<u8> = Vec::new();
    append_u64(&mut checked, body.len() as u64);
    append_bytes(&mut checked, body.as_slice());
    let checksum = crc32_hash(checked.as_slice());
    let mut buf = metadata_magic_bytes();
    append_u32(&mut buf, checksum);
    append_bytes(&mut buf, checked.as_slice());
    assert(buf@ =~= metadata_bytes(body@));
    buf
}

/// What the metadata header says of the body that follows it.
#[derive(Clone, Copy, Debug)]
pub struct MetadataHeader {
    pub expected_hash: u32,
    pub content_len: u64,
}

/// Checks the magic of a metadata header and gives the body's expected checksum and
/// length.
pub fn check_metadata_header(header: &[u8]) -> (r: Result<MetadataHeader, VixError>)
    requires
        header@.len() == METADATA_HEADER_SIZE,
    ensures
        match r {
            Ok(h) => {
                &&& header@.subrange(0, 4) == metadata_magic()
                &&& h.expected_hash == u32_at(header@, 4)
                &&& h.content_len == u64_at(header@, 8)
            },
            Err(e) => header@.subrange(0, 4) != metadata_magic() && e.code == Code::FatalError,
        },
{
    let magic = metadata_magic_bytes();
    if !bytes_equal_at(header, 0, magic.as_slice()) {
        return Err(VixError::new(Code::FatalError, "invalid block format: bad metadata magic"));
    }
    Ok(MetadataHeader { expected_hash: read_u32(header, 4), content_len: read_u64(header, 8) })
}

/// Reads a length field at `pos` and the bytes it counts after it; `None` where either
/// runs past the end.
fn take_counted(c: &[u8], pos: usize) -> (r: Option<(Vec<u8>, usize)>)
    requires
        pos <= c@.len(),
    ensures
        match r {
            Some((v, next)) => {
                &&& pos + 8 <= c@.len()
                &&& next == pos + 8 + u64_at(c@, pos as int)
                &&& next <= c@.len()
                &&& v@ == c@.subrange(pos + 8, next as int)
            },
            None => pos + 8 > c@.len() || pos + 8 + u64_at(c@, pos as int) > c@.len(),
        },
{
    let n = c.len();
    if n - pos < 8 {
        return None;
    }
    let len = read_u64(c, pos);
    if len > (n - pos - 8) as u64 {
        return None;
    }
    let next = pos + 8 + len as usize;
    Some((copy_range(c, pos + 8, next), next))
}

/// Splits a metadata body into its parts; `None` where a part runs past the end.
fn parse_metadata_parts(c: &[u8]) -> (r: Option<(Vec<u8>, u32, Vec<u8>, Vec<u8>, Vec<u8>)>)
    ensures
        match r {
            Some((o, h, f, s, b)) => parse_metadata_body(c@) == Some((o@, h, f@, s@, b@)),
            None => parse_metadata_body(c@) is None,
        },
{
    let n = c.len();
    let (offsets_bytes, p1) = match take_counted(c, 0) {
        Some(x) => x,
        None => return None,
    };
    if n - p1 < 4 {
        return None;
    }
    let hash_cnt = read_u32(c, p1);
    let (filter_bytes, p4) = match take_counted(c, p1 + 4) {
        Some(x) => x,
        None => return None,
    };
    let (smallest, p6) = match take_counted(c, p4) {
        Some(x) => x,
        None => return None,
    };
    let (biggest, _p8) = match take_counted(c, p6) {
        Some(x) => x,
        None => return None,
    };
    Some((offsets_bytes, hash_cnt, filter_bytes, smallest, biggest))
}

/// Whether a metadata body has all its parts and its offsets decode.
pub fn metadata_body_well_formed(content: &[u8]) -> (r: bool)
    ensures
        r == metadata_well_formed(content@),
{
    match parse_metadata_parts(content) {
        Some((o, _, _, _, _)) => decode_u64s(o.as_slice()).is_some(),
        None => false,
    }
}

fn decode_words(b: &[u8]) -> (r: Vec<u64>)
    ensures
        r@ == words_of(b@),
{
    let bl = b.len();
    let n = bl / 8;
    let mut r: Vec<u64> = Vec::new();
    let mut i: usize = 0;
    while i < n
        invariant
            bl == b@.len(),
            n == b@.len() / 8,
            i <= n,
            r@ == words_of(b@).subrange(0, i as int),
        decreases n - i,
    {
        assert(8 * i + 8 <= b@.len()) by (nonlinear_arith)
            requires
                i < n,
                n == b@.len() / 8,
        ;
        let w = read_u64(b, 8 * i);
        r.push(w);
        i = i + 1;
        assert(r@ =~= words_of(b@).subrange(0, i as int));
    }
    assert(words_of(b@).subrange(0, n as int) =~= words_of(b@));
    r
}

/// Checks a metadata body against the header's checksum, which covers the length field
/// and the body, and then reads its parts, as `get_metadata` does after reading the body.
pub fn decode_metadata_body(header: MetadataHeader, content: &[u8]) -> (r: Result<
    SegmentMetadata,
    VixError,
>)
    ensures
        match r {
            Ok(m) => {
                &&& crc32(le64(header.content_len) + content@) == header.expected_hash
                &&& parse_metadata_body(content@) matches Some((o, h, f, s, b))
                &&& msgpack_u64s_decoded(o) == Some(m.key_block_offsets@)
                &&& m.filter_hash_cnt == h
                &&& m.filter_bits@ == words_of(f)
                &&& m.smallest_key@ == s
                &&& m.biggest_key@ == b
            },
            Err(e) => (crc32(le64(header.content_len) + content@) != header.expected_hash
                || !metadata_well_formed(content@)) && e.code == Code::FatalError,
        },
{
    let mut checked: Vec<u8> = Vec::new();
    append_u64(&mut checked, header.content_len);
    append_bytes(&mut checked, content);
    assert(checked@ =~= le64(header.content_len) + content@);
    if header.expected_hash != crc32_hash(checked.as_slice()) {
        return Err(
            VixError::new(Code::FatalError, "invalid block format: metadata hash mismatch"),
        );
    }
    let (offsets_bytes, hash_cnt, filter_bytes, smallest, biggest) = match parse_metadata_parts(
        content,
    ) {
        Some(x) => x,
        None => return Err(VixError::new(Code::FatalError, "invalid block format: bad metadata")),
    };
    let offsets = match decode_u64s(offsets_bytes.as_slice()) {
        Some(o) => o,
        None => return Err(VixError::new(Code::FatalError, "invalid block format: bad offsets")),
    };
    let filter_bits = decode_words(filter_bytes.as_slice());
    Ok(
        SegmentMetadata {
            key_block_offsets: offsets,
            filter_hash_cnt: hash_cnt,
            filter_bits,
            smallest_key: smallest,
            biggest_key: biggest,
        },
    )
}

/// The footer: `FOOT`, the checksum of the metadata offset, the metadata offset.
pub open spec fn footer_bytes(metadata_offset: u64) -> Seq<u8> {
    footer_magic() + le32(crc32(le64(metadata_offset))) + le64(metadata_offset)
}

/// A footer holds the footer magic and the checksum of the offset it stores.
pub open spec fn footer_ok(f: Seq<u8>) -> bool {
    &&& f.subrange(0, 4) == footer_magic()
    &&& u32_at(f, 4) == crc32(f.subrange(8, 16))
}

/// The footer that points at the metadata record, as `write_footer` lays it out.
pub fn encode_footer(metadata_offset: u64) -> (r: Vec<u8>)
    ensures
        r@ == footer_bytes(metadata_offset),
{
    let offset_bytes = vstd::bytes::u64_to_le_bytes(metadata_offset);
    let checksum = crc32_hash(offset_bytes.as_slice());
    let mut buf = footer_magic_bytes();
    append_u32(&mut buf, checksum);
    append_bytes(&mut buf, offset_bytes.as_slice());
    buf
}

/// Where the footer starts in a segment of `size` bytes; an error when the segment is
/// shorter than a footer.
pub fn footer_offset(size: u64) -> (r: Result<u64, VixError>)
    ensures
        match r {
            Ok(o) => size >= FOOTER_SIZE && o == size - FOOTER_SIZE,
            Err(e) => size < FOOTER_SIZE && e.code == Code::FatalError,
        },
{
    if size < FOOTER_SIZE as u64 {
        return Err(
            VixError::new(Code::FatalError, "invalid block format: size is under footer size"),
        );
    }
    Ok(size - FOOTER_SIZE as u64)
}

/// Checks the footer's magic and checksum and gives the metadata offset it stores.
pub fn decode_footer(footer: &[u8]) -> (r: Result<u64, VixError>)
    requires
        footer@.len() == FOOTER_SIZE,
    ensures
        match r {
            Ok(o) => footer_ok(footer@) && o == u64_at(footer@, 8),
            Err(e) => !footer_ok(footer@) && e.code == Code::FatalError,
        },
{
    let magic = footer_magic_bytes();
    if !bytes_equal_at(footer, 0, magic.as_slice()) {
        return Err(VixError::new(Code::FatalError, "invalid block format: bad footer magic"));
    }
    let expected = read_u32(footer, 4);
    let offset_bytes = vstd::slice::slice_subrange(footer, 8, 16);
    if expected != crc32_hash(offset_bytes) {
        return Err(VixError::new(Code::FatalError, "invalid block format: footer hash mismatch"));
    }
    Ok(read_u64(footer, 8))
}

/// The whole segment file for sorted pairs: the document blocks, the metadata record
/// and the footer.
pub open spec fn segment_bytes(
    kvs: Seq<(Seq<u8>, Seq<u8>)>,
    min: nat,
    hash_cnt: u32,
    filter_bits: Seq<u64>,
) -> Seq<u8> {
    let runs = document_runs(kvs, min);
    let docs = blocks_bytes(runs);
    docs + metadata_bytes(
        metadata_body(
            msgpack_u64s(blocks_offsets(runs)),
            hash_cnt,
            words_bytes(filter_bits),
            kvs[0].0,
            kvs.last().0,
        ),
    ) + footer_bytes(docs.len() as u64)
}

/// The file that `flush_segment` writes for the sorted pairs of a buffer: the document
/// blocks from offset 0, then the metadata record, then the footer; with the offsets of
/// the blocks. The key filter's hash count and bits are given. It fails when there are no
/// pairs.
pub fn encode_segment(
    kv_pairs: &Vec<KeyValue>,
    min_content_size: usize,
    filter_hash_cnt: u32,
    filter_bits: &Vec<u64>,
) -> (r: Result<(Vec<u8>, Vec<u64>), VixError>)
    ensures
        match r {
            Ok((b, o)) => {
                let offsets = blocks_offsets(document_runs(kv_view(kv_pairs@), min_content_size as nat));
                &&& kv_pairs@.len() > 0
                &&& b@ == segment_bytes(kv_view(kv_pairs@), min_content_size as nat, filter_hash_cnt, filter_bits@)
                &&& o@ == offsets
                &&& offsets.len() < 0x1_0000_0000 ==> msgpack_u64s_decoded(msgpack_u64s(offsets)) == Some(offsets)
            },
            Err(e) => kv_pairs@.len() == 0 && e.code == Code::FatalError,
        },
{
    let layout = layout_documents(kv_pairs, min_content_size);
    let metadata = encode_metadata(kv_pairs, &layout.block_offsets, filter_hash_cnt, filter_bits)?;
    let footer = encode_footer(layout.bytes.len() as u64);
    let mut file = layout.bytes;
    let ghost docs = file@;
    append_bytes(&mut file, metadata.as_slice());
    append_bytes(&mut file, footer.as_slice());
    proof {
        let kvs = kv_view(kv_pairs@);
        assert(kvs[0].0 == kv_pairs@[0].0@);
        assert(kvs.last().0 == kv_pairs@.last().0@);
    }
    Ok((file, layout.block_offsets))
}

/// A footer that was read whole, holds its magic and checksum, and stores `offset`.
pub open spec fn footer_read(footer: Seq<u8>, offset: u64) -> bool {
    &&& footer.len() == FOOTER_SIZE
    &&& footer_ok(footer)
    &&& offset == u64_at(footer, 8)
}

/// A block whose header and content were read whole, whose header holds its magic and
/// the checksum of the content length, whose content has the length and checksum the
/// header gives, and whose content splits into the pairs `kvs`.
pub open spec fn block_read(header: Seq<u8>, content: Seq<u8>, kvs: Seq<(Seq<u8>, Seq<u8>)>) -> bool {
    &&& header.len() == BLOCK_HEADER_SIZE
    &&& block_header_ok(header)
    &&& content.len() == u64_at(header, 8)
    &&& crc32(content) == u32_at(header, 16)
    &&& parse_kvs(content) == Some(kvs)
}

/// A metadata record whose header and body were read whole, whose header holds its
/// magic, whose body has the length and checksum the header gives, and whose parts are
/// those of `m`.
pub open spec fn metadata_read(header: Seq<u8>, content: Seq<u8>, m: SegmentMetadata) -> bool {
    &&& header.len() == METADATA_HEADER_SIZE
    &&& header.subrange(0, 4) == metadata_magic()
    &&& content.len() == u64_at(header, 8)
    &&& crc32(le64(u64_at(header, 8)) + content) == u32_at(header, 4)
    &&& parse_metadata_body(content) matches Some((o, h, f, s, b))
    &&& msgpack_u64s_decoded(o) == Some(m.key_block_offsets@)
    &&& m.filter_hash_cnt == h
    &&& m.filter_bits@ == words_of(f)
    &&& m.smallest_key@ == s
    &&& m.biggest_key@ == b
}

/// Where the body of a metadata record starts: right after its header, which starts at
/// `metadata_offset`. A fatal error where that passes the largest offset.
pub fn metadata_content_offset(metadata_offset: u64) -> (r: Result<u64, VixError>)
    ensures
        match r {
            Ok(o) => o == metadata_offset + METADATA_HEADER_SIZE,
            Err(e) => metadata_offset + METADATA_HEADER_SIZE > u64::MAX && e.code == Code::FatalError,
        },
{
    match metadata_offset.checked_add(METADATA_HEADER_SIZE as u64) {
        Some(o) => Ok(o),
        None => Err(VixError::new(Code::FatalError, "invalid block format: bad metadata offset")),
    }
}

/// Where the content of a document block starts: right after its header, which starts
/// at `block_offset`. A fatal error where that passes the largest offset.
pub fn block_content_offset(block_offset: u64) -> (r: Result<u64, VixError>)
    ensures
        match r {
            Ok(o) => o == block_offset + BLOCK_HEADER_SIZE,
            Err(e) => block_offset + BLOCK_HEADER_SIZE > u64::MAX && e.code == Code::FatalError,
        },
{
    match block_offset.checked_add(BLOCK_HEADER_SIZE as u64) {
        Some(o) => Ok(o),
        None => Err(VixError::new(Code::FatalError, "invalid block format: bad block offset")),
    }
}

} // verus!
