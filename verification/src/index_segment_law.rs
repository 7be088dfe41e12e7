//! What a reader finds in a segment file of the identifier index that `Writer::write`
//! wrote.
use crate::checksum::crc32;
use crate::codec::{le32, le64, lemma_le_roundtrip, u32_at, u64_at};
use crate::index_segment::{index_blocks_bytes, index_blocks_offsets, index_runs, index_segment_bytes, offsets_part};
use crate::msgpack::{msgpack_u64s, msgpack_u64s_decoded};
use crate::segment::{footer_bytes, footer_magic, footer_ok, metadata_body, metadata_bytes, metadata_magic, parse_metadata_body, words_bytes};
use crate::segment_law::lemma_metadata_body_roundtrip;
use vstd::prelude::*;

verus! {

/// A segment file of the identifier index read back: the footer at its end points at the
/// metadata record; the metadata header carries its magic and the body's length, the body
/// passes the checksum, starts with the encoded block offsets, and gives back the key
/// filter's hash count and bits and the first and last id.
pub proof fn lemma_index_segment_roundtrip(
    es: Seq<(Seq<u8>, Seq<u8>)>,
    min: nat,
    hash_cnt: u32,
    filter_bits: Seq<u64>,
)
    requires
        es.len() > 0,
        index_segment_bytes(es, min, hash_cnt, filter_bits).len() <= u64::MAX,
    ensures
        ({
            let f = index_segment_bytes(es, min, hash_cnt, filter_bits);
            let runs = index_runs(es, min);
            let mo = index_blocks_bytes(runs).len() as int;
            let footer = f.subrange(f.len() - 16, f.len() as int);
            let header = f.subrange(mo, mo + 16);
            let body_len = u64_at(header, 8) as int;
            let body = f.subrange(mo + 16, mo + 16 + body_len);
            &&& f.len() >= 16
            &&& footer_ok(footer)
            &&& u64_at(footer, 8) == mo
            &&& header.subrange(0, 4) == metadata_magic()
            &&& mo + 16 + body_len <= f.len()
            &&& crc32(le64(u64_at(header, 8)) + body) == u32_at(header, 4)
            &&& offsets_part(body) == Some(msgpack_u64s(index_blocks_offsets(runs)))
            &&& parse_metadata_body(body) == Some(
                (
                    msgpack_u64s(index_blocks_offsets(runs)),
                    hash_cnt,
                    words_bytes(filter_bits),
                    es[0].0,
                    es.last().0,
                ),
            )
        }),
{
    lemma_le_roundtrip();
    let f = index_segment_bytes(es, min, hash_cnt, filter_bits);
    let runs = index_runs(es, min);
    let docs = index_blocks_bytes(runs);
    let mo = docs.len() as int;
    let ob = msgpack_u64s(index_blocks_offsets(runs));
    let body = metadata_body(ob, hash_cnt, words_bytes(filter_bits), es[0].0, es.last().0);
    let meta = metadata_bytes(body);
    let foot = footer_bytes(mo as u64);
    assert(f == docs + meta + foot);
    assert(f.subrange(f.len() - 16, f.len() as int) =~= foot);
    assert(foot.subrange(0, 4) =~= footer_magic());
    assert(foot.subrange(4, 8) =~= le32(crc32(le64(mo as u64))));
    assert(foot.subrange(8, 16) =~= le64(mo as u64));
    let header = f.subrange(mo, mo + 16);
    assert(header =~= meta.subrange(0, 16));
    assert(header.subrange(0, 4) =~= metadata_magic());
    assert(header.subrange(4, 8) =~= le32(crc32(le64(body.len() as u64) + body)));
    assert(header.subrange(8, 16) =~= le64(body.len() as u64));
    assert(f.subrange(mo + 16, mo + 16 + body.len() as int) =~= body);
    lemma_metadata_body_roundtrip(ob, hash_cnt, words_bytes(filter_bits), es[0].0, es.last().0);
    assert(body.subrange(0, 8) =~= le64(ob.len() as u64));
    assert(body.subrange(8, 8 + ob.len() as int) =~= ob);
}

/// The block offsets of a segment file of the identifier index read back: where the
/// encoding of the block offsets decodes to the offsets that were encoded (as
/// `Writer::write` reports of the offsets it wrote, for fewer than 2^32 blocks), the body the footer leads to passes
/// its checksum and its offsets part decodes to exactly the written block offsets, which
/// is what `read_block_offsets` then gives back.
pub proof fn lemma_index_offsets_read_back(
    es: Seq<(Seq<u8>, Seq<u8>)>,
    min: nat,
    hash_cnt: u32,
    filter_bits: Seq<u64>,
)
    requires
        es.len() > 0,
        index_segment_bytes(es, min, hash_cnt, filter_bits).len() <= u64::MAX,
        msgpack_u64s_decoded(msgpack_u64s(index_blocks_offsets(index_runs(es, min)))) == Some(
            index_blocks_offsets(index_runs(es, min)),
        ),
    ensures
        ({
            let f = index_segment_bytes(es, min, hash_cnt, filter_bits);
            let mo = index_blocks_bytes(index_runs(es, min)).len() as int;
            let header = f.subrange(mo, mo + 16);
            let body = f.subrange(mo + 16, mo + 16 + u64_at(header, 8) as int);
            &&& u64_at(f.subrange(f.len() - 16, f.len() as int), 8) == mo
            &&& crc32(le64(u64_at(header, 8)) + body) == u32_at(header, 4)
            &&& offsets_part(body) matches Some(p)
            &&& msgpack_u64s_decoded(p) == Some(index_blocks_offsets(index_runs(es, min)))
        }),
{
    lemma_index_segment_roundtrip(es, min, hash_cnt, filter_bits);
}

} // verus!
