//! What a reader finds in a segment file that `encode_segment` wrote.
use crate::checksum::crc32;
use crate::codec::{le32, le64, lemma_le_roundtrip, u32_at, u64_at};
use crate::msgpack::{msgpack_u64s, msgpack_u64s_decoded};
use crate::segment::{
    block_bytes, block_header_ok, block_magic, blocks_bytes, blocks_offsets, document_runs,
    footer_bytes, footer_magic, footer_ok, kvs_bytes, kvs_fit, lemma_kvs_bytes_len,
    lemma_parse_kvs_roundtrip, metadata_body, metadata_bytes, metadata_magic,
    parse_kvs, parse_metadata_body, segment_bytes, split_runs, words_bytes, words_of,
};
use vstd::prelude::*;

verus! {

/// A block's header carries the magic, the content's length and checksum, and the
/// content follows it.
pub proof fn lemma_block_roundtrip(content: Seq<u8>)
    requires
        content.len() <= u64::MAX,
    ensures
        block_bytes(content).len() == 20 + content.len(),
        block_header_ok(block_bytes(content).subrange(0, 20)),
        u64_at(block_bytes(content).subrange(0, 20), 8) == content.len(),
        u32_at(block_bytes(content).subrange(0, 20), 16) == crc32(content),
        block_bytes(content).subrange(20, 20 + content.len() as int) == content,
{
    lemma_le_roundtrip();
    let b = block_bytes(content);
    let h = b.subrange(0, 20);
    let l = le64(content.len() as u64);
    assert(h.subrange(0, 4) =~= block_magic());
    assert(h.subrange(4, 8) =~= le32(crc32(l)));
    assert(h.subrange(8, 16) =~= l);
    assert(h.subrange(16, 20) =~= le32(crc32(content)));
    assert(b.subrange(20, 20 + content.len() as int) =~= content);
}

/// Each block of a run sequence stands at its offset.
pub proof fn lemma_blocks_layout(runs: Seq<Seq<(Seq<u8>, Seq<u8>)>>, i: int)
    requires
        0 <= i < runs.len(),
        blocks_bytes(runs).len() <= u64::MAX,
    ensures
        blocks_offsets(runs).len() == runs.len(),
        blocks_offsets(runs)[i] + block_bytes(kvs_bytes(runs[i])).len() <= blocks_bytes(runs).len(),
        blocks_bytes(runs).subrange(
            blocks_offsets(runs)[i] as int,
            blocks_offsets(runs)[i] + block_bytes(kvs_bytes(runs[i])).len(),
        ) == block_bytes(kvs_bytes(runs[i])),
    decreases runs.len(),
{
    let init = runs.drop_last();
    lemma_offsets_len(runs);
    if i < runs.len() - 1 {
        lemma_blocks_layout(init, i);
        assert(init[i] == runs[i]);
        assert(blocks_offsets(runs)[i] == blocks_offsets(init)[i]);
        let o = blocks_offsets(init)[i] as int;
        let e = o + block_bytes(kvs_bytes(runs[i])).len();
        assert(blocks_bytes(runs).subrange(o, e) =~= blocks_bytes(init).subrange(o, e));
    } else {
        let o = blocks_bytes(init).len();
        assert(blocks_bytes(runs).subrange(o as int, blocks_bytes(runs).len() as int) =~= block_bytes(
            kvs_bytes(runs.last()),
        ));
    }
}

proof fn lemma_offsets_len(runs: Seq<Seq<(Seq<u8>, Seq<u8>)>>)
    ensures
        blocks_offsets(runs).len() == runs.len(),
    decreases runs.len(),
{
    if runs.len() > 0 {
        lemma_offsets_len(runs.drop_last());
    }
}

/// The blocks of a segment hold the sorted pairs, in order: their concatenation is the
/// pairs. Every block holds at least one pair but the first, which is empty when the
/// minimum content size is 0.
pub proof fn lemma_split_runs_flatten(
    kvs: Seq<(Seq<u8>, Seq<u8>)>,
    min: nat,
    cur: Seq<(Seq<u8>, Seq<u8>)>,
)
    ensures
        split_runs(kvs, min, cur).flatten() == cur + kvs,
    decreases kvs.len(),
{
    lemma_kvs_bytes_len(cur);
    if kvs.len() == 0 {
        if kvs_bytes(cur).len() > 0 {
            assert(seq![cur].drop_first() =~= Seq::<Seq<(Seq<u8>, Seq<u8>)>>::empty());
            assert(seq![cur].first() == cur);
            assert(Seq::<Seq<(Seq<u8>, Seq<u8>)>>::empty().flatten() =~= Seq::<(Seq<u8>, Seq<u8>)>::empty());
            assert(seq![cur].flatten() =~= cur + kvs);
        } else {
            assert(cur + kvs =~= Seq::<(Seq<u8>, Seq<u8>)>::empty());
        }
    } else if kvs_bytes(cur).len() >= min {
        lemma_split_runs_flatten(kvs.drop_first(), min, seq![kvs[0]]);
        let rest = split_runs(kvs.drop_first(), min, seq![kvs[0]]);
        assert((seq![cur] + rest).drop_first() =~= rest);
        assert(seq![kvs[0]] + kvs.drop_first() =~= kvs);
        assert((seq![cur] + rest).flatten() =~= cur + kvs);
    } else {
        lemma_split_runs_flatten(kvs.drop_first(), min, cur.push(kvs[0]));
        assert(cur.push(kvs[0]) + kvs.drop_first() =~= cur + kvs);
    }
}

proof fn lemma_split_runs_fit(kvs: Seq<(Seq<u8>, Seq<u8>)>, min: nat, cur: Seq<(Seq<u8>, Seq<u8>)>)
    requires
        kvs_fit(kvs),
        kvs_fit(cur),
    ensures
        forall|i: int| 0 <= i < split_runs(kvs, min, cur).len() ==> kvs_fit(#[trigger] split_runs(kvs, min, cur)[i]),
    decreases kvs.len(),
{
    if kvs.len() == 0 {
        if kvs_bytes(cur).len() > 0 {
            assert(split_runs(kvs, min, cur) == seq![cur]);
            assert(seq![cur][0] == cur);
            assert(forall|i: int| 0 <= i < split_runs(kvs, min, cur).len() ==> kvs_fit(#[trigger] split_runs(kvs, min, cur)[i]));
        } else {
            assert(split_runs(kvs, min, cur).len() == 0);
        }
    } else {
        assert(kvs_fit(kvs.drop_first())) by {
            assert forall|i: int| 0 <= i < kvs.drop_first().len() implies #[trigger] kvs.drop_first()[i].0.len() <= u64::MAX
                && kvs.drop_first()[i].1.len() <= u64::MAX by {
                assert(kvs.drop_first()[i] == kvs[i + 1]);
            }
        }
        assert(kvs[0].0.len() <= u64::MAX);
        if kvs_bytes(cur).len() >= min {
            assert(kvs_fit(seq![kvs[0]])) by {
                assert forall|i: int| 0 <= i < seq![kvs[0]].len() implies #[trigger] seq![kvs[0]][i].0.len() <= u64::MAX
                    && seq![kvs[0]][i].1.len() <= u64::MAX by {
                    assert(seq![kvs[0]][i] == kvs[0]);
                }
            }
            lemma_split_runs_fit(kvs.drop_first(), min, seq![kvs[0]]);
            let rest = split_runs(kvs.drop_first(), min, seq![kvs[0]]);
            assert forall|i: int| 0 <= i < split_runs(kvs, min, cur).len() implies kvs_fit(
                #[trigger] split_runs(kvs, min, cur)[i],
            ) by {
                if i == 0 {
                    assert(split_runs(kvs, min, cur)[0] == cur);
                } else {
                    assert(split_runs(kvs, min, cur)[i] == rest[i - 1]);
                }
            }
        } else {
            assert(kvs_fit(cur.push(kvs[0]))) by {
                assert forall|i: int| 0 <= i < cur.push(kvs[0]).len() implies #[trigger] cur.push(kvs[0])[i].0.len() <= u64::MAX
                    && cur.push(kvs[0])[i].1.len() <= u64::MAX by {
                    if i < cur.len() {
                        assert(cur.push(kvs[0])[i] == cur[i]);
                    }
                }
            }
            lemma_split_runs_fit(kvs.drop_first(), min, cur.push(kvs[0]));
            assert(split_runs(kvs, min, cur) == split_runs(kvs.drop_first(), min, cur.push(kvs[0])));
        }
    }
}

proof fn lemma_words_roundtrip(words: Seq<u64>)
    ensures
        words_bytes(words).len() == 8 * words.len(),
        words_of(words_bytes(words)) == words,
    decreases words.len(),
{
    lemma_le_roundtrip();
    if words.len() > 0 {
        let init = words.drop_last();
        lemma_words_roundtrip(init);
        let b = words_bytes(words);
        let bi = words_bytes(init);
        assert(b.len() == 8 * words.len());
        assert(b.len() / 8 == words.len()) by (nonlinear_arith)
            requires
                b.len() == 8 * words.len(),
        ;
        assert(bi.len() / 8 == init.len()) by (nonlinear_arith)
            requires
                bi.len() == 8 * init.len(),
        ;
        assert forall|i: int| 0 <= i < words.len() implies #[trigger] words_of(b)[i] == words[i] by {
            if i < init.len() {
                assert(8 * i + 8 <= bi.len()) by (nonlinear_arith)
                    requires
                        i < init.len(),
                        bi.len() == 8 * init.len(),
                ;
                assert(b.subrange(8 * i, 8 * i + 8) =~= bi.subrange(8 * i, 8 * i + 8));
                assert(words_of(bi)[i] == init[i]);
            } else {
                assert(b.subrange(8 * i, 8 * i + 8) =~= le64(words.last()));
            }
        }
        assert(words_of(b) =~= words);
    } else {
        assert(words_of(words_bytes(words)) =~= words);
    }
}

/// Reading a metadata body gives back its parts.
pub proof fn lemma_metadata_body_roundtrip(
    ob: Seq<u8>,
    hc: u32,
    fb: Seq<u8>,
    s: Seq<u8>,
    b: Seq<u8>,
)
    requires
        metadata_body(ob, hc, fb, s, b).len() <= u64::MAX,
    ensures
        parse_metadata_body(metadata_body(ob, hc, fb, s, b)) == Some((ob, hc, fb, s, b)),
{
    lemma_le_roundtrip();
    let c = metadata_body(ob, hc, fb, s, b);
    let p1: int = 8 + ob.len() as int;
    let p3: int = p1 + 12;
    let p4: int = p3 + fb.len() as int;
    let p5: int = p4 + 8;
    let p6: int = p5 + s.len() as int;
    let p7: int = p6 + 8;
    assert(c.subrange(0, 8) =~= le64(ob.len() as u64));
    assert(c.subrange(8, p1 as int) =~= ob);
    assert(c.subrange(p1 as int, p1 + 4) =~= le32(hc));
    assert(c.subrange(p1 + 4, p1 + 12) =~= le64(fb.len() as u64));
    assert(c.subrange(p3 as int, p4 as int) =~= fb);
    assert(c.subrange(p4 as int, p5 as int) =~= le64(s.len() as u64));
    assert(c.subrange(p5 as int, p6 as int) =~= s);
    assert(c.subrange(p6 as int, p7 as int) =~= le64(b.len() as u64));
    assert(c.subrange(p7, p7 + b.len() as int) =~= b);
}

/// At offset `o` of `f` stands a block, ending by `end`, whose header is sound, whose
/// content passes its checksum and splits into `run`.
pub open spec fn block_readable(f: Seq<u8>, end: int, o: int, run: Seq<(Seq<u8>, Seq<u8>)>) -> bool {
    let bh = f.subrange(o, o + 20);
    let cl = u64_at(bh, 8) as int;
    let content = f.subrange(o + 20, o + 20 + cl);
    &&& 0 <= o
    &&& o + 20 + cl <= end
    &&& block_header_ok(bh)
    &&& crc32(content) == u32_at(bh, 16)
    &&& parse_kvs(content) == Some(run)
}

#[verifier::rlimit(40)]
proof fn lemma_segment_footer(kvs: Seq<(Seq<u8>, Seq<u8>)>, min: nat, hash_cnt: u32, filter_bits: Seq<u64>)
    requires
        kvs.len() > 0,
        segment_bytes(kvs, min, hash_cnt, filter_bits).len() <= u64::MAX,
    ensures
        ({
            let f = segment_bytes(kvs, min, hash_cnt, filter_bits);
            let mo = blocks_bytes(document_runs(kvs, min)).len() as int;
            let footer = f.subrange(f.len() - 16, f.len() as int);
            &&& f.len() >= 16
            &&& footer_ok(footer)
            &&& u64_at(footer, 8) == mo
        }),
{
    lemma_le_roundtrip();
    let f = segment_bytes(kvs, min, hash_cnt, filter_bits);
    let runs = document_runs(kvs, min);
    let docs = blocks_bytes(runs);
    let mo = docs.len() as int;
    let meta = metadata_bytes(
        metadata_body(
            msgpack_u64s(blocks_offsets(runs)),
            hash_cnt,
            words_bytes(filter_bits),
            kvs[0].0,
            kvs.last().0,
        ),
    );
    let foot = footer_bytes(mo as u64);
    assert(f == docs + meta + foot);
    assert(f.subrange(f.len() - 16, f.len() as int) =~= foot);
    assert(foot.subrange(0, 4) =~= footer_magic());
    assert(foot.subrange(4, 8) =~= le32(crc32(le64(mo as u64))));
    assert(foot.subrange(8, 16) =~= le64(mo as u64));
}

proof fn lemma_segment_metadata(kvs: Seq<(Seq<u8>, Seq<u8>)>, min: nat, hash_cnt: u32, filter_bits: Seq<u64>)
    requires
        kvs.len() > 0,
        segment_bytes(kvs, min, hash_cnt, filter_bits).len() <= u64::MAX,
    ensures
        ({
            let f = segment_bytes(kvs, min, hash_cnt, filter_bits);
            let runs = document_runs(kvs, min);
            let mo = blocks_bytes(runs).len() as int;
            let header = f.subrange(mo, mo + 16);
            let body_len = u64_at(header, 8) as int;
            let body = f.subrange(mo + 16, mo + 16 + body_len);
            &&& header.subrange(0, 4) == metadata_magic()
            &&& mo + 16 + body_len <= f.len()
            &&& crc32(le64(u64_at(header, 8)) + body) == u32_at(header, 4)
            &&& parse_metadata_body(body) == Some(
                (
                    msgpack_u64s(blocks_offsets(runs)),
                    hash_cnt,
                    words_bytes(filter_bits),
                    kvs[0].0,
                    kvs.last().0,
                ),
            )
        }),
{
    lemma_le_roundtrip();
    let f = segment_bytes(kvs, min, hash_cnt, filter_bits);
    let runs = document_runs(kvs, min);
    let docs = blocks_bytes(runs);
    let mo = docs.len() as int;
    let body = metadata_body(
        msgpack_u64s(blocks_offsets(runs)),
        hash_cnt,
        words_bytes(filter_bits),
        kvs[0].0,
        kvs.last().0,
    );
    let meta = metadata_bytes(body);
    let foot = footer_bytes(mo as u64);
    assert(f == docs + meta + foot);
    let header = f.subrange(mo, mo + 16);
    assert(header =~= meta.subrange(0, 16));
    assert(header.subrange(0, 4) =~= metadata_magic());
    assert(header.subrange(4, 8) =~= le32(crc32(le64(body.len() as u64) + body)));
    assert(header.subrange(8, 16) =~= le64(body.len() as u64));
    assert(f.subrange(mo + 16, mo + 16 + body.len() as int) =~= body);
    lemma_metadata_body_roundtrip(
        msgpack_u64s(blocks_offsets(runs)),
        hash_cnt,
        words_bytes(filter_bits),
        kvs[0].0,
        kvs.last().0,
    );
}

proof fn lemma_segment_block(kvs: Seq<(Seq<u8>, Seq<u8>)>, min: nat, hash_cnt: u32, filter_bits: Seq<u64>, i: int)
    requires
        kvs.len() > 0,
        kvs_fit(kvs),
        segment_bytes(kvs, min, hash_cnt, filter_bits).len() <= u64::MAX,
        0 <= i < document_runs(kvs, min).len(),
    ensures
        block_readable(
            segment_bytes(kvs, min, hash_cnt, filter_bits),
            blocks_bytes(document_runs(kvs, min)).len() as int,
            blocks_offsets(document_runs(kvs, min))[i] as int,
            document_runs(kvs, min)[i],
        ),
{
    let f = segment_bytes(kvs, min, hash_cnt, filter_bits);
    let runs = document_runs(kvs, min);
    let docs = blocks_bytes(runs);
    let mo = docs.len() as int;
    let meta = metadata_bytes(
        metadata_body(
            msgpack_u64s(blocks_offsets(runs)),
            hash_cnt,
            words_bytes(filter_bits),
            kvs[0].0,
            kvs.last().0,
        ),
    );
    let foot = footer_bytes(mo as u64);
    assert(f == docs + meta + foot);
    assert(kvs_fit(Seq::<(Seq<u8>, Seq<u8>)>::empty()));
    lemma_split_runs_fit(kvs, min, Seq::empty());
    let c = kvs_bytes(runs[i]);
    let cl: int = c.len() as int;
    lemma_blocks_layout(runs, i);
    let o = blocks_offsets(runs)[i] as int;
    let blk = block_bytes(c);
    assert(c.len() <= u64::MAX);
    lemma_block_roundtrip(c);
    let piece = docs.subrange(o, o + blk.len());
    assert(f.subrange(o, o + 20) =~= piece.subrange(0, 20));
    assert(f.subrange(o + 20, o + 20 + cl) =~= piece.subrange(20, 20 + cl));
    assert(kvs_fit(runs[i]));
    lemma_parse_kvs_roundtrip(runs[i]);
}

/// A segment file read back: the footer at its end points at the metadata record; the
/// metadata header carries its magic, and its body passes the checksum and gives back
/// the encoded block offsets, the filter's hash count and bits and the smallest and
/// biggest key; every block offset points at a block whose header is sound, whose
/// content passes its checksum and splits into that block's pairs; and the blocks' pairs,
/// one after the other, are the pairs that were written.
pub proof fn lemma_segment_roundtrip(
    kvs: Seq<(Seq<u8>, Seq<u8>)>,
    min: nat,
    hash_cnt: u32,
    filter_bits: Seq<u64>,
)
    requires
        kvs.len() > 0,
        kvs_fit(kvs),
        segment_bytes(kvs, min, hash_cnt, filter_bits).len() <= u64::MAX,
    ensures
        ({
            let f = segment_bytes(kvs, min, hash_cnt, filter_bits);
            let runs = document_runs(kvs, min);
            let mo = blocks_bytes(runs).len() as int;
            let footer = f.subrange(f.len() - 16, f.len() as int);
            let header = f.subrange(mo as int, mo + 16);
            let body_len = u64_at(header, 8) as int;
            let body = f.subrange(mo + 16, mo + 16 + body_len);
            &&& f.len() >= 16
            &&& footer_ok(footer)
            &&& u64_at(footer, 8) == mo
            &&& header.subrange(0, 4) == metadata_magic()
            &&& mo + 16 + body_len <= f.len()
            &&& crc32(le64(u64_at(header, 8)) + body) == u32_at(header, 4)
            &&& parse_metadata_body(body) == Some(
                (
                    msgpack_u64s(blocks_offsets(runs)),
                    hash_cnt,
                    words_bytes(filter_bits),
                    kvs[0].0,
                    kvs.last().0,
                ),
            )
            &&& words_of(words_bytes(filter_bits)) == filter_bits
            &&& blocks_offsets(runs).len() == runs.len()
            &&& runs.flatten() == kvs
            &&& forall|i: int|
                0 <= i < runs.len() ==> block_readable(f, mo, blocks_offsets(runs)[i] as int, #[trigger] runs[i])
        }),
{
    let runs = document_runs(kvs, min);
    lemma_segment_footer(kvs, min, hash_cnt, filter_bits);
    lemma_segment_metadata(kvs, min, hash_cnt, filter_bits);
    lemma_words_roundtrip(filter_bits);
    lemma_offsets_len(runs);
    lemma_split_runs_flatten(kvs, min, Seq::empty());
    assert(Seq::<(Seq<u8>, Seq<u8>)>::empty() + kvs =~= kvs);
    assert forall|i: int| 0 <= i < runs.len() implies block_readable(
        segment_bytes(kvs, min, hash_cnt, filter_bits),
        blocks_bytes(runs).len() as int,
        blocks_offsets(runs)[i] as int,
        #[trigger] runs[i],
    ) by {
        lemma_segment_block(kvs, min, hash_cnt, filter_bits, i);
    }
}

/// A segment file read back through its metadata record: where the encoding of the block
/// offsets decodes to the offsets that were encoded (as `encode_segment` reports, for fewer than 2^32 blocks, of the
/// offsets it wrote), the reader decodes exactly the written block offsets, one per
/// block, and each leads to a sound block holding that block's pairs; the blocks' pairs,
/// one after the other, are the pairs that were written.
pub proof fn lemma_segment_offsets_read_back(
    kvs: Seq<(Seq<u8>, Seq<u8>)>,
    min: nat,
    hash_cnt: u32,
    filter_bits: Seq<u64>,
)
    requires
        kvs.len() > 0,
        kvs_fit(kvs),
        segment_bytes(kvs, min, hash_cnt, filter_bits).len() <= u64::MAX,
        msgpack_u64s_decoded(msgpack_u64s(blocks_offsets(document_runs(kvs, min)))) == Some(
            blocks_offsets(document_runs(kvs, min)),
        ),
    ensures
        ({
            let f = segment_bytes(kvs, min, hash_cnt, filter_bits);
            let runs = document_runs(kvs, min);
            let mo = blocks_bytes(runs).len() as int;
            let header = f.subrange(mo, mo + 16);
            let body = f.subrange(mo + 16, mo + 16 + u64_at(header, 8) as int);
            &&& parse_metadata_body(body) matches Some((o, h, fb, small, big))
            &&& msgpack_u64s_decoded(o) matches Some(offsets)
            &&& offsets == blocks_offsets(runs)
            &&& offsets.len() == runs.len()
            &&& h == hash_cnt
            &&& words_of(fb) == filter_bits
            &&& small == kvs[0].0
            &&& big == kvs.last().0
            &&& runs.flatten() == kvs
            &&& forall|i: int| 0 <= i < runs.len() ==> block_readable(f, mo, offsets[i] as int, #[trigger] runs[i])
        }),
{
    lemma_segment_roundtrip(kvs, min, hash_cnt, filter_bits);
}

} // verus!
