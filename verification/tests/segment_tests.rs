use vix::index_segment::{block_offsets_well_formed, check_metadata_header_within, read_block_offsets, write_document_block, Writer};
use vix::lookup::{compare_block, BlockOrdering, BlockSearch, SearchProgress};
use vix::segment::{
    check_block_header, check_metadata_header, decode_block_content, decode_footer, decode_metadata_body,
    encode_document_block, encode_footer, encode_segment, footer_offset, kv_content_well_formed,
    encode_metadata_record, layout_documents, metadata_body_well_formed, KeyValue,
};
use vix::error::Code;

fn kv(k: &str, v: &str) -> KeyValue {
    (k.as_bytes().to_vec(), v.as_bytes().to_vec())
}

fn pairs(n: usize) -> Vec<KeyValue> {
    (0..n).map(|i| kv(&format!("key{:03}", i), &format!("value{}", i))).collect()
}

#[test]
fn document_block_layout() {
    let content = b"hello".to_vec();
    let b = encode_document_block(&content);
    assert_eq!(&b[0..4], b"BLCK");
    assert_eq!(&b[4..8], &crc32fast::hash(&5u64.to_le_bytes()).to_le_bytes());
    assert_eq!(&b[8..16], &5u64.to_le_bytes());
    assert_eq!(&b[16..20], &crc32fast::hash(&content).to_le_bytes());
    assert_eq!(&b[20..], &content[..]);
    let h = check_block_header(&b[0..20]).unwrap();
    assert_eq!(h.content_len, 5);
    assert_eq!(h.content_hash, crc32fast::hash(&content));
}

#[test]
fn block_header_errors() {
    let mut b = encode_document_block(b"x");
    b[0] = b'X';
    assert_eq!(check_block_header(&b[0..20]).unwrap_err().code, Code::FatalError);
    let mut b = encode_document_block(b"x");
    b[9] = 1;
    assert_eq!(check_block_header(&b[0..20]).unwrap_err().code, Code::FatalError);
}

#[test]
fn layout_splits_blocks_at_min_content() {
    let kvs = pairs(3);
    let one = layout_documents(&kvs, 1_000_000);
    assert_eq!(one.block_offsets, vec![0]);
    let each = layout_documents(&kvs, 1);
    assert_eq!(each.block_offsets.len(), 3);
    assert_eq!(each.block_offsets[0], 0);
    let first_len = 20 + 16 + 6 + 6;
    assert_eq!(each.block_offsets[1], first_len as u64);
    let empty = layout_documents(&vec![], 1);
    assert!(empty.bytes.is_empty() && empty.block_offsets.is_empty());
}

#[test]
fn segment_reads_back() {
    let kvs = pairs(10);
    let bits = vec![7u64, 9];
    let (file, _) = encode_segment(&kvs, 40, 3, &bits).unwrap();
    let fo = footer_offset(file.len() as u64).unwrap() as usize;
    let mo = decode_footer(&file[fo..fo + 16]).unwrap() as usize;
    let header = check_metadata_header(&file[mo..mo + 16]).unwrap();
    let body = &file[mo + 16..mo + 16 + header.content_len as usize];
    assert!(metadata_body_well_formed(body));
    let meta = decode_metadata_body(header, body).unwrap();
    assert_eq!(meta.filter_hash_cnt, 3);
    assert_eq!(meta.filter_bits, bits);
    assert_eq!(meta.smallest_key, b"key000".to_vec());
    assert_eq!(meta.biggest_key, b"key009".to_vec());
    let mut all: Vec<KeyValue> = Vec::new();
    for off in meta.key_block_offsets {
        let o = off as usize;
        let h = check_block_header(&file[o..o + 20]).unwrap();
        let content = &file[o + 20..o + 20 + h.content_len as usize];
        assert!(kv_content_well_formed(content));
        all.extend(decode_block_content(h.content_hash, content).unwrap());
    }
    assert_eq!(all, kvs);
}

#[test]
fn segment_needs_pairs() {
    assert_eq!(encode_segment(&vec![], 10, 1, &vec![1]).unwrap_err().code, Code::FatalError);
}

#[test]
fn footer_errors() {
    assert_eq!(footer_offset(15).unwrap_err().code, Code::FatalError);
    assert_eq!(footer_offset(16).unwrap(), 0);
    let mut f = encode_footer(99);
    assert_eq!(decode_footer(&f).unwrap(), 99);
    f[8] = 1;
    assert_eq!(decode_footer(&f).unwrap_err().code, Code::FatalError);
}

#[test]
fn corrupt_metadata_and_content_are_refused() {
    let kvs = pairs(2);
    let (file, _) = encode_segment(&kvs, 1000, 1, &vec![1]).unwrap();
    let fo = file.len() - 16;
    let mo = decode_footer(&file[fo..]).unwrap() as usize;
    let header = check_metadata_header(&file[mo..mo + 16]).unwrap();
    let mut body = file[mo + 16..mo + 16 + header.content_len as usize].to_vec();
    let last = body.len() - 1;
    body[last] ^= 1;
    assert_eq!(decode_metadata_body(header, &body).unwrap_err().code, Code::FatalError);
    assert!(check_metadata_header(&file[0..16]).is_err());
    let h = check_block_header(&file[0..20]).unwrap();
    let mut content = file[20..20 + h.content_len as usize].to_vec();
    content[0] ^= 1;
    if kv_content_well_formed(&content) {
        assert_eq!(decode_block_content(h.content_hash, &content).unwrap_err().code, Code::FatalError);
    }
}

#[test]
fn compare_block_places_key() {
    let block = vec![kv("b", "1"), kv("d", "2"), kv("f", "3")];
    assert!(matches!(compare_block(&block, b"a").unwrap(), BlockOrdering::Less));
    assert!(matches!(compare_block(&block, b"g").unwrap(), BlockOrdering::Greater));
    assert!(matches!(compare_block(&block, b"d").unwrap(), BlockOrdering::Equal(v) if v == b"2".to_vec()));
    assert!(matches!(compare_block(&block, b"c").unwrap(), BlockOrdering::NotFound));
    assert_eq!(compare_block(&vec![], b"a").unwrap_err().code, Code::FatalError);
}

#[test]
fn block_search_finds_the_block_holding_the_key() {
    let blocks = vec![vec![kv("a", "1"), kv("b", "2")], vec![kv("c", "3")], vec![kv("d", "4"), kv("e", "5")]];
    for (key, want) in [("a", Some("1")), ("c", Some("3")), ("e", Some("5")), ("bb", None), ("z", None)] {
        let (mut s, mut p) = BlockSearch::start(blocks.len());
        let found = loop {
            match p {
                SearchProgress::Probe(m) => {
                    let o = compare_block(&blocks[m], key.as_bytes()).unwrap();
                    p = s.step(o);
                },
                SearchProgress::Done(v) => break v,
            }
        };
        assert_eq!(found, want.map(|w| w.as_bytes().to_vec()));
    }
    let (_, p) = BlockSearch::start(0);
    assert!(matches!(p, SearchProgress::Done(None)));
}

#[test]
fn index_segment_writer_layout() {
    let w = Writer::new("/tmp".to_string(), "s1".to_string(), 1000);
    assert_eq!(w.file_name(), "log_s1");
    assert_eq!(w.base_dir(), "/tmp");
    let ids = vec!["a".to_string(), "b".to_string()];
    let docs = vec![b"{\"x\":1}".to_vec(), b"{}".to_vec()];
    let file = w.write(&ids, &docs, 2, &vec![5]).unwrap();
    assert_eq!(&file[0..4], b"BLCK");
    let entry_len = u64::from_le_bytes(file[16..24].try_into().unwrap());
    assert_eq!(entry_len, 1 + 1 + 7);
    assert_eq!(&file[24..26], b"a:");
    let fo = file.len() - 16;
    let mo = decode_footer(&file[fo..]).unwrap() as usize;
    let header = check_metadata_header_within(&file[mo..mo + 16], 1 << 20).unwrap();
    let body = &file[mo + 16..mo + 16 + header.content_len as usize];
    assert!(block_offsets_well_formed(body));
    let offsets = read_block_offsets(header, body).unwrap();
    assert_eq!(offsets, vec![0]);
    let each = Writer::new("/tmp".to_string(), "s1".to_string(), 16);
    let file = each.write(&ids, &docs, 2, &vec![5]).unwrap();
    assert_eq!(&file[8..16], &0u64.to_le_bytes());
    assert_eq!(&file[16..20], b"BLCK");
    assert!(check_metadata_header_within(&file[mo..mo + 16], 1).is_err());
}

#[test]
fn index_segment_writer_errors() {
    let w = Writer::new("/tmp".to_string(), "s1".to_string(), 100);
    assert_eq!(w.write(&vec![], &vec![], 1, &vec![1]).unwrap_err().code, Code::FatalError);
    let ids = vec!["a".to_string()];
    assert_eq!(w.write(&ids, &vec![], 1, &vec![1]).unwrap_err().code, Code::FatalError);
    assert_eq!(w.write_metadata(&vec![], &vec![], 1, &vec![]).unwrap_err().code, Code::FatalError);
    let b = write_document_block(b"abc");
    assert_eq!(&b[4..8], &crc32fast::hash(b"abc").to_le_bytes());
    assert_eq!(&b[8..16], &3u64.to_le_bytes());
}

#[test]
fn block_offsets_are_messagepack() {
    let kvs = pairs(3);
    let (file, _) = encode_segment(&kvs, 1, 1, &vec![1]).unwrap();
    let fo = file.len() - 16;
    let mo = decode_footer(&file[fo..]).unwrap() as usize;
    let header = check_metadata_header(&file[mo..mo + 16]).unwrap();
    let body = &file[mo + 16..mo + 16 + header.content_len as usize];
    let n = u64::from_le_bytes(body[0..8].try_into().unwrap()) as usize;
    let decoded: Vec<u64> = rmp_serde::from_slice(&body[8..8 + n]).unwrap();
    assert_eq!(decoded, decode_metadata_body(header, body).unwrap().key_block_offsets);
    assert_eq!(decoded.len(), 3);
}

#[test]
fn block_checksum_is_crc32() {
    let b = encode_document_block(b"123456789");
    let hash = u32::from_le_bytes([b[16], b[17], b[18], b[19]]);
    assert_eq!(hash, 0xCBF4_3926);
}

#[test]
fn block_offsets_are_shortest_messagepack() {
    let r = encode_metadata_record(&vec![0, 300, 70000], 1, &vec![1], b"a", b"b");
    let len = u64::from_le_bytes(r[16..24].try_into().unwrap()) as usize;
    assert_eq!(&r[24..24 + len], &[0x93, 0x00, 0xcd, 0x01, 0x2c, 0xce, 0x00, 0x01, 0x11, 0x70][..]);
}

#[test]
fn encoded_segment_gives_block_offsets() {
    let kvs: Vec<KeyValue> = (0..12).map(|i| (format!("key{:02}", i).into_bytes(), vec![7u8; 10])).collect();
    let (file, offsets) = encode_segment(&kvs, 30, 2, &vec![5, 6]).unwrap();
    assert!(offsets.len() > 1);
    assert_eq!(offsets[0], 0);
    assert!(offsets.windows(2).all(|w| w[0] < w[1]));
    assert!((*offsets.last().unwrap() as usize) < file.len());
}
