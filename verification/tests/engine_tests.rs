use std::cell::RefCell;
use std::collections::HashMap;
use std::rc::Rc;

use vix::document::InsertParam;
use vix::document_service::DocumentServiceImpl;
use vix::engine::{
    get_value_from_segment, segment_decision, DocumentEngine, DocumentEngineLoader, LSMDocumentEngine, LSMDocumentPort,
    SegmentOutcome,
};
use vix::error::{Code, VixError};
use vix::fieldmap::FieldMap;
use vix::lsm_adapter::{CommitDecoder, FileStorage, KeyFilterBuilder, LSMDocumentAdapter, StorageAccessor};
use vix::lsm::{CollectionState, GetAllSegmentByCollectionIDPortResult, GetAllSegmentByCollectionIDPortResultSegment};
use vix::lsm_store::{Commit, CommitSegment};
use vix::segment::{KeyValue, SegmentMetadata};

type Files = Rc<RefCell<HashMap<(String, String), Vec<u8>>>>;

struct MemStorage {
    files: Files,
}

struct MemAccessor {
    files: Files,
    key: (String, String),
}

impl StorageAccessor for MemAccessor {
    fn size(&self) -> Result<u64, VixError> {
        Ok(self.files.borrow().get(&self.key).map(|f| f.len()).unwrap_or(0) as u64)
    }

    fn read(&self, offset: u64, len: u64) -> Result<Vec<u8>, VixError> {
        let files = self.files.borrow();
        let f = files.get(&self.key).cloned().unwrap_or_default();
        let start = (offset as usize).min(f.len());
        let end = (offset as usize).saturating_add(len as usize).min(f.len());
        Ok(f[start..end].to_vec())
    }

    fn write(&self, offset: u64, buf: &[u8]) -> Result<(), VixError> {
        let mut files = self.files.borrow_mut();
        let f = files.entry(self.key.clone()).or_default();
        let end = offset as usize + buf.len();
        if f.len() < end {
            f.resize(end, 0);
        }
        f[offset as usize..end].copy_from_slice(buf);
        Ok(())
    }

    fn flush(&self) -> Result<(), VixError> {
        Ok(())
    }
}

impl FileStorage for MemStorage {
    type Accessor = MemAccessor;

    fn get_all_name_sorted(&self, store: &str) -> Result<Vec<String>, VixError> {
        let mut v: Vec<String> = self.files.borrow().keys().filter(|k| k.0 == store).map(|k| k.1.clone()).collect();
        v.sort();
        Ok(v)
    }

    fn open(&self, store: &str, name: &str) -> Result<MemAccessor, VixError> {
        Ok(MemAccessor { files: self.files.clone(), key: (store.to_string(), name.to_string()) })
    }
}

struct TupleDecoder;

impl CommitDecoder for TupleDecoder {
    fn decode_commit(&self, data: &[u8]) -> Result<Commit, VixError> {
        let segs: Vec<(String, u32)> = rmp_serde::from_slice(data)
            .map_err(|_| VixError::new(Code::ParseError, "failed to decode commit"))?;
        Ok(Commit { segments: segs.into_iter().map(|(id, level)| CommitSegment { id, level }).collect() })
    }
}

struct Bloom;

impl KeyFilterBuilder for Bloom {
    fn build_filter(&self, keys: &Vec<Vec<u8>>) -> (u32, Vec<u64>) {
        let f = fastbloom::BloomFilter::with_false_pos(0.01).items(keys.iter());
        (f.num_hashes(), f.iter().collect())
    }
}

fn adapter(files: &Files, min: usize) -> LSMDocumentAdapter<MemStorage, TupleDecoder, Bloom> {
    LSMDocumentAdapter::new(MemStorage { files: files.clone() }, TupleDecoder, Bloom, min)
}

fn kvs(n: usize) -> Vec<KeyValue> {
    (0..n).map(|i| (format!("k{:04}", i).into_bytes(), format!("v{}", i).into_bytes())).collect()
}

#[test]
fn adapter_writes_and_reads_segment() {
    let files: Files = Rc::new(RefCell::new(HashMap::new()));
    let a = adapter(&files, 32);
    let meta = a.flush_segment("c1", "s1", kvs(20)).unwrap().unwrap();
    assert!(meta.key_block_offsets.len() > 1);
    assert_eq!(meta.smallest_key, b"k0000".to_vec());
    assert_eq!(meta.biggest_key, b"k0019".to_vec());
    let read = a.get_metadata("c1", "s1").unwrap();
    assert_eq!(read.key_block_offsets, meta.key_block_offsets);
    assert_eq!(read.filter_bits, meta.filter_bits);
    let mut all = Vec::new();
    for o in &read.key_block_offsets {
        all.extend(a.get_values_from_block("c1", "s1", *o).unwrap());
    }
    assert_eq!(all, kvs(20));
    let state = read.segment_state("s1", "c1");
    for (k, v) in kvs(20) {
        assert_eq!(get_value_from_segment(&a, &state, &k).unwrap(), v);
    }
    let e = get_value_from_segment(&a, &state, b"k9999").unwrap_err();
    assert_eq!(e.code, Code::DocumentNotFound);
    let e = get_value_from_segment(&a, &state, b"k0003x").unwrap_err();
    assert_eq!(e.code, Code::DocumentNotFound);
}

#[test]
fn adapter_flushes_nothing_and_refuses_missing_files() {
    let files: Files = Rc::new(RefCell::new(HashMap::new()));
    let a = adapter(&files, 32);
    assert!(a.flush_segment("c1", "s1", vec![]).unwrap().is_none());
    assert!(files.borrow().is_empty());
    assert_eq!(a.get_metadata("c1", "nope").unwrap_err().code, Code::FatalError);
    assert_eq!(a.get_all_segment_by_collection_id("c1").unwrap().segments.len(), 0);
}

#[test]
fn adapter_reads_latest_commit() {
    let files: Files = Rc::new(RefCell::new(HashMap::new()));
    let segs = vec![("s1".to_string(), 0u32), ("s2".to_string(), 1u32)];
    let content = rmp_serde::to_vec(&segs).unwrap();
    let mut buf = crc32fast::hash(&content).to_le_bytes().to_vec();
    buf.extend_from_slice(&content);
    files.borrow_mut().insert(("collection/c1/document".to_string(), "commit_0000000000000002".to_string()), buf);
    files.borrow_mut().insert(("collection/c1/document".to_string(), "commit_0000000000000001".to_string()), vec![0, 0, 0, 0]);
    let a = adapter(&files, 32);
    let r = a.get_all_segment_by_collection_id("c1").unwrap();
    assert_eq!(r.segments.len(), 2);
    assert_eq!(r.segments[1].id, "s2");
    assert_eq!(r.segments[1].level, 1);
}

#[test]
fn engine_buffers_and_flushes() {
    let files: Files = Rc::new(RefCell::new(HashMap::new()));
    let mut engine = LSMDocumentEngine::new(adapter(&files, 16), 64);
    assert_eq!(engine.insert("c1", b"k", b"v").unwrap_err().code, Code::CollectionNotFound);
    assert_eq!(engine.get_by_key("c1", b"k").unwrap_err().code, Code::CollectionNotFound);
    engine.load(&["c1".to_string()]).unwrap();
    assert_eq!(engine.get_by_key("c1", b"k").unwrap_err().code, Code::DocumentNotFound);
    engine.insert("c1", b"k", b"v").unwrap();
    assert_eq!(engine.get_by_key("c1", b"k").unwrap(), b"v".to_vec());
    for (k, v) in kvs(10) {
        engine.insert("c1", &k, &v).unwrap();
    }
    let written: Vec<String> = files.borrow().keys().map(|k| k.1.clone()).collect();
    assert!(written.iter().any(|n| n.starts_with("log_")));
    assert!(engine.flush("c1").is_ok());
    assert_eq!(engine.flush("c2").unwrap_err().code, Code::CollectionNotFound);
}

#[test]
fn document_service_keys_documents_by_id() {
    let files: Files = Rc::new(RefCell::new(HashMap::new()));
    let mut engine = LSMDocumentEngine::new(adapter(&files, 1 << 20), 1 << 30);
    engine.load(&["c1".to_string()]).unwrap();
    let mut svc = DocumentServiceImpl::new(engine);
    assert_eq!(svc.get_seq_id_by_id("c1", "d1").unwrap_err().code, Code::DocumentNotFound);
    let p = InsertParam { id: "d1".to_string(), op_seq: 5, payload: FieldMap::new() };
    svc.insert("c1", p, b"first").unwrap();
    assert_eq!(svc.get_seq_id_by_id("c1", "d1").unwrap(), 5);
    assert_eq!(svc.get_by_id("c1", "d1").unwrap(), b"first".to_vec());
    let p = InsertParam { id: "d1".to_string(), op_seq: 9, payload: FieldMap::new() };
    svc.insert("c1", p, b"second").unwrap();
    assert_eq!(svc.get_seq_id_by_id("c1", "d1").unwrap(), 5);
    assert_eq!(svc.get_by_id("c1", "d1").unwrap(), b"second".to_vec());
    assert_eq!(svc.get_by_seq_id("c1", &5).unwrap(), b"second".to_vec());
    assert_eq!(svc.get_by_seq_id("c1", &9).unwrap_err().code, Code::DocumentNotFound);
    let p = InsertParam { id: "d2".to_string(), op_seq: 1, payload: FieldMap::new() };
    assert_eq!(svc.insert("nope", p, b"x").unwrap_err().code, Code::CollectionNotFound);
}

#[test]
fn loaded_segments_are_ordered_by_level() {
    let seg = |id: &str, level: u32| GetAllSegmentByCollectionIDPortResultSegment { id: id.to_string(), level };
    let result = GetAllSegmentByCollectionIDPortResult {
        segments: vec![seg("a", 1), seg("b", 0), seg("c", 1), seg("d", 0)],
    };
    let c = CollectionState::from_get_all_segment_by_collection_id_port_result("c1", result);
    assert_eq!(c.get_segment_ids(), vec!["b".to_string(), "d".to_string(), "a".to_string(), "c".to_string()]);
}

#[test]
fn buffer_size_is_total_of_pairs() {
    let mut b = vix::lsm::CollectionBuffer::new();
    b.insert(b"ab".to_vec(), b"xyz".to_vec());
    assert_eq!(b.byte_size(), 5);
    b.insert(b"ab".to_vec(), b"q".to_vec());
    assert_eq!(b.byte_size(), 3);
    b.insert(b"c".to_vec(), Vec::new());
    assert_eq!(b.byte_size(), 4);
}

#[test]
fn segment_decision_ends_on_value_or_error() {
    assert!(segment_decision(SegmentOutcome::Skipped).is_none());
    let not_found = VixError::new(Code::DocumentNotFound, "value not found in segment");
    assert!(segment_decision(SegmentOutcome::Searched(Err(not_found))).is_none());
    assert_eq!(segment_decision(SegmentOutcome::Searched(Ok(b"v".to_vec()))).unwrap().unwrap(), b"v".to_vec());
    let broken = VixError::new(Code::FatalError, "block checksum");
    assert_eq!(segment_decision(SegmentOutcome::Searched(Err(broken))).unwrap().unwrap_err().code, Code::FatalError);
}

#[test]
fn segment_admits_keys_by_range_and_filter() {
    let meta = |bits: u64| SegmentMetadata {
        key_block_offsets: vec![0],
        filter_hash_cnt: 3,
        filter_bits: vec![bits; 4],
        smallest_key: b"b".to_vec(),
        biggest_key: b"d".to_vec(),
    };
    let full = meta(u64::MAX).segment_state("s1", "c1");
    assert!(full.may_contain_key(b"b"));
    assert!(full.may_contain_key(b"c"));
    assert!(full.may_contain_key(b"d"));
    assert!(!full.may_contain_key(b"a"));
    assert!(!full.may_contain_key(b"e"));
    let empty = meta(0).segment_state("s1", "c1");
    assert!(!empty.may_contain_key(b"c"));
}
