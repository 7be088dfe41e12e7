use std::cell::RefCell;
use std::rc::Rc;

use vix::catalog::{Commit, GetLatestCommitResult};
use vix::defaults::ConfigDefaults;
use vix::document::{Document, Value, ValueType};
use vix::index::{CreateParam as IndexCreate, GetParam as IndexGet};
use vix::index_manager::ManagerImpl as IndexManager;
use vix::document_lookup::{level_segment_ids, IDLookup, LevelState, Port, SeqIDLookup};
use vix::error::{Code, VixError};
use vix::fieldmap::FieldMap;
use vix::identifier::{CreateParam, GetParam, InsertParam, ManagerImpl};
use vix::layered::{BaseTypeManager, Buffer};

fn doc(id: &str, seq: u64) -> Document {
    let mut payload = FieldMap::new();
    payload.insert("n".to_string(), Value::Int64(seq as i64));
    Document { id: id.to_string(), seq_id: seq, payload }
}

#[test]
fn identifier_index_by_collection() {
    let mut m = ManagerImpl::new();
    assert_eq!(m.get(GetParam { collection: "c".to_string(), id: "a".to_string() }).unwrap_err().code, Code::FatalError);
    let e = m.insert(InsertParam { collection: "c".to_string(), id: "a".to_string(), document: doc("a", 1) }).unwrap_err();
    assert_eq!(e.code, Code::FatalError);
    m.create(CreateParam { collection: "c".to_string() }).unwrap();
    assert_eq!(m.create(CreateParam { collection: "c".to_string() }).unwrap_err().code, Code::Exists);
    assert_eq!(m.get(GetParam { collection: "c".to_string(), id: "a".to_string() }).unwrap_err().code, Code::NotFound);
    m.insert(InsertParam { collection: "c".to_string(), id: "a".to_string(), document: doc("a", 1) }).unwrap();
    m.insert(InsertParam { collection: "c".to_string(), id: "a".to_string(), document: doc("a", 2) }).unwrap();
    let d = m.get(GetParam { collection: "c".to_string(), id: "a".to_string() }).unwrap();
    assert_eq!(d.seq_id, 1);
    assert!(matches!(d.payload.get("n"), Some(Value::Int64(1))));
}

struct CountingBuffer {
    entries: Vec<u32>,
    flushed: usize,
}

impl Buffer for CountingBuffer {
    type Query = u32;
    type SearchResult = bool;
    type Lookup = ();
    type Entry = u32;

    fn search(&self, query: u32) -> Result<bool, VixError> {
        Ok(self.entries.contains(&query))
    }

    fn insert(&mut self, _lookup: (), entry: u32) -> Result<(), VixError> {
        self.entries.push(entry);
        Ok(())
    }

    fn flush(&mut self) {
        self.flushed += 1;
    }
}

#[test]
fn layered_manager_routes_by_field() {
    let mut m: BaseTypeManager<CountingBuffer> = BaseTypeManager::new();
    assert_eq!(m.search("c", "f", 1).unwrap_err().code, Code::FatalError);
    m.create("c".to_string(), "f".to_string(), CountingBuffer { entries: vec![], flushed: 0 }).unwrap();
    let again = m.create("c".to_string(), "f".to_string(), CountingBuffer { entries: vec![], flushed: 0 });
    assert_eq!(again.unwrap_err().code, Code::Exists);
    m.insert("c", "f", (), 7).unwrap();
    assert!(m.search("c", "f", 7).unwrap());
    assert!(!m.search("c", "f", 8).unwrap());
    assert_eq!(m.insert("c", "g", (), 7).unwrap_err().code, Code::FatalError);
    m.flush("c", "f").unwrap();
    assert_eq!(m.flush("x", "f").unwrap_err().code, Code::FatalError);
}

struct Blocks {
    calls: Rc<RefCell<Vec<String>>>,
}

impl Port for Blocks {
    fn get_from_id_block(&self, segment_id: &str, block_offset: &u64) -> Result<Vec<Document>, VixError> {
        self.calls.borrow_mut().push(format!("id {} {}", segment_id, block_offset));
        Ok(vec![doc("a", 1)])
    }

    fn get_from_seq_id_block(&self, segment_id: &str, block_offset: &u64) -> Result<Vec<Document>, VixError> {
        self.calls.borrow_mut().push(format!("seq {} {}", segment_id, block_offset));
        Ok(vec![])
    }

    fn flush_segment(&self) -> Result<(), VixError> {
        Ok(())
    }
}

#[test]
fn lookups_read_their_kind_of_block() {
    let calls = Rc::new(RefCell::new(Vec::new()));
    let by_id = IDLookup::new(Blocks { calls: calls.clone() });
    let by_seq = SeqIDLookup::new(Blocks { calls: calls.clone() });
    assert_eq!(by_id.doc_from_block("s", &3).unwrap().len(), 1);
    assert_eq!(by_seq.doc_from_block("s", &4).unwrap().len(), 0);
    assert_eq!(*calls.borrow(), vec!["id s 3".to_string(), "seq s 4".to_string()]);
}

#[test]
fn segment_ids_of_levels_in_order() {
    let levels = vec![
        LevelState { segment_ids: vec!["a".to_string(), "b".to_string()] },
        LevelState { segment_ids: vec![] },
        LevelState { segment_ids: vec!["c".to_string()] },
    ];
    assert_eq!(level_segment_ids(&levels), vec!["a".to_string(), "b".to_string(), "c".to_string()]);
}

#[test]
fn config_defaults() {
    let d = ConfigDefaults::default();
    assert_eq!(d.address, "0.0.0.0:8080");
    assert_eq!(d.collection_metadata_filename, "metadata.cjson");
}

#[test]
fn field_map_remove_and_well_formed() {
    let mut m: FieldMap<u32> = FieldMap::new();
    m.insert("a".to_string(), 1);
    m.insert("b".to_string(), 2);
    m.insert("a".to_string(), 3);
    assert!(m.is_well_formed());
    assert_eq!(m.len(), 2);
    assert_eq!(m.remove("a"), Some(3));
    assert_eq!(m.remove("a"), None);
    assert_eq!(m.len(), 1);
    assert!(!m.contains_key("a"));
    assert_eq!(m.get("b"), Some(&2));
}

#[test]
fn delete_after_add_gives_back_the_ids() {
    let latest = Commit { commit_number: 1, collection_internal_ids: vec!["x".to_string()] };
    let added = Commit::add_collection("y", GetLatestCommitResult::new(2, Some(latest)));
    let deleted = Commit::delete_collection("y", GetLatestCommitResult::new(3, Some(added))).unwrap();
    assert_eq!(deleted.collection_internal_ids, vec!["x".to_string()]);
}

#[test]
fn index_manager_checks_field_kinds() {
    let m = IndexManager::new(vec![
        (ValueType::String, vec!["identifier", "keyword"]),
        (ValueType::Int64, vec!["range"]),
    ]);
    assert!(m.validate_field(&ValueType::String, "keyword").is_ok());
    assert!(m.validate_field(&ValueType::Int64, "range").is_ok());
    let e = m.validate_field(&ValueType::Int64, "keyword").unwrap_err();
    assert_eq!(e.code, Code::ParseError);
    assert_eq!(e.message, "index type is unsupported for field type");
    let only_strings = IndexManager::new(vec![(ValueType::String, vec!["identifier"])]);
    let e = only_strings.validate_field(&ValueType::Int64, "range").unwrap_err();
    assert_eq!(e.code, Code::ParseError);
    assert_eq!(e.message, "unknown index type");
}

#[test]
fn index_manager_keeps_identifier_index() {
    let mut m = IndexManager::new(vec![]);
    let get = |m: &IndexManager| m.get(IndexGet { collection: "c".to_string(), id: "a".to_string() });
    assert_eq!(get(&m).unwrap_err().code, Code::FatalError);
    let create = IndexCreate {
        collection: "c".to_string(),
        field: "_id".to_string(),
        field_type: ValueType::String,
        index_type: "identifier",
    };
    m.create(create).unwrap();
    assert_eq!(get(&m).unwrap_err().code, Code::NotFound);
    let again = IndexCreate {
        collection: "c".to_string(),
        field: "_id".to_string(),
        field_type: ValueType::String,
        index_type: "identifier",
    };
    assert_eq!(m.create(again).unwrap_err().code, Code::Exists);
}

#[test]
fn identifier_insert_then_get_finds_it() {
    let mut m = vix::identifier::new_type_manager();
    m.create(CreateParam { collection: "c".to_string() }).unwrap();
    m.insert(InsertParam { collection: "c".to_string(), id: "x".to_string(), document: doc("x", 9) }).unwrap();
    m.insert(InsertParam { collection: "c".to_string(), id: "y".to_string(), document: doc("y", 3) }).unwrap();
    let d = m.get(GetParam { collection: "c".to_string(), id: "x".to_string() }).unwrap();
    assert_eq!(d.id, "x");
    assert_eq!(d.seq_id, 9);
    let d = m.get(GetParam { collection: "c".to_string(), id: "y".to_string() }).unwrap();
    assert_eq!(d.seq_id, 3);
}
