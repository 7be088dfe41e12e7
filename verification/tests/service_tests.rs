use std::cell::RefCell;
use std::collections::HashMap;
use std::rc::Rc;

use vix::catalog::{Commit, Schema, SchemaBlock, SchemaField};
use vix::catalog_adapter::{CatalogCodec, CatalogStorage, CollectionAdapter};
use vix::collection::{
    Collection, CollectionState, CollectionStatus, CreateCollectionParam, CreateParam, CreateParamField, CreateStorageParam, Field,
};
use vix::collection_manager::{Manager, ManagerImpl, Storage};
use vix::collection_service::{CollectionLoader, CollectionMaps, CollectionPort, CollectionService, DocumentCollectionLifecycle, ServiceImpl};
use vix::document::{RawValue, Value, ValueType};
use vix::error::{Code, VixError};
use vix::fieldmap::FieldMap;

type Files = Rc<RefCell<HashMap<(String, String), Vec<u8>>>>;

struct MemCatalog {
    files: Files,
}

impl CatalogStorage for MemCatalog {
    fn get_all_name_sorted(&self, store: &str) -> Result<Vec<String>, VixError> {
        let mut v: Vec<String> = self.files.borrow().keys().filter(|k| k.0 == store).map(|k| k.1.clone()).collect();
        v.sort();
        Ok(v)
    }

    fn read_all(&self, store: &str, name: &str) -> Result<Vec<u8>, VixError> {
        self.files
            .borrow()
            .get(&(store.to_string(), name.to_string()))
            .cloned()
            .ok_or_else(|| VixError::new(Code::SystemError, "no such file"))
    }

    fn write_once(&self, store: &str, name: &str, buf: &[u8]) -> Result<(), VixError> {
        let key = (store.to_string(), name.to_string());
        if self.files.borrow().contains_key(&key) {
            return Err(VixError::new(Code::SystemError, "file exists"));
        }
        self.files.borrow_mut().insert(key, buf.to_vec());
        Ok(())
    }
}

struct TupleCodec;

impl CatalogCodec for TupleCodec {
    fn encode_commit(&self, commit: &Commit) -> Vec<u8> {
        rmp_serde::to_vec(&(commit.commit_number, commit.collection_internal_ids.clone())).unwrap()
    }

    fn decode_commit(&self, data: &[u8]) -> Result<Commit, VixError> {
        let (n, ids): (u64, Vec<String>) =
            rmp_serde::from_slice(data).map_err(|_| VixError::new(Code::ParseError, "failed to decode commit buffer"))?;
        Ok(Commit { commit_number: n, collection_internal_ids: ids })
    }

    fn encode_schema(&self, schema: &Schema) -> Vec<u8> {
        let fields: Vec<(String, String)> = schema.fields.iter().map(|f| (f.name.clone(), f.field_type.clone())).collect();
        rmp_serde::to_vec(&(schema.id.clone(), schema.internal_id.clone(), fields)).unwrap()
    }

    fn decode_schema(&self, data: &[u8]) -> Result<Schema, VixError> {
        let (id, internal_id, fields): (String, String, Vec<(String, String)>) =
            rmp_serde::from_slice(data).map_err(|_| VixError::new(Code::ParseError, "failed to decode schema buffer"))?;
        Ok(Schema {
            id,
            internal_id,
            fields: fields.into_iter().map(|(name, field_type)| SchemaField { name, field_type }).collect(),
        })
    }
}

#[derive(Clone, Default)]
struct Lifecycle {
    calls: Rc<RefCell<Vec<String>>>,
    fail_add: bool,
}

impl DocumentCollectionLifecycle for Lifecycle {
    fn load_collections(&self, collection_ids: &[String]) -> Result<(), VixError> {
        self.calls.borrow_mut().push(format!("load {}", collection_ids.len()));
        Ok(())
    }

    fn add_collection(&self, collection_id: &str) -> Result<(), VixError> {
        self.calls.borrow_mut().push(format!("add {}", collection_id.len()));
        if self.fail_add {
            return Err(VixError::new(Code::SystemError, "add failed"));
        }
        Ok(())
    }

    fn delete_collection(&self, _collection_id: &str) -> Result<(), VixError> {
        self.calls.borrow_mut().push("delete".to_string());
        Ok(())
    }
}

fn books() -> CreateParam {
    CreateParam {
        id: "books".to_string(),
        fields: vec![CreateParamField { name: "title".to_string(), field_type: ValueType::String }],
    }
}

fn payload() -> FieldMap<RawValue> {
    let mut m = FieldMap::new();
    m.insert("title".to_string(), RawValue::String("Dune".to_string()));
    m
}

#[test]
fn service_creates_parses_and_deletes() {
    let files: Files = Rc::new(RefCell::new(HashMap::new()));
    let lifecycle = Lifecycle::default();
    let port = CollectionAdapter::new(MemCatalog { files: files.clone() }, TupleCodec);
    let mut svc = ServiceImpl::new(port, lifecycle.clone());
    assert_eq!(svc.parse_raw_document_payload_by_id("books", &payload()).unwrap_err().code, Code::NotFound);
    svc.create(books()).unwrap();
    assert_eq!(lifecycle.calls.borrow()[0], "add 36");
    let parsed = svc.parse_raw_document_payload_by_id("books", &payload()).unwrap();
    assert!(matches!(parsed.get("title"), Some(Value::String(s)) if s == "Dune"));
    assert_eq!(svc.create(books()).unwrap_err().code, Code::Exists);
    let bad = CreateParam { id: "_b".to_string(), fields: vec![] };
    assert_eq!(svc.create(bad).unwrap_err().code, Code::ParseError);
    assert!(files.borrow().keys().any(|k| k.0 == "collection/commit" && k.1 == "commit_0000000000000001"));
    assert_eq!(svc.delete_by_id("nope").unwrap_err().code, Code::NotFound);
    svc.delete_by_id("books").unwrap();
    assert_eq!(svc.parse_raw_document_payload_by_id("books", &payload()).unwrap_err().code, Code::NotFound);
    assert!(files.borrow().keys().any(|k| k.1 == "commit_0000000000000002"));
}

#[test]
fn service_loads_what_the_catalog_holds() {
    let files: Files = Rc::new(RefCell::new(HashMap::new()));
    {
        let mut svc = ServiceImpl::new(CollectionAdapter::new(MemCatalog { files: files.clone() }, TupleCodec), Lifecycle::default());
        svc.create(books()).unwrap();
    }
    let lifecycle = Lifecycle::default();
    let mut svc = ServiceImpl::new(CollectionAdapter::new(MemCatalog { files: files.clone() }, TupleCodec), lifecycle.clone());
    svc.load().unwrap();
    assert_eq!(lifecycle.calls.borrow()[0], "load 1");
    assert!(svc.parse_raw_document_payload_by_id("books", &payload()).is_ok());
}

#[test]
fn service_keeps_loading_state_when_document_side_fails() {
    let files: Files = Rc::new(RefCell::new(HashMap::new()));
    let lifecycle = Lifecycle { calls: Rc::new(RefCell::new(Vec::new())), fail_add: true };
    let mut svc = ServiceImpl::new(CollectionAdapter::new(MemCatalog { files }, TupleCodec), lifecycle);
    assert_eq!(svc.create(books()).unwrap_err().code, Code::SystemError);
    assert_eq!(svc.parse_raw_document_payload_by_id("books", &payload()).unwrap_err().code, Code::NotReady);
}

#[test]
fn catalog_skips_unreadable_commits() {
    let files: Files = Rc::new(RefCell::new(HashMap::new()));
    let port = CollectionAdapter::new(MemCatalog { files: files.clone() }, TupleCodec);
    let r = port.get_latest_commit().unwrap();
    assert_eq!(r.next_number, 1);
    assert!(r.latest_commit.is_none());
    let p = books().create_port_param("i1");
    port.create(p).unwrap();
    files.borrow_mut().insert(("collection/commit".to_string(), "commit_0000000000000005".to_string()), vec![1, 2, 3]);
    let r = port.get_latest_commit().unwrap();
    assert_eq!(r.next_number, 6);
    assert_eq!(r.latest_commit.unwrap().collection_internal_ids, vec!["i1".to_string()]);
    let all = port.get_all().unwrap();
    assert_eq!(all.collections.len(), 1);
    assert_eq!(all.collections[0].id, "books");
    port.delete_by_internal_id("i1").unwrap();
    assert_eq!(port.get_all().unwrap().collections.len(), 0);
}

struct FakeStorage {
    stored: Rc<RefCell<Vec<String>>>,
    fail: bool,
}

impl Storage for FakeStorage {
    fn create(&self, param: CreateStorageParam) -> Result<(), VixError> {
        if self.fail {
            return Err(VixError::new(Code::SystemError, "disk"));
        }
        self.stored.borrow_mut().push(param.name);
        Ok(())
    }

    fn delete(&self, _id: &str) -> Result<(), VixError> {
        Ok(())
    }

    fn load(&self) -> Result<Vec<Collection>, VixError> {
        Ok(vec![Collection {
            id: "id9".to_string(),
            name: "loaded".to_string(),
            fields: vec![Field { name: "n".to_string(), field_type: ValueType::Int64 }],
        }])
    }
}

fn manager_param(name: &str) -> CreateCollectionParam {
    CreateCollectionParam { name: name.to_string(), fields: vec![Field { name: "n".to_string(), field_type: ValueType::Int64 }] }
}

#[test]
fn manager_lifecycle() {
    let stored = Rc::new(RefCell::new(Vec::new()));
    let mut m = ManagerImpl::new(FakeStorage { stored: stored.clone(), fail: false });
    m.create_collection(manager_param("nums")).unwrap();
    assert_eq!(stored.borrow()[0], "nums");
    assert_eq!(m.create_collection(manager_param("nums")).unwrap_err().code, Code::Exists);
    let mut doc = FieldMap::new();
    doc.insert("n".to_string(), Value::Int64(1));
    assert_eq!(m.validate_payload("nums", &doc).unwrap(), true);
    doc.insert("n".to_string(), Value::String("x".to_string()));
    assert_eq!(m.validate_payload("nums", &doc).unwrap(), false);
    assert_eq!(m.validate_payload("other", &doc).unwrap_err().code, Code::NotFound);
    m.delete_collection("nums").unwrap();
    assert_eq!(m.delete_collection("nums").unwrap_err().code, Code::NotFound);
    m.load().unwrap();
    assert!(m.validate_payload("loaded", &FieldMap::new()).unwrap());
}

#[test]
fn manager_forgets_collection_when_storage_fails() {
    let mut m = ManagerImpl::new(FakeStorage { stored: Rc::new(RefCell::new(Vec::new())), fail: true });
    assert_eq!(m.create_collection(manager_param("nums")).unwrap_err().code, Code::SystemError);
    assert_eq!(m.validate_payload("nums", &FieldMap::new()).unwrap_err().code, Code::NotFound);
}

use vix::document_service::DocumentServiceImpl;
use vix::engine::{DocumentEngineLoader, LSMDocumentEngine, LSMDocumentPort};
use vix::lsm::GetAllSegmentByCollectionIDPortResult;
use vix::query::InsertParam as QueryInsertParam;
use vix::query_service::{Counter, PayloadEncoder, QueryServiceImpl, TranslogService};
use vix::segment::{KeyValue, SegmentMetadata};
use vix::translog;

struct NoSegments;

impl LSMDocumentPort for NoSegments {
    fn get_all_segment_by_collection_id(&self, _collection_id: &str) -> Result<GetAllSegmentByCollectionIDPortResult, VixError> {
        Ok(GetAllSegmentByCollectionIDPortResult { segments: vec![] })
    }

    fn get_metadata(&self, _c: &str, _s: &str) -> Result<SegmentMetadata, VixError> {
        Err(VixError::new(Code::SystemError, "no segments"))
    }

    fn get_values_from_block(&self, _c: &str, _s: &str, _o: u64) -> Result<Vec<KeyValue>, VixError> {
        Err(VixError::new(Code::SystemError, "no segments"))
    }

    fn flush_segment(&self, _c: &str, _s: &str, _kvs: Vec<KeyValue>) -> Result<Option<SegmentMetadata>, VixError> {
        Err(VixError::new(Code::SystemError, "no segments"))
    }
}

struct Log {
    seqs: Rc<RefCell<Vec<u64>>>,
}

impl TranslogService for Log {
    fn insert(&mut self, param: translog::InsertParam) -> Result<(), VixError> {
        self.seqs.borrow_mut().push(param.op_seq);
        Ok(())
    }
}

struct Clock {
    next: u64,
}

impl Counter for Clock {
    fn next(&mut self) -> u64 {
        self.next += 1;
        self.next
    }
}

struct Bytes;

impl PayloadEncoder for Bytes {
    fn encode_payload(&self, payload: &FieldMap<Value>) -> Result<Vec<u8>, VixError> {
        Ok(vec![payload.len() as u8])
    }
}

#[test]
fn query_insert_logs_then_stores() {
    let files: Files = Rc::new(RefCell::new(HashMap::new()));
    let mut collections = ServiceImpl::new(CollectionAdapter::new(MemCatalog { files }, TupleCodec), Lifecycle::default());
    collections.create(books()).unwrap();
    let mut engine = LSMDocumentEngine::new(NoSegments, 1 << 30);
    let internal = "books".to_string();
    engine.load(&[internal.clone()]).unwrap();
    let seqs = Rc::new(RefCell::new(Vec::new()));
    let mut q = QueryServiceImpl::new(collections, DocumentServiceImpl::new(engine), Log { seqs: seqs.clone() }, Clock { next: 0 }, Bytes);
    let doc = q
        .insert(QueryInsertParam { collection_id: "books".to_string(), document_id: "d1".to_string(), payload: payload() })
        .unwrap();
    assert_eq!(doc.id, "d1");
    assert_eq!(doc.seq_id, 1);
    assert_eq!(*seqs.borrow(), vec![1]);
    assert_eq!(q.get_by_id("books", "d1").unwrap(), vec![1u8]);
    let bad = QueryInsertParam { collection_id: "none".to_string(), document_id: "d".to_string(), payload: payload() };
    assert_eq!(q.insert(bad).unwrap_err().code, Code::NotFound);
    assert_eq!(*seqs.borrow(), vec![1]);
}

struct ReadOnlyCatalog;

impl CatalogStorage for ReadOnlyCatalog {
    fn get_all_name_sorted(&self, _store: &str) -> Result<Vec<String>, VixError> {
        Ok(vec![])
    }

    fn read_all(&self, _store: &str, _name: &str) -> Result<Vec<u8>, VixError> {
        Err(VixError::new(Code::SystemError, "no such file"))
    }

    fn write_once(&self, _store: &str, _name: &str, _buf: &[u8]) -> Result<(), VixError> {
        Err(VixError::new(Code::SystemError, "read-only"))
    }
}

#[test]
fn service_forgets_collection_when_catalog_fails() {
    let lifecycle = Lifecycle::default();
    let mut svc = ServiceImpl::new(CollectionAdapter::new(ReadOnlyCatalog, TupleCodec), lifecycle.clone());
    let e = svc.create_with_internal_id(books(), "iid-1".to_string()).unwrap_err();
    assert_eq!(e.code, Code::SystemError);
    assert_eq!(e.message, "read-only");
    assert_eq!(lifecycle.calls.borrow()[0], "add 5");
    assert_eq!(svc.parse_raw_document_payload_by_id("books", &payload()).unwrap_err().code, Code::NotFound);
}

fn held_books(internal_id: &str) -> CollectionMaps {
    let mut maps = CollectionMaps::empty();
    let state = CollectionState::new("books", internal_id, &books().fields, CollectionStatus::Loading);
    maps.collection_by_id.insert("books".to_string(), state);
    maps.collection_by_internal_id.insert(internal_id.to_string(), "books".to_string());
    maps
}

#[test]
fn settle_create_by_answers() {
    let mut maps = held_books("i1");
    let e = maps.settle_create("books", "i1", Ok(()), Some(Err(VixError::new(Code::SystemError, "disk")))).unwrap_err();
    assert_eq!(e.message, "disk");
    assert!(maps.collection_by_id.get("books").is_none());
    assert!(maps.collection_by_internal_id.get("i1").is_none());

    let mut maps = held_books("i1");
    let e = maps.settle_create("books", "i1", Err(VixError::new(Code::SystemError, "side")), None).unwrap_err();
    assert_eq!(e.message, "side");
    assert_eq!(maps.collection_by_id.get("books").unwrap().status, CollectionStatus::Loading);
    assert_eq!(maps.collection_by_internal_id.get("i1").unwrap(), "books");

    let mut maps = held_books("i1");
    maps.settle_create("books", "i1", Ok(()), Some(Ok(()))).unwrap();
    assert_eq!(maps.collection_by_id.get("books").unwrap().status, CollectionStatus::Ready);
    assert_eq!(maps.collection_by_id.get("books").unwrap().internal_id, "i1");
    assert_eq!(maps.collection_by_internal_id.get("i1").unwrap(), "books");
}

struct IdStorage {
    ids: Rc<RefCell<Vec<String>>>,
}

impl Storage for IdStorage {
    fn create(&self, param: CreateStorageParam) -> Result<(), VixError> {
        self.ids.borrow_mut().push(param.id);
        Ok(())
    }

    fn delete(&self, id: &str) -> Result<(), VixError> {
        self.ids.borrow_mut().push(format!("-{}", id));
        Ok(())
    }

    fn load(&self) -> Result<Vec<Collection>, VixError> {
        Ok(vec![])
    }
}

#[test]
fn manager_stores_collection_under_given_id() {
    let ids = Rc::new(RefCell::new(Vec::new()));
    let mut m = ManagerImpl::new(IdStorage { ids: ids.clone() });
    m.create_collection_with_id(manager_param("nums"), "id-7".to_string()).unwrap();
    m.delete_collection("nums").unwrap();
    assert_eq!(*ids.borrow(), vec!["id-7".to_string(), "-id-7".to_string()]);
}

#[test]
fn refused_insert_takes_no_number() {
    let files: Files = Rc::new(RefCell::new(HashMap::new()));
    let mut collections = ServiceImpl::new(CollectionAdapter::new(MemCatalog { files }, TupleCodec), Lifecycle::default());
    collections.create(books()).unwrap();
    let mut engine = LSMDocumentEngine::new(NoSegments, 1 << 30);
    engine.load(&["books".to_string()]).unwrap();
    let seqs = Rc::new(RefCell::new(Vec::new()));
    let mut q = QueryServiceImpl::new(collections, DocumentServiceImpl::new(engine), Log { seqs: seqs.clone() }, Clock { next: 0 }, Bytes);
    let mut wrong = FieldMap::new();
    wrong.insert("title".to_string(), RawValue::Int64(3));
    let bad = QueryInsertParam { collection_id: "books".to_string(), document_id: "d1".to_string(), payload: wrong };
    assert_eq!(q.insert(bad).unwrap_err().code, Code::ParseError);
    assert!(seqs.borrow().is_empty());
    let doc = q
        .insert(QueryInsertParam { collection_id: "books".to_string(), document_id: "d1".to_string(), payload: payload() })
        .unwrap();
    assert_eq!(doc.seq_id, 1);
    assert_eq!(*seqs.borrow(), vec![1]);
}

#[test]
fn schema_file_reads_back_its_collection() {
    let files: Files = Rc::new(RefCell::new(HashMap::new()));
    let port = CollectionAdapter::new(MemCatalog { files }, TupleCodec);
    let schema = Schema {
        id: "books".to_string(),
        internal_id: "i1".to_string(),
        fields: vec![SchemaField { name: "title".to_string(), field_type: "string".to_string() }],
    };
    let mut buf = SchemaBlock::from_create_port_param(TupleCodec.encode_schema(&schema)).encode();
    let c = port.collection_from_schema_file(buf.clone()).unwrap();
    assert_eq!(c.id, "books");
    assert_eq!(c.internal_id, "i1");
    assert_eq!(c.fields.len(), 1);
    assert_eq!(c.fields[0].field_type, ValueType::String);
    let last = buf.len() - 1;
    buf[last] ^= 1;
    assert_eq!(port.collection_from_schema_file(buf).unwrap_err().code, Code::ParseError);
    assert_eq!(port.collection_from_schema_file(vec![1, 2, 3]).unwrap_err().code, Code::ParseError);
}
