use vix::document::{Value, ValueType};
use vix::error::Code;
use vix::fieldmap::FieldMap;
use vix::index::{buffer_key, field_key, IDENTIFIER_INDEX_TYPE};
use vix::orchestrator::{CreateCollectionParam, CreateCollectionParamField};
use vix::query::{copy_payload, ParsedInsertParam};
use vix::translog::Transaction;

fn f(name: &str) -> CreateCollectionParamField {
    CreateCollectionParamField { name: name.to_string(), field_type: ValueType::String, index_type: "btree" }
}

#[test]
fn orchestrator_validate_checks_name_then_fields() {
    let ok = CreateCollectionParam { name: "books".to_string(), fields: vec![f("title")] };
    assert!(ok.validate().is_ok());
    let bad = CreateCollectionParam { name: "".to_string(), fields: vec![] };
    assert_eq!(bad.validate().unwrap_err().message, "name is empty");
    let bad = CreateCollectionParam { name: "books".to_string(), fields: vec![f("Title")] };
    let e = bad.validate().unwrap_err();
    assert_eq!(e.code, Code::ParseError);
    assert_eq!(e.message, "name should contain only alphanumeric and underscore");
    assert_eq!(f("_x").validate_name().unwrap_err().message, "name cannot start with _");
}

#[test]
fn identifier_field_is_id_string() {
    let id = CreateCollectionParamField::identifier();
    assert_eq!(id.name, "_id");
    assert_eq!(id.field_type, ValueType::String);
    assert_eq!(id.index_type, IDENTIFIER_INDEX_TYPE);
    assert!(id.validate().is_err());
}

#[test]
fn index_create_param_names_collection_and_field() {
    let p = f("title").index_create_param("books");
    assert_eq!(p.collection, "books");
    assert_eq!(p.field, "title");
    assert_eq!(p.index_type, "btree");
}

#[test]
fn collection_create_param_keeps_fields() {
    let p = CreateCollectionParam { name: "books".to_string(), fields: vec![f("a"), f("b")] };
    let c = p.collection_create_param();
    assert_eq!(c.name, "books");
    assert_eq!(c.fields.len(), 2);
    assert_eq!(c.fields[1].name, "b");
}

#[test]
fn index_keys_join_collection_and_field() {
    assert_eq!(field_key("books", "title"), "books:title");
    assert_eq!(buffer_key("books", "title"), "books:title");
}

#[test]
fn insert_params_for_log_and_documents() {
    let mut payload = FieldMap::new();
    payload.insert("title".to_string(), Value::String("Dune".to_string()));
    payload.insert("year".to_string(), Value::Int64(1965));
    let p = ParsedInsertParam { collection_id: "books".to_string(), document_id: "d1".to_string(), payload };
    let t = p.translog_insert_param(7);
    assert_eq!(t.op_seq, 7);
    assert_eq!(t.collection_id, "books");
    match &t.transaction {
        Transaction::Insert(d) => {
            assert_eq!(d.document_id, "d1");
            assert_eq!(d.payload.len(), 2);
            assert!(matches!(d.payload.get("year"), Some(Value::Int64(1965))));
        },
    }
    let d = p.document_insert_param(7);
    assert_eq!(d.id, "d1");
    assert_eq!(d.op_seq, 7);
    let doc = d.document();
    assert_eq!(doc.seq_id, 7);
    assert_eq!(doc.payload.len(), 2);
}

#[test]
fn copy_payload_keeps_values() {
    let mut payload = FieldMap::new();
    payload.insert("a".to_string(), Value::String("x".to_string()));
    let c = copy_payload(&payload);
    assert!(matches!(c.get("a"), Some(Value::String(s)) if s == "x"));
}
