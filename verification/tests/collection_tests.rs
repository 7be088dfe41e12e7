use vix::collection::{
    collection_ids, CollectionInstance, CollectionState, CollectionStatus, CreateCollectionParam,
    CreateParam, CreateParamField, Field, GetAllPortResultCollection, GetAllPortResultCollectionField,
    InstanceStatus,
};
use vix::document::{RawValue, Value, ValueType};
use vix::error::Code;
use vix::fieldmap::FieldMap;

fn field(name: &str, t: ValueType) -> CreateParamField {
    CreateParamField { name: name.to_string(), field_type: t }
}

fn param(id: &str, fields: Vec<CreateParamField>) -> CreateParam {
    CreateParam { id: id.to_string(), fields }
}

#[test]
fn create_param_validate_accepts_valid_names() {
    let p = param("books", vec![field("title", ValueType::String), field("year_2", ValueType::Int64)]);
    assert!(p.validate().is_ok());
}

#[test]
fn create_param_validate_reports_id_faults() {
    let e = param("", vec![]).validate().unwrap_err();
    assert_eq!(e.code, Code::ParseError);
    assert_eq!(e.message, "id is empty");
    let e = param("_x", vec![]).validate().unwrap_err();
    assert_eq!(e.message, "id cannot start with _");
    let e = param("Books", vec![]).validate().unwrap_err();
    assert_eq!(e.message, "id should contain only alphanumeric and underscore");
}

#[test]
fn create_param_validate_reports_first_bad_field() {
    let p = param("books", vec![field("ok", ValueType::String), field("", ValueType::String), field("_x", ValueType::Int64)]);
    let e = p.validate().unwrap_err();
    assert_eq!(e.code, Code::ParseError);
    assert_eq!(e.message, "field name is empty");
    let e = field("Bad", ValueType::Int64).validate().unwrap_err();
    assert_eq!(e.message, "field name should contain only alphanumeric and underscore");
    let e = field("_id", ValueType::Int64).validate().unwrap_err();
    assert_eq!(e.message, "field name cannot start with _");
}

#[test]
fn create_port_param_carries_internal_id_and_fields() {
    let p = param("books", vec![field("title", ValueType::String), field("year", ValueType::Int64)]);
    let pp = p.create_port_param("abc-123");
    assert_eq!(pp.id, "books");
    assert_eq!(pp.internal_id, "abc-123");
    assert_eq!(pp.fields.len(), 2);
    assert_eq!(pp.fields[1].name, "year");
    assert_eq!(pp.fields[1].field_type, ValueType::Int64);
}

fn books_state() -> CollectionState {
    let fields = vec![field("title", ValueType::String), field("year", ValueType::Int64)];
    CollectionState::new("books", "internal", &fields, CollectionStatus::Ready)
}

fn raw(pairs: Vec<(&str, RawValue)>) -> FieldMap<RawValue> {
    let mut m = FieldMap::new();
    for (k, v) in pairs {
        m.insert(k.to_string(), v);
    }
    m
}

#[test]
fn parse_payload_converts_every_field() {
    let st = books_state();
    let p = raw(vec![("title", RawValue::String("Dune".to_string())), ("year", RawValue::Int64(1965))]);
    let out = st.parse_raw_document_payload(&p).unwrap();
    assert_eq!(out.len(), 2);
    assert!(matches!(out.get("title"), Some(Value::String(s)) if s == "Dune"));
    assert!(matches!(out.get("year"), Some(Value::Int64(1965))));
}

#[test]
fn parse_payload_rejects_unknown_field() {
    let st = books_state();
    let p = raw(vec![("title", RawValue::String("Dune".to_string())), ("pages", RawValue::Int64(3))]);
    let e = st.parse_raw_document_payload(&p).unwrap_err();
    assert_eq!(e.code, Code::ParseError);
}

#[test]
fn parse_payload_rejects_wrong_type() {
    let st = books_state();
    let p = raw(vec![("title", RawValue::Int64(1)), ("year", RawValue::Int64(1965))]);
    let e = st.parse_raw_document_payload(&p).unwrap_err();
    assert_eq!(e.code, Code::ParseError);
    let p = raw(vec![("title", RawValue::String("x".to_string())), ("year", RawValue::Float64(1.5f64.to_bits()))]);
    assert_eq!(st.parse_raw_document_payload(&p).unwrap_err().code, Code::ParseError);
}

#[test]
fn parse_payload_rejects_missing_field() {
    let st = books_state();
    let p = raw(vec![("title", RawValue::String("Dune".to_string()))]);
    let e = st.parse_raw_document_payload(&p).unwrap_err();
    assert_eq!(e.code, Code::ParseError);
    assert_eq!(e.message, "missing fields");
}

#[test]
fn state_from_stored_collection() {
    let c = GetAllPortResultCollection {
        id: "books".to_string(),
        internal_id: "i1".to_string(),
        fields: vec![GetAllPortResultCollectionField { name: "title".to_string(), field_type: ValueType::String }],
    };
    let st = CollectionState::from_get_all_port_result_collection(&c, CollectionStatus::Loading);
    assert_eq!(st.id, "books");
    assert_eq!(st.internal_id, "i1");
    assert_eq!(st.status, CollectionStatus::Loading);
    assert_eq!(st.field_types.get("title"), Some(&ValueType::String));
}

#[test]
fn later_field_of_a_name_wins() {
    let fields = vec![field("a", ValueType::String), field("a", ValueType::Int64)];
    let st = CollectionState::new("c", "i", &fields, CollectionStatus::Ready);
    assert_eq!(st.field_types.len(), 1);
    assert_eq!(st.field_types.get("a"), Some(&ValueType::Int64));
}

#[test]
fn collection_ids_are_the_internal_ids() {
    let states = vec![("a".to_string(), "ia".to_string(), 1u8), ("b".to_string(), "ib".to_string(), 2u8)];
    assert_eq!(collection_ids(&states), vec!["ia".to_string(), "ib".to_string()]);
}

#[test]
fn instance_validates_document_types() {
    let fields = vec![Field { name: "title".to_string(), field_type: ValueType::String }];
    let inst = CollectionInstance::new("id1", "books", &fields, InstanceStatus::Ready);
    let mut doc = FieldMap::new();
    doc.insert("title".to_string(), Value::String("x".to_string()));
    assert!(inst.validate_document(&doc));
    doc.insert("title".to_string(), Value::Int64(1));
    assert!(!inst.validate_document(&doc));
    let mut other = FieldMap::new();
    other.insert("pages".to_string(), Value::Int64(1));
    assert!(!inst.validate_document(&other));
    assert!(inst.validate_document(&FieldMap::new()));
}

#[test]
fn storage_param_keeps_name_and_fields() {
    let p = CreateCollectionParam { name: "books".to_string(), fields: vec![Field { name: "t".to_string(), field_type: ValueType::String }] };
    let s = p.into_create_storage_param("uuid".to_string());
    assert_eq!(s.id, "uuid");
    assert_eq!(s.name, "books");
    assert_eq!(s.fields.len(), 1);
}

#[test]
fn value_types_by_name() {
    assert_eq!(ValueType::new("string").unwrap(), ValueType::String);
    assert_eq!(ValueType::new("int64").unwrap(), ValueType::Int64);
    assert_eq!(ValueType::new("float").unwrap_err().code, Code::ParseError);
    assert_eq!(ValueType::String.string(), "string");
    assert_eq!(ValueType::Int64.string(), "int64");
    assert_eq!(Value::Int64(3).value_type(), ValueType::Int64);
}
