//! Documents, their field values and types, and how documents are keyed in the engine:
//! `id_<id>` maps a document id to its sequence id, `seq_<8 bytes>` maps a sequence id to
//! the stored payload.
use crate::codec::{append_bytes, append_u64, le64, lemma_le_roundtrip, read_u64, u64_at};
use crate::error::{Code, VixError};
use crate::fieldmap::{string_eq, FieldMap};
use vstd::prelude::*;
use vstd::string::StringSliceAdditionalSpecFns;

verus! {

/// The type of a field.
#[derive(Clone, Copy, Debug, PartialEq, Eq, Structural)]
pub enum ValueType {
    String,
    Int64,
}

/// A field value of a document.
#[derive(Clone, Debug)]
pub enum Value {
    String(String),
    Int64(i64),
}

/// A field value as a request carries it, before it is checked against the field's type.
/// A float is carried as the bits of its `f64`.
#[derive(Debug)]
pub enum RawValue {
    String(String),
    Int64(i64),
    Float64(u64),
    Array(Vec<RawValue>),
}

/// A stored document.
#[derive(Debug)]
pub struct Document {
    pub id: String,
    pub seq_id: u64,
    pub payload: FieldMap<Value>,
}

/// A document to insert, with the operation sequence number it was given.
#[derive(Debug)]
pub struct InsertParam {
    pub id: String,
    pub op_seq: u64,
    pub payload: FieldMap<Value>,
}

impl InsertParam {
    /// The document the insert stores: its sequence id is the operation's.
    pub fn document(self) -> (r: Document)
        ensures
            r.id == self.id,
            r.seq_id == self.op_seq,
            r.payload == self.payload,
    {
        Document { id: self.id, seq_id: self.op_seq, payload: self.payload }
    }
}

/// The type of a value.
pub open spec fn type_of(v: Value) -> ValueType {
    match v {
        Value::String(_) => ValueType::String,
        Value::Int64(_) => ValueType::Int64,
    }
}

impl Value {
    /// The type of the value.
    pub fn value_type(&self) -> (r: ValueType)
        ensures
            r == type_of(*self),
    {
        match self {
            Value::String(_) => ValueType::String,
            Value::Int64(_) => ValueType::Int64,
        }
    }
}

/// The value a raw value becomes as a field of the type, or `None` where it does not fit.
pub open spec fn convert(t: ValueType, raw: RawValue) -> Option<Value> {
    match (t, raw) {
        (ValueType::String, RawValue::String(s)) => Some(Value::String(s)),
        (ValueType::Int64, RawValue::Int64(n)) => Some(Value::Int64(n)),
        _ => None,
    }
}

/// An integer given for an integer field is kept as it is, every `i64` alike, and a string
/// given for a string field keeps its characters; any other pairing of a raw value and a
/// type is refused.
pub proof fn lemma_convert_keeps_values(n: i64, s: String, bits: u64, items: Vec<RawValue>)
    ensures
        convert(ValueType::Int64, RawValue::Int64(n)) matches Some(Value::Int64(m)) && m == n,
        convert(ValueType::String, RawValue::String(s)) matches Some(Value::String(t)) && t@ == s@,
        convert(ValueType::Int64, RawValue::String(s)) is None,
        convert(ValueType::String, RawValue::Int64(n)) is None,
        convert(ValueType::Int64, RawValue::Float64(bits)) is None,
        convert(ValueType::String, RawValue::Float64(bits)) is None,
        convert(ValueType::Int64, RawValue::Array(items)) is None,
        convert(ValueType::String, RawValue::Array(items)) is None,
{
}

impl ValueType {
    /// The type named `string` or `int64`; a parse error for any other name.
    pub fn new(value_type_str: &str) -> (r: Result<ValueType, VixError>)
        ensures
            match r {
                Ok(t) => (value_type_str@ == "string"@ && t == ValueType::String) || (
                value_type_str@ == "int64"@ && t == ValueType::Int64),
                Err(e) => value_type_str@ != "string"@ && value_type_str@ != "int64"@ && e.code
                    == Code::ParseError,
            },
    {
        if string_eq(value_type_str, "string") {
            Ok(ValueType::String)
        } else if string_eq(value_type_str, "int64") {
            Ok(ValueType::Int64)
        } else {
            Err(VixError::new(Code::ParseError, "invalid value type"))
        }
    }

    /// The type's name: `string` or `int64`.
    pub fn string(&self) -> (r: String)
        ensures
            *self == ValueType::String ==> r@ == "string"@,
            *self == ValueType::Int64 ==> r@ == "int64"@,
    {
        match self {
            ValueType::String => "string".to_owned(),
            ValueType::Int64 => "int64".to_owned(),
        }
    }

    /// The raw value as a field of this type: a string for a string field, an integer for
    /// an integer field; a parse error for anything else.
    pub fn value(&self, raw_value: &RawValue) -> (r: Result<Value, VixError>)
        ensures
            match r {
                Ok(v) => convert(*self, *raw_value) == Some(v),
                Err(e) => convert(*self, *raw_value) is None && e.code == Code::ParseError,
            },
            *self == ValueType::Int64 && *raw_value is Int64 ==> r == Ok::<Value, VixError>(
                Value::Int64(raw_value->Int64_0),
            ),
            *self == ValueType::String && *raw_value is String ==> (r matches Ok(Value::String(t)) && t@
                == raw_value->String_0@),
    {
        match self {
            ValueType::String => match raw_value {
                RawValue::String(s) => Ok(Value::String(s.clone())),
                _ => Err(VixError::new(Code::ParseError, "invalid value for string")),
            },
            ValueType::Int64 => match raw_value {
                RawValue::Int64(n) => Ok(Value::Int64(*n)),
                _ => Err(VixError::new(Code::ParseError, "invalid value for int64")),
            },
        }
    }
}

/// `id_` followed by the document id's bytes.
pub open spec fn id_key(id_bytes: Seq<u8>) -> Seq<u8> {
    seq![105u8, 100u8, 95u8] + id_bytes
}

/// `seq_` followed by the sequence id's eight little-endian bytes.
pub open spec fn seq_key(seq_id: u64) -> Seq<u8> {
    seq![115u8, 101u8, 113u8, 95u8] + le64(seq_id)
}

/// The key under which the engine stores a document id's sequence id.
pub fn key_from_id(id: &str) -> (r: Vec<u8>)
    ensures
        r@ == id_key(id.spec_bytes()),
{
    let mut r: Vec<u8> = vec![105u8, 100u8, 95u8];
    append_bytes(&mut r, id.as_bytes());
    assert(r@ =~= id_key(id.spec_bytes()));
    r
}

/// The key under which the engine stores the document with the sequence id.
pub fn key_from_seq_id(seq_id: &u64) -> (r: Vec<u8>)
    ensures
        r@ == seq_key(*seq_id),
{
    let mut r: Vec<u8> = vec![115u8, 101u8, 113u8, 95u8];
    append_u64(&mut r, *seq_id);
    assert(r@ =~= seq_key(*seq_id));
    r
}

/// An id key and a sequence key never coincide, and distinct sequence ids and distinct
/// document ids give distinct keys: the two kinds of entry never overwrite each other.
pub proof fn lemma_keys_distinct(id_bytes: Seq<u8>, other_id_bytes: Seq<u8>, s: u64, t: u64)
    ensures
        id_key(id_bytes) != seq_key(s),
        s != t ==> seq_key(s) != seq_key(t),
        id_bytes != other_id_bytes ==> id_key(id_bytes) != id_key(other_id_bytes),
{
    lemma_le_roundtrip();
    assert(id_key(id_bytes)[0] != seq_key(s)[0]);
    if seq_key(s) == seq_key(t) {
        assert(seq_key(s).subrange(4, 12) =~= le64(s));
        assert(seq_key(t).subrange(4, 12) =~= le64(t));
    }
    if id_key(id_bytes) == id_key(other_id_bytes) {
        assert(id_key(id_bytes).subrange(3, id_key(id_bytes).len() as int) =~= id_bytes);
        assert(id_key(other_id_bytes).subrange(3, id_key(other_id_bytes).len() as int) =~= other_id_bytes);
    }
}

/// Reads a stored sequence id: eight little-endian bytes; a fatal error for any other
/// length.
pub fn seq_id_from_value(raw: &[u8]) -> (r: Result<u64, VixError>)
    ensures
        match r {
            Ok(s) => raw@.len() == 8 && s == u64_at(raw@, 0),
            Err(e) => raw@.len() != 8 && e.code == Code::FatalError,
        },
{
    if raw.len() != 8 {
        return Err(VixError::new(Code::FatalError, "invalid seq_id: length is not 8"));
    }
    Ok(read_u64(raw, 0))
}

/// The sequence id already given to a document, from the outcome of reading its id key:
/// a value read, `None` when the engine has no such document, or the error passed on.
pub fn existing_seq_id(lookup: Result<u64, VixError>) -> (r: Result<Option<u64>, VixError>)
    ensures
        match lookup {
            Ok(s) => r == Ok::<Option<u64>, VixError>(Some(s)),
            Err(e) => if e.code == Code::DocumentNotFound {
                r == Ok::<Option<u64>, VixError>(None)
            } else {
                r matches Err(e2) && e2.code == e.code
            },
        },
{
    match lookup {
        Ok(s) => Ok(Some(s)),
        Err(e) => if e.code == Code::DocumentNotFound {
            Ok(None)
        } else {
            Err(e)
        },
    }
}

/// The engine writes an insert makes: the id key with the new sequence id, when the
/// document is new, and the key under which the payload goes.
#[derive(Debug)]
pub struct InsertWrites {
    pub id_entry: Option<(Vec<u8>, Vec<u8>)>,
    pub doc_key: Vec<u8>,
}

/// What an insert writes: a new document is given the operation's sequence number and its
/// id key is written; a known document keeps its sequence id. The payload goes under the
/// sequence key either way.
pub fn plan_insert(document_id: &str, op_seq: u64, existing: Option<u64>) -> (r: InsertWrites)
    ensures
        match existing {
            Some(s) => r.id_entry is None && r.doc_key@ == seq_key(s),
            None => {
                &&& r.id_entry matches Some((k, v))
                &&& k@ == id_key(document_id.spec_bytes())
                &&& v@ == le64(op_seq)
                &&& r.doc_key@ == seq_key(op_seq)
            },
        },
{
    match existing {
        Some(s) => InsertWrites { id_entry: None, doc_key: key_from_seq_id(&s) },
        None => {
            let v = vstd::bytes::u64_to_le_bytes(op_seq);
            InsertWrites {
                id_entry: Some((key_from_id(document_id), v)),
                doc_key: key_from_seq_id(&op_seq),
            }
        },
    }
}

/// The store after an insert of `doc` for the id: the writes `plan_insert` gives, given the
/// sequence id the store already holds for the id, if any.
pub open spec fn store_after_insert(
    store: Map<Seq<u8>, Seq<u8>>,
    id_bytes: Seq<u8>,
    op_seq: u64,
    doc: Seq<u8>,
) -> Map<Seq<u8>, Seq<u8>> {
    if store.contains_key(id_key(id_bytes)) {
        store.insert(seq_key(u64_at(store[id_key(id_bytes)], 0)), doc)
    } else {
        store.insert(id_key(id_bytes), le64(op_seq)).insert(seq_key(op_seq), doc)
    }
}

/// Reading a document back by id after an insert finds the inserted payload: the id key
/// holds eight bytes whose sequence key holds the payload. A document inserted again keeps
/// its first sequence id.
pub proof fn lemma_insert_then_get_by_id(
    store: Map<Seq<u8>, Seq<u8>>,
    id_bytes: Seq<u8>,
    op_seq: u64,
    doc: Seq<u8>,
)
    requires
        store.contains_key(id_key(id_bytes)) ==> store[id_key(id_bytes)].len() == 8,
    ensures
        ({
            let after = store_after_insert(store, id_bytes, op_seq, doc);
            &&& after.contains_key(id_key(id_bytes))
            &&& after[id_key(id_bytes)].len() == 8
            &&& after.contains_key(seq_key(u64_at(after[id_key(id_bytes)], 0)))
            &&& after[seq_key(u64_at(after[id_key(id_bytes)], 0))] == doc
            &&& store.contains_key(id_key(id_bytes)) ==> after[id_key(id_bytes)] == store[id_key(id_bytes)]
        }),
{
    lemma_le_roundtrip();
    let s = u64_at(store[id_key(id_bytes)], 0);
    lemma_keys_distinct(id_bytes, id_bytes, s, op_seq);
    lemma_keys_distinct(id_bytes, id_bytes, op_seq, op_seq);
    assert(le64(op_seq).subrange(0, 8) =~= le64(op_seq));
}

} // verus!
