//! Insert requests as the query service hands them on: to the transaction log and to the
//! document service.
use crate::document::{self, RawValue, Value};
use crate::fieldmap::FieldMap;
use crate::translog::{self, InsertData, Transaction};
use vstd::prelude::*;

verus! {

/// An insert as a client sends it: the collection, the document id and the raw payload.
#[derive(Debug)]
pub struct InsertParam {
    pub collection_id: String,
    pub document_id: String,
    pub payload: FieldMap<RawValue>,
}

/// An insert whose payload has been checked against the collection's fields.
#[derive(Debug)]
pub struct ParsedInsertParam {
    pub collection_id: String,
    pub document_id: String,
    pub payload: FieldMap<Value>,
}

/// A query for the documents whose field equals the value.
#[derive(Debug)]
pub struct EqualityQuery {
    pub value: Value,
}

/// Two values are the same: the same variant holding the same string or integer.
pub open spec fn value_same(a: Value, b: Value) -> bool {
    match (a, b) {
        (Value::String(x), Value::String(y)) => x@ == y@,
        (Value::Int64(x), Value::Int64(y)) => x == y,
        _ => false,
    }
}

/// Two payloads hold the same fields with the same values.
pub open spec fn payload_same(a: Map<Seq<char>, Value>, b: Map<Seq<char>, Value>) -> bool {
    &&& a.dom() == b.dom()
    &&& forall|k: Seq<char>| #[trigger] a.contains_key(k) ==> value_same(a[k], b[k])
}

/// A copy of a value.
pub fn copy_value(v: &Value) -> (r: Value)
    ensures
        value_same(r, *v),
{
    match v {
        Value::String(s) => Value::String(s.clone()),
        Value::Int64(n) => Value::Int64(*n),
    }
}

/// A copy of a payload.
pub fn copy_payload(p: &FieldMap<Value>) -> (r: FieldMap<Value>)
    requires
        p.wf(),
    ensures
        r.wf(),
        payload_same(r@, p@),
{
    proof {
        p.lemma_entries();
    }
    let mut r: FieldMap<Value> = FieldMap::new();
    let n = p.entry_count();
    let mut i: usize = 0;
    while i < n
        invariant
            n == p.count(),
            i <= n,
            p.wf(),
            r.wf(),
            forall|j: int| 0 <= j < p.count() ==> #[trigger] p@.contains_key(p.entry(j).0),
            forall|k: Seq<char>| #[trigger] p@.contains_key(k) ==> exists|j: int| 0 <= j < p.count() && p.entry(j).0 == k,
            forall|j: int| 0 <= j < i ==> #[trigger] r@.contains_key(p.entry(j).0),
            forall|k: Seq<char>| #[trigger] r@.contains_key(k) ==> p@.contains_key(k) && value_same(r@[k], p@[k]),
        decreases n - i,
    {
        let (key, _) = p.entry_at(i);
        assert(p@.contains_key(p.entry(i as int).0));
        let v = match p.get(key.as_str()) {
            Some(v) => v,
            None => {
                assert(false);
                return r;
            },
        };
        let ghost before = r@;
        let c = copy_value(v);
        r.insert(key.clone(), c);
        let ghost k_i = p.entry(i as int).0;
        i = i + 1;
        assert forall|j: int| 0 <= j < i implies #[trigger] r@.contains_key(p.entry(j).0) by {
            if j < i - 1 {
                assert(before.contains_key(p.entry(j).0));
            } else {
                assert(p.entry(j).0 == k_i);
            }
        }
        assert forall|k: Seq<char>| #[trigger] r@.contains_key(k) implies p@.contains_key(k) && value_same(r@[k], p@[k]) by {
            if k != k_i {
                assert(before.contains_key(k));
            }
        }
    }
    assert(r@.dom() =~= p@.dom()) by {
        assert forall|k: Seq<char>| p@.contains_key(k) implies r@.contains_key(k) by {
            let j = choose|j: int| 0 <= j < p.count() && p.entry(j).0 == k;
            assert(r@.contains_key(p.entry(j).0));
        }
    }
    r
}

impl ParsedInsertParam {
    /// The insert as the document service takes it, with the operation's sequence number.
    pub fn document_insert_param(self, op_seq: u64) -> (r: document::InsertParam)
        ensures
            r.id == self.document_id,
            r.op_seq == op_seq,
            r.payload == self.payload,
    {
        document::InsertParam { id: self.document_id, op_seq, payload: self.payload }
    }

    /// The log record of the insert, with the operation's sequence number.
    pub fn translog_insert_param(&self, op_seq: u64) -> (r: translog::InsertParam)
        requires
            self.payload.wf(),
        ensures
            r.op_seq == op_seq,
            r.collection_id@ == self.collection_id@,
            match r.transaction {
                Transaction::Insert(d) => d.document_id@ == self.document_id@ && d.payload.wf()
                    && payload_same(d.payload@, self.payload@),
            },
    {
        translog::InsertParam {
            op_seq,
            collection_id: self.collection_id.clone(),
            transaction: Transaction::Insert(
                InsertData { document_id: self.document_id.clone(), payload: copy_payload(&self.payload) },
            ),
        }
    }
}

} // verus!
