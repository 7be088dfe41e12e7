//! What the transaction log records of an operation.
use crate::fieldmap::FieldMap;
use crate::document::Value;
use vstd::prelude::*;

verus! {

/// The data of an insert: the document's id and payload.
#[derive(Debug)]
pub struct InsertData {
    pub document_id: String,
    pub payload: FieldMap<Value>,
}

/// An operation the log records.
#[derive(Debug)]
pub enum Transaction {
    Insert(InsertData),
}

/// A log record: the operation's sequence number, its collection and the operation.
#[derive(Debug)]
pub struct InsertParam {
    pub op_seq: u64,
    pub collection_id: String,
    pub transaction: Transaction,
}

} // verus!
