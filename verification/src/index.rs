//! Index keys and the parameters of the index managers.
use crate::document::ValueType;
use crate::text::join3;
use vstd::prelude::*;

verus! {

/// The kind of an index, by name.
pub type IndexType = &'static str;

/// The index kind that every collection has on its document ids.
pub const IDENTIFIER_INDEX_TYPE: IndexType = "identifier";

/// The key of a field's index: `<collection>:<field>`.
pub fn field_key(collection: &str, field: &str) -> (r: String)
    ensures
        r@ == collection@ + ":"@ + field@,
{
    join3(collection, ":", field)
}

/// The key of a field's index buffer: `<collection>:<field>`.
pub fn buffer_key(collection: &str, field: &str) -> (r: String)
    ensures
        r@ == collection@ + ":"@ + field@,
{
    join3(collection, ":", field)
}

/// A request to create the index of a collection's field.
#[derive(Debug)]
pub struct CreateParam {
    pub collection: String,
    pub field: String,
    pub field_type: ValueType,
    pub index_type: IndexType,
}

/// A field to index, by name, and the kind of index.
#[derive(Debug)]
pub struct CreateParamField {
    pub name: String,
    pub index_type: IndexType,
}

/// What a type manager creates: the index of a collection's field.
#[derive(Debug)]
pub struct TypeCreateParam {
    pub collection: String,
    pub field: String,
}

/// A request to drop the index of a collection's field.
#[derive(Debug)]
pub struct DeleteParam {
    pub collection: String,
    pub field: String,
}

/// A request for a document of a collection by id.
#[derive(Debug)]
pub struct GetParam {
    pub collection: String,
    pub id: String,
}

/// A request to flush the buffer of a field's index.
#[derive(Debug)]
pub struct FlushParam {
    pub collection: String,
    pub field: String,
}

/// A request to create the identifier index of a collection.
#[derive(Debug)]
pub struct IdentifierCreateParam {
    pub collection: String,
}

/// A request for a document of the identifier index.
#[derive(Debug)]
pub struct IdentifierGetParam {
    pub collection: String,
    pub id: String,
}

/// A request to drop the identifier index of a collection.
#[derive(Debug)]
pub struct IdentifierDeleteParam {
    pub collection: String,
}

} // verus!
