//! The request to create a collection as the orchestrator receives it: its validation, the
//! identifier field every collection gets, and the parameters handed on to the collection
//! and index managers.
use crate::collection;
use crate::document::{Document, ValueType};
use crate::error::{Code, VixError};
use crate::index::{self, IndexType, IDENTIFIER_INDEX_TYPE};
use crate::text::{check_name, name_fault, NameFault};
use vstd::prelude::*;

verus! {

/// A field of a collection to create, with the kind of index it gets.
#[derive(Clone, Debug)]
pub struct CreateCollectionParamField {
    pub name: String,
    pub field_type: ValueType,
    pub index_type: IndexType,
}

/// A request to create a collection.
#[derive(Debug)]
pub struct CreateCollectionParam {
    pub name: String,
    pub fields: Vec<CreateCollectionParamField>,
}

/// What the orchestrator offers: the life of collections and their documents.
pub trait Orchestrator {
    fn create_collection(&mut self, param: CreateCollectionParam) -> Result<(), VixError>;

    fn delete_collection(&mut self, name: &str) -> Result<(), VixError>;

    fn load_collection(&mut self) -> Result<(), VixError>;

    fn get_document(&self, collection: &str, id: &str) -> Result<Document, VixError>;

    fn insert_document(&mut self, collection: String, document: Document) -> Result<(), VixError>;
}

/// The message of the error for a refused name.
pub open spec fn name_fault_message(f: NameFault) -> Seq<char> {
    match f {
        NameFault::Empty => "name is empty"@,
        NameFault::LeadingUnderscore => "name cannot start with _"@,
        NameFault::InvalidChar => "name should contain only alphanumeric and underscore"@,
    }
}

fn name_error(f: NameFault) -> (e: VixError)
    ensures
        e.code == Code::ParseError,
        e.message@ == name_fault_message(f),
{
    match f {
        NameFault::Empty => VixError::new(Code::ParseError, "name is empty"),
        NameFault::LeadingUnderscore => VixError::new(Code::ParseError, "name cannot start with _"),
        NameFault::InvalidChar => VixError::new(
            Code::ParseError,
            "name should contain only alphanumeric and underscore",
        ),
    }
}

/// Checks a name; the error says what is wrong with it.
pub open spec fn name_checked(name: Seq<char>, r: Result<(), VixError>) -> bool {
    match name_fault(name) {
        None => r is Ok,
        Some(f) => r matches Err(e) && e.code == Code::ParseError && e.message@ == name_fault_message(f),
    }
}

/// The fault of the first field, in order, whose name is refused.
pub open spec fn first_fault(fields: Seq<CreateCollectionParamField>) -> Option<NameFault>
    decreases fields.len(),
{
    if fields.len() == 0 {
        None
    } else {
        match name_fault(fields[0].name@) {
            Some(f) => Some(f),
            None => first_fault(fields.drop_first()),
        }
    }
}

impl CreateCollectionParamField {
    /// The field that holds each document's id: `_id`, a string, with the identifier
    /// index.
    pub fn identifier() -> (r: CreateCollectionParamField)
        ensures
            r.name@ == "_id"@,
            r.field_type == ValueType::String,
            r.index_type@ == IDENTIFIER_INDEX_TYPE@,
    {
        CreateCollectionParamField {
            name: "_id".to_owned(),
            field_type: ValueType::String,
            index_type: IDENTIFIER_INDEX_TYPE,
        }
    }

    /// Checks the field's name.
    pub fn validate(&self) -> (r: Result<(), VixError>)
        ensures
            name_checked(self.name@, r),
    {
        self.validate_name()
    }

    /// Checks the field's name: not empty, not starting with `_`, and made of lowercase
    /// ASCII letters, digits and `_`.
    pub fn validate_name(&self) -> (r: Result<(), VixError>)
        ensures
            name_checked(self.name@, r),
    {
        match check_name(self.name.as_str()) {
            None => Ok(()),
            Some(f) => Err(name_error(f)),
        }
    }

    /// The request to create the field's index in the collection.
    pub fn index_create_param(&self, collection: &str) -> (r: index::CreateParam)
        ensures
            r.collection@ == collection@,
            r.field@ == self.name@,
            r.field_type == self.field_type,
            r.index_type == self.index_type,
    {
        index::CreateParam {
            collection: collection.to_owned(),
            field: self.name.clone(),
            field_type: self.field_type,
            index_type: self.index_type,
        }
    }

    /// The field as the collection manager records it.
    pub fn collection_field(&self) -> (r: collection::Field)
        ensures
            r.name@ == self.name@,
            r.field_type == self.field_type,
    {
        collection::Field { name: self.name.clone(), field_type: self.field_type }
    }
}

impl CreateCollectionParam {
    /// Checks the collection's name, then each field's name in order; the first fault found
    /// is the error.
    pub fn validate(&self) -> (r: Result<(), VixError>)
        ensures
            match name_fault(self.name@) {
                Some(f) => r matches Err(e) && e.code == Code::ParseError && e.message@
                    == name_fault_message(f),
                None => match first_fault(self.fields@) {
                    None => r is Ok,
                    Some(f) => r matches Err(e) && e.code == Code::ParseError && e.message@
                        == name_fault_message(f),
                },
            },
    {
        match self.validate_name() {
            Ok(()) => {},
            Err(e) => {
                return Err(e);
            },
        }
        let n = self.fields.len();
        let mut i: usize = 0;
        assert(self.fields@.skip(0) =~= self.fields@);
        while i < n
            invariant
                n == self.fields@.len(),
                i <= n,
                name_fault(self.name@) is None,
                first_fault(self.fields@) == first_fault(self.fields@.skip(i as int)),
            decreases n - i,
        {
            proof {
                assert(self.fields@.skip(i as int)[0] == self.fields@[i as int]);
                assert(self.fields@.skip(i as int).drop_first() =~= self.fields@.skip(i + 1));
            }
            match self.fields[i].validate() {
                Ok(()) => {},
                Err(e) => {
                    return Err(e);
                },
            }
            i = i + 1;
        }
        assert(self.fields@.skip(n as int).len() == 0);
        Ok(())
    }

    /// Checks the collection's name: not empty, not starting with `_`, and made of
    /// lowercase ASCII letters, digits and `_`.
    pub fn validate_name(&self) -> (r: Result<(), VixError>)
        ensures
            name_checked(self.name@, r),
    {
        match check_name(self.name.as_str()) {
            None => Ok(()),
            Some(f) => Err(name_error(f)),
        }
    }

    /// The request as the collection manager takes it: the name and each field's name and
    /// type, in order.
    pub fn collection_create_param(&self) -> (r: collection::CreateCollectionParam)
        ensures
            r.name@ == self.name@,
            r.fields@.len() == self.fields@.len(),
            forall|i: int| 0 <= i < r.fields@.len() ==> #[trigger] r.fields@[i].name@ == self.fields@[i].name@,
            forall|i: int| 0 <= i < r.fields@.len() ==> #[trigger] r.fields@[i].field_type == self.fields@[i].field_type,
    {
        let mut fields: Vec<collection::Field> = Vec::new();
        let mut i: usize = 0;
        while i < self.fields.len()
            invariant
                i <= self.fields@.len(),
                fields@.len() == i,
                forall|j: int| 0 <= j < i ==> #[trigger] fields@[j].name@ == self.fields@[j].name@,
                forall|j: int| 0 <= j < i ==> #[trigger] fields@[j].field_type == self.fields@[j].field_type,
            decreases self.fields@.len() - i,
        {
            let f = self.fields[i].collection_field();
            fields.push(f);
            assert(fields@[i as int].name@ == self.fields@[i as int].name@);
            i = i + 1;
        }
        collection::CreateCollectionParam { name: self.name.clone(), fields }
    }
}

} // verus!
