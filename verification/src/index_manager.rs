//! The index manager: which index kinds each field type allows, and the identifier index
//! of each collection.
use crate::document::{Document, ValueType};
use crate::error::{Code, VixError};
use crate::fieldmap::string_eq;
use crate::identifier::{self, document_same};
use crate::index::{CreateParam, GetParam, IndexType};
use vstd::prelude::*;

verus! {

/// The index kinds a field type allows, as (field type, kinds) pairs.
pub open spec fn allowed_for(allowed: Seq<(ValueType, Vec<IndexType>)>, t: ValueType) -> Option<Seq<Seq<char>>>
    decreases allowed.len(),
{
    if allowed.len() == 0 {
        None
    } else if allowed[0].0 == t {
        Some(allowed[0].1@.map_values(|k: IndexType| k@))
    } else {
        allowed_for(allowed.drop_first(), t)
    }
}

/// The index manager.
pub struct ManagerImpl {
    allowed_index_types: Vec<(ValueType, Vec<IndexType>)>,
    identifier_manager: identifier::ManagerImpl,
}

impl ManagerImpl {
    /// The kinds each field type allows.
    pub closed spec fn allowed(&self) -> Seq<(ValueType, Vec<IndexType>)> {
        self.allowed_index_types@
    }

    /// The documents of each collection's identifier index, by id.
    pub closed spec fn identifier_index(&self) -> Map<Seq<char>, Map<Seq<char>, Document>> {
        self.identifier_manager.index()
    }

    /// The collections that have an identifier index.
    pub closed spec fn collections(&self) -> Set<Seq<char>> {
        self.identifier_manager.collections()
    }

    /// A manager with the kinds each field type allows, the first entry of a type counting.
    pub fn new(allowed_index_types: Vec<(ValueType, Vec<IndexType>)>) -> (r: ManagerImpl)
        ensures
            r.allowed() == allowed_index_types@,
            r.collections() == Set::<Seq<char>>::empty(),
            r.identifier_index() == Map::<Seq<char>, Map<Seq<char>, Document>>::empty(),
    {
        ManagerImpl { allowed_index_types, identifier_manager: identifier::ManagerImpl::new() }
    }

    /// Creates the identifier index of the collection.
    pub fn create(&mut self, param: CreateParam) -> (r: Result<(), VixError>)
        ensures
            final(self).allowed() == old(self).allowed(),
            old(self).collections().contains(param.collection@) ==> (r matches Err(e) && e.code == Code::Exists)
                && final(self).collections() == old(self).collections()
                && final(self).identifier_index() == old(self).identifier_index(),
            !old(self).collections().contains(param.collection@) ==> r is Ok && final(self).collections()
                == old(self).collections().insert(param.collection@) && final(self).identifier_index()
                == old(self).identifier_index().insert(param.collection@, Map::empty()),
    {
        self.identifier_manager.create(identifier::CreateParam { collection: param.collection })
    }

    /// The document of a collection with the id, from its identifier index.
    pub fn get(&self, param: GetParam) -> (r: Result<Document, VixError>)
        ensures
            !self.collections().contains(param.collection@) ==> (r matches Err(e) && e.code == Code::FatalError),
            self.collections().contains(param.collection@) ==> match r {
                Ok(d) => self.identifier_index()[param.collection@].contains_key(param.id@) && document_same(
                    d,
                    self.identifier_index()[param.collection@][param.id@],
                ),
                Err(e) => !self.identifier_index()[param.collection@].contains_key(param.id@) && e.code
                    == Code::NotFound,
            },
    {
        self.identifier_manager.get(identifier::GetParam { collection: param.collection, id: param.id })
    }

    /// Checks that the field type allows the index kind: a parse error when the type is
    /// not listed or does not allow the kind.
    pub fn validate_field(&self, field_type: &ValueType, index_type: IndexType) -> (r: Result<(), VixError>)
        ensures
            match allowed_for(self.allowed(), *field_type) {
                None => r matches Err(e) && e.code == Code::ParseError && e.message@ == "unknown index type"@,
                Some(kinds) => if kinds.contains(index_type@) {
                    r is Ok
                } else {
                    r matches Err(e) && e.code == Code::ParseError && e.message@
                        == "index type is unsupported for field type"@
                },
            },
    {
        let allowed = &self.allowed_index_types;
        let mut i: usize = 0;
        assert(allowed@.skip(0) =~= allowed@);
        while i < allowed.len()
            invariant
                i <= allowed@.len(),
                allowed@ == self.allowed(),
                allowed_for(allowed@, *field_type) == allowed_for(allowed@.skip(i as int), *field_type),
            decreases allowed@.len() - i,
        {
            proof {
                assert(allowed@.skip(i as int)[0] == allowed@[i as int]);
                assert(allowed@.skip(i as int).drop_first() =~= allowed@.skip(i + 1));
            }
            if allowed[i].0 == *field_type {
                let kinds = &allowed[i].1;
                let ghost view = kinds@.map_values(|k: IndexType| k@);
                let mut j: usize = 0;
                while j < kinds.len()
                    invariant
                        j <= kinds@.len(),
                        i < allowed@.len(),
                        allowed@[i as int].0 == *field_type,
                        *kinds == allowed@[i as int].1,
                        allowed@ == self.allowed(),
                        allowed_for(allowed@, *field_type) == allowed_for(allowed@.skip(i as int), *field_type),
                        view == kinds@.map_values(|k: IndexType| k@),
                        forall|l: int| 0 <= l < j ==> view[l] != index_type@,
                    decreases kinds@.len() - j,
                {
                    if string_eq(kinds[j], index_type) {
                        proof {
                            assert(view[j as int] == index_type@);
                            assert(view.contains(index_type@));
                            assert(allowed@.skip(i as int)[0] == allowed@[i as int]);
                            assert(allowed_for(allowed@.skip(i as int), *field_type) == Some(view));
                        }
                        return Ok(());
                    }
                    j = j + 1;
                }
                return Err(VixError::new(Code::ParseError, "index type is unsupported for field type"));
            }
            i = i + 1;
        }
        assert(allowed@.skip(i as int).len() == 0);
        Err(VixError::new(Code::ParseError, "unknown index type"))
    }
}

} // verus!
