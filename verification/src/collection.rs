//! Collections: the parameters that create one and their validation, and the state kept
//! of each collection: its field types and whether it is ready for documents.
use crate::document::{convert, type_of, RawValue, Value, ValueType};
use crate::error::{Code, VixError};
use crate::fieldmap::FieldMap;
use crate::text::{check_name, name_fault, NameFault};
use vstd::prelude::*;

verus! {

/// A field of a collection to create: its name and type.
#[derive(Clone, Debug)]
pub struct CreateParamField {
    pub name: String,
    pub field_type: ValueType,
}

/// A request to create a collection with the given id and fields.
#[derive(Debug)]
pub struct CreateParam {
    pub id: String,
    pub fields: Vec<CreateParamField>,
}

/// A field as the collection store records it.
#[derive(Debug)]
pub struct CreatePortParamField {
    pub name: String,
    pub field_type: ValueType,
}

/// What the collection store records of a new collection: its id, the internal id its
/// data is kept under, and its fields.
#[derive(Debug)]
pub struct CreatePortParam {
    pub id: String,
    pub internal_id: String,
    pub fields: Vec<CreatePortParamField>,
}

/// A field of a stored collection.
#[derive(Debug)]
pub struct GetAllPortResultCollectionField {
    pub name: String,
    pub field_type: ValueType,
}

/// A stored collection: its id, internal id and fields.
#[derive(Debug)]
pub struct GetAllPortResultCollection {
    pub id: String,
    pub internal_id: String,
    pub fields: Vec<GetAllPortResultCollectionField>,
}

/// Every stored collection.
#[derive(Debug)]
pub struct GetAllPortResult {
    pub collections: Vec<GetAllPortResultCollection>,
}

/// The message of the error for a refused collection id.
pub open spec fn id_fault_message(f: NameFault) -> Seq<char> {
    match f {
        NameFault::Empty => "id is empty"@,
        NameFault::LeadingUnderscore => "id cannot start with _"@,
        NameFault::InvalidChar => "id should contain only alphanumeric and underscore"@,
    }
}

/// The message of the error for a refused field name.
pub open spec fn field_fault_message(f: NameFault) -> Seq<char> {
    match f {
        NameFault::Empty => "field name is empty"@,
        NameFault::LeadingUnderscore => "field name cannot start with _"@,
        NameFault::InvalidChar => "field name should contain only alphanumeric and underscore"@,
    }
}

/// The fault of the first field, in order, whose name is refused.
pub open spec fn first_field_fault(fields: Seq<CreateParamField>) -> Option<NameFault>
    decreases fields.len(),
{
    if fields.len() == 0 {
        None
    } else {
        match name_fault(fields[0].name@) {
            Some(f) => Some(f),
            None => first_field_fault(fields.drop_first()),
        }
    }
}

impl CreateParamField {
    /// Checks the field's name: not empty, not starting with `_`, and made of lowercase
    /// ASCII letters, digits and `_`.
    pub fn validate(&self) -> (r: Result<(), VixError>)
        ensures
            match name_fault(self.name@) {
                None => r is Ok,
                Some(f) => r matches Err(e) && e.code == Code::ParseError && e.message@
                    == field_fault_message(f),
            },
    {
        match check_name(self.name.as_str()) {
            None => Ok(()),
            Some(NameFault::Empty) => Err(VixError::new(Code::ParseError, "field name is empty")),
            Some(NameFault::LeadingUnderscore) => Err(
                VixError::new(Code::ParseError, "field name cannot start with _"),
            ),
            Some(NameFault::InvalidChar) => Err(
                VixError::new(
                    Code::ParseError,
                    "field name should contain only alphanumeric and underscore",
                ),
            ),
        }
    }

    /// The field as the collection store records it.
    pub fn create_port_param_field(&self) -> (r: CreatePortParamField)
        ensures
            r.name@ == self.name@,
            r.field_type == self.field_type,
    {
        CreatePortParamField { name: self.name.clone(), field_type: self.field_type }
    }
}

impl CreateParam {
    /// Checks the collection id, then each field in order; the first fault found is the
    /// error.
    pub fn validate(&self) -> (r: Result<(), VixError>)
        ensures
            match name_fault(self.id@) {
                Some(f) => r matches Err(e) && e.code == Code::ParseError && e.message@
                    == id_fault_message(f),
                None => match first_field_fault(self.fields@) {
                    None => r is Ok,
                    Some(f) => r matches Err(e) && e.code == Code::ParseError && e.message@
                        == field_fault_message(f),
                },
            },
    {
        match check_name(self.id.as_str()) {
            None => {},
            Some(NameFault::Empty) => {
                return Err(VixError::new(Code::ParseError, "id is empty"));
            },
            Some(NameFault::LeadingUnderscore) => {
                return Err(VixError::new(Code::ParseError, "id cannot start with _"));
            },
            Some(NameFault::InvalidChar) => {
                return Err(
                    VixError::new(
                        Code::ParseError,
                        "id should contain only alphanumeric and underscore",
                    ),
                );
            },
        }
        let n = self.fields.len();
        let mut i: usize = 0;
        assert(self.fields@.skip(0) =~= self.fields@);
        while i < n
            invariant
                n == self.fields@.len(),
                i <= n,
                name_fault(self.id@) is None,
                first_field_fault(self.fields@) == first_field_fault(self.fields@.skip(i as int)),
            decreases n - i,
        {
            proof {
                assert(self.fields@.skip(i as int)[0] == self.fields@[i as int]);
                assert(self.fields@.skip(i as int).drop_first() =~= self.fields@.skip(i + 1));
            }
            match self.fields[i].validate() {
                Ok(()) => {},
                Err(e) => {
                    assert(name_fault(self.id@) is None);
                    assert(name_fault(self.fields@[i as int].name@) is Some);
                    assert(first_field_fault(self.fields@.skip(i as int)) == name_fault(self.fields@[i as int].name@));
                    return Err(e);
                },
            }
            i = i + 1;
        }
        assert(self.fields@.skip(n as int).len() == 0);
        Ok(())
    }

    /// What the collection store records of the collection, under the given internal id.
    pub fn create_port_param(&self, internal_id: &str) -> (r: CreatePortParam)
        ensures
            r.id@ == self.id@,
            r.internal_id@ == internal_id@,
            r.fields@.len() == self.fields@.len(),
            forall|i: int|
                0 <= i < self.fields@.len() ==> #[trigger] r.fields@[i].name@ == self.fields@[i].name@
                    && r.fields@[i].field_type == self.fields@[i].field_type,
    {
        let mut fields: Vec<CreatePortParamField> = Vec::new();
        let mut i: usize = 0;
        while i < self.fields.len()
            invariant
                i <= self.fields@.len(),
                fields@.len() == i,
                forall|j: int| 0 <= j < i ==> #[trigger] fields@[j].name@ == self.fields@[j].name@,
                forall|j: int| 0 <= j < i ==> #[trigger] fields@[j].field_type == self.fields@[j].field_type,
            decreases self.fields@.len() - i,
        {
            let f = self.fields[i].create_port_param_field();
            let ghost before = fields@;
            fields.push(f);
            assert(fields@[i as int].name@ == self.fields@[i as int].name@);
            i = i + 1;
        }
        CreatePortParam { id: self.id.clone(), internal_id: internal_id.to_owned(), fields }
    }
}

/// Where a collection is in its life.
#[derive(Clone, Copy, Debug, PartialEq, Eq, Structural)]
pub enum CollectionStatus {
    Loading,
    Ready,
    Deleting,
}

/// The field types of fields given in order; a later field of a name wins.
pub open spec fn create_field_types(fields: Seq<CreateParamField>) -> Map<Seq<char>, ValueType>
    decreases fields.len(),
{
    if fields.len() == 0 {
        Map::empty()
    } else {
        create_field_types(fields.drop_last()).insert(fields.last().name@, fields.last().field_type)
    }
}

/// The field types of stored fields given in order; a later field of a name wins.
pub open spec fn stored_field_types(fields: Seq<GetAllPortResultCollectionField>) -> Map<
    Seq<char>,
    ValueType,
>
    decreases fields.len(),
{
    if fields.len() == 0 {
        Map::empty()
    } else {
        stored_field_types(fields.drop_last()).insert(fields.last().name@, fields.last().field_type)
    }
}

/// A payload is accepted by field types: every field it names is known and its raw value
/// fits the field's type, and it names every known field.
pub open spec fn payload_accepted(
    types: Map<Seq<char>, ValueType>,
    raw: Map<Seq<char>, RawValue>,
) -> bool {
    &&& fields_known(types, raw)
    &&& raw.dom() == types.dom()
}

/// Every field of the raw payload is known and its value fits the field's type.
pub open spec fn fields_known(types: Map<Seq<char>, ValueType>, raw: Map<Seq<char>, RawValue>) -> bool {
    forall|k: Seq<char>|
        #[trigger] raw.contains_key(k) ==> types.contains_key(k) && convert(types[k], raw[k]) is Some
}

/// The state kept of a collection: its id, the internal id its data is kept under, its
/// status, and the type of each of its fields.
#[derive(Debug)]
pub struct CollectionState {
    pub id: String,
    pub internal_id: String,
    pub status: CollectionStatus,
    pub field_types: FieldMap<ValueType>,
}

impl CollectionState {
    /// The state of a collection being created with the given fields.
    pub fn new(
        id: &str,
        internal_id: &str,
        fields: &Vec<CreateParamField>,
        status: CollectionStatus,
    ) -> (r: CollectionState)
        ensures
            r.id@ == id@,
            r.internal_id@ == internal_id@,
            r.status == status,
            r.field_types.wf(),
            r.field_types@ == create_field_types(fields@),
    {
        let mut field_types: FieldMap<ValueType> = FieldMap::new();
        let mut i: usize = 0;
        assert(field_types@ =~= create_field_types(fields@.subrange(0, 0)));
        while i < fields.len()
            invariant
                i <= fields@.len(),
                field_types.wf(),
                field_types@ == create_field_types(fields@.subrange(0, i as int)),
            decreases fields@.len() - i,
        {
            field_types.insert(fields[i].name.clone(), fields[i].field_type);
            proof {
                assert(fields@.subrange(0, i + 1).drop_last() =~= fields@.subrange(0, i as int));
            }
            i = i + 1;
        }
        assert(fields@.subrange(0, fields@.len() as int) =~= fields@);
        CollectionState {
            id: id.to_owned(),
            internal_id: internal_id.to_owned(),
            status,
            field_types,
        }
    }

    /// The state of a stored collection.
    pub fn from_get_all_port_result_collection(
        result: &GetAllPortResultCollection,
        status: CollectionStatus,
    ) -> (r: CollectionState)
        ensures
            r.id@ == result.id@,
            r.internal_id@ == result.internal_id@,
            r.status == status,
            r.field_types.wf(),
            r.field_types@ == stored_field_types(result.fields@),
    {
        let fields = &result.fields;
        let mut field_types: FieldMap<ValueType> = FieldMap::new();
        let mut i: usize = 0;
        assert(field_types@ =~= stored_field_types(fields@.subrange(0, 0)));
        while i < fields.len()
            invariant
                i <= fields@.len(),
                field_types.wf(),
                field_types@ == stored_field_types(fields@.subrange(0, i as int)),
            decreases fields@.len() - i,
        {
            field_types.insert(fields[i].name.clone(), fields[i].field_type);
            proof {
                assert(fields@.subrange(0, i + 1).drop_last() =~= fields@.subrange(0, i as int));
            }
            i = i + 1;
        }
        assert(fields@.subrange(0, fields@.len() as int) =~= fields@);
        CollectionState {
            id: result.id.clone(),
            internal_id: result.internal_id.clone(),
            status,
            field_types,
        }
    }

    /// Checks a raw payload against the collection's fields and converts each value to
    /// its field's type. A field that is not known, a value that does not fit its field's
    /// type, or a known field that the payload lacks, is a parse error.
    pub fn parse_raw_document_payload(&self, raw_document_payload: &FieldMap<RawValue>) -> (r:
        Result<FieldMap<Value>, VixError>)
        requires
            self.field_types.wf(),
            raw_document_payload.wf(),
        ensures
            match r {
                Ok(p) => {
                    &&& payload_accepted(self.field_types@, raw_document_payload@)
                    &&& p.wf()
                    &&& p@.dom() == raw_document_payload@.dom()
                    &&& forall|k: Seq<char>| #[trigger]
                        p@.contains_key(k) ==> convert(
                            self.field_types@[k],
                            raw_document_payload@[k],
                        ) == Some(p@[k])
                },
                Err(e) => {
                    &&& !payload_accepted(self.field_types@, raw_document_payload@)
                    &&& e.code == Code::ParseError
                    &&& fields_known(self.field_types@, raw_document_payload@) ==> e.message@
                        == "missing fields"@
                },
            },
    {
        let raw = raw_document_payload;
        let ghost types = self.field_types@;
        proof {
            raw.lemma_entries();
        }
        let mut payload: FieldMap<Value> = FieldMap::new();
        let n = raw.entry_count();
        let mut i: usize = 0;
        while i < n
            invariant
                n == raw.count(),
                i <= n,
                raw == raw_document_payload,
                raw.wf(),
                self.field_types.wf(),
                types == self.field_types@,
                payload.wf(),
                forall|j: int| 0 <= j < raw.count() ==> #[trigger] raw@.contains_key(raw.entry(j).0),
                forall|j: int, l: int| 0 <= j < l < raw.count() ==> #[trigger] raw.entry(j).0 != #[trigger] raw.entry(l).0,
                forall|j: int|
                    0 <= j < i ==> #[trigger] payload@.contains_key(raw.entry(j).0) && types.contains_key(raw.entry(j).0)
                        && convert(types[raw.entry(j).0], raw@[raw.entry(j).0]) == Some(payload@[raw.entry(j).0]),
                forall|k: Seq<char>|
                    #[trigger] payload@.contains_key(k) ==> exists|j: int| 0 <= j < i && raw.entry(j).0 == k,
            decreases n - i,
        {
            let (key, _) = raw.entry_at(i);
            assert(raw@.contains_key(raw.entry(i as int).0));
            let raw_value = match raw.get(key.as_str()) {
                Some(v) => v,
                None => {
                    assert(false);
                    return Err(VixError::new(Code::ParseError, "unknown field"));
                },
            };
            let field_type = match self.field_types.get(key.as_str()) {
                Some(ft) => ft,
                None => {
                    assert(raw@.contains_key(key@) && !types.contains_key(key@));
                    assert(!fields_known(types, raw@));
                    return Err(VixError::new(Code::ParseError, "unknown field"));
                },
            };
            let value = match field_type.value(raw_value) {
                Ok(v) => v,
                Err(e) => {
                    assert(raw@.contains_key(key@) && convert(types[key@], raw@[key@]) is None);
                    assert(!fields_known(types, raw@));
                    return Err(e);
                },
            };
            let ghost before = payload@;
            payload.insert(key.clone(), value);
            let ghost k_i = raw.entry(i as int).0;
            i = i + 1;
            proof {
                assert forall|j: int|
                    0 <= j < i implies #[trigger] payload@.contains_key(raw.entry(j).0) && types.contains_key(raw.entry(j).0)
                        && convert(types[raw.entry(j).0], raw@[raw.entry(j).0]) == Some(payload@[raw.entry(j).0]) by {
                    if j < i - 1 {
                        assert(raw.entry(j).0 != k_i);
                        assert(before.contains_key(raw.entry(j).0));
                    }
                }
                assert forall|k: Seq<char>|
                    #[trigger] payload@.contains_key(k) implies exists|j: int| 0 <= j < i && raw.entry(j).0 == k by {
                    if k != k_i {
                        assert(before.contains_key(k));
                    } else {
                        assert(raw.entry(i - 1).0 == k);
                    }
                }
            }
        }
        proof {
            assert(payload@.dom() =~= raw@.dom()) by {
                assert forall|k: Seq<char>| raw@.contains_key(k) implies payload@.contains_key(k) by {
                    let j = choose|j: int| 0 <= j < raw.count() && raw.entry(j).0 == k;
                    assert(payload@.contains_key(raw.entry(j).0));
                }
            }
            assert(fields_known(types, raw@)) by {
                assert forall|k: Seq<char>| #[trigger] raw@.contains_key(k) implies types.contains_key(k)
                    && convert(types[k], raw@[k]) is Some by {
                    let j = choose|j: int| 0 <= j < raw.count() && raw.entry(j).0 == k;
                    assert(payload@.contains_key(raw.entry(j).0));
                }
            }
            assert forall|k: Seq<char>| #[trigger] payload@.contains_key(k) implies convert(types[k], raw@[k]) == Some(payload@[k]) by {
                let j = choose|j: int| 0 <= j < i && raw.entry(j).0 == k;
                assert(payload@.contains_key(raw.entry(j).0));
            }
            assert(raw@.dom().subset_of(types.dom()));
            payload.lemma_entries();
            self.field_types.lemma_entries();
            vstd::set_lib::lemma_len_subset(raw@.dom(), types.dom());
        }
        if payload.len() < self.field_types.len() {
            return Err(VixError::new(Code::ParseError, "missing fields"));
        }
        proof {
            vstd::set_lib::lemma_subset_equality(raw@.dom(), types.dom());
        }
        Ok(payload)
    }
}

/// A field of a collection: its name and type.
#[derive(Clone, Debug)]
pub struct Field {
    pub name: String,
    pub field_type: ValueType,
}

/// A stored collection: its id, name and fields.
#[derive(Debug)]
pub struct Collection {
    pub id: String,
    pub name: String,
    pub fields: Vec<Field>,
}

/// A request to create a collection with a name and fields.
#[derive(Debug)]
pub struct CreateCollectionParam {
    pub name: String,
    pub fields: Vec<Field>,
}

/// What the storage records of a new collection.
#[derive(Debug)]
pub struct CreateStorageParam {
    pub id: String,
    pub name: String,
    pub fields: Vec<Field>,
}

impl CreateCollectionParam {
    /// The storage record of the collection under the given id.
    pub fn into_create_storage_param(self, id: String) -> (r: CreateStorageParam)
        ensures
            r.id == id,
            r.name == self.name,
            r.fields == self.fields,
    {
        CreateStorageParam { id, name: self.name, fields: self.fields }
    }
}

/// Whether a collection instance takes documents yet.
#[derive(Clone, Copy, Debug, PartialEq, Eq, Structural)]
pub enum InstanceStatus {
    Loading,
    Ready,
}

/// The field types of a collection's fields given in order; a later field of a name wins.
pub open spec fn schema_field_types(fields: Seq<Field>) -> Map<Seq<char>, ValueType>
    decreases fields.len(),
{
    if fields.len() == 0 {
        Map::empty()
    } else {
        schema_field_types(fields.drop_last()).insert(fields.last().name@, fields.last().field_type)
    }
}

/// Every field of the document is a field of the collection, with a value of the
/// field's type.
pub open spec fn document_fits(types: Map<Seq<char>, ValueType>, document: Map<Seq<char>, Value>) -> bool {
    forall|k: Seq<char>|
        #[trigger] document.contains_key(k) ==> types.contains_key(k) && type_of(document[k]) == types[k]
}

/// A collection as the collection manager keeps it: its id, name, status and field types.
#[derive(Debug)]
pub struct CollectionInstance {
    pub id: String,
    pub name: String,
    pub status: InstanceStatus,
    pub field_types: FieldMap<ValueType>,
}

impl CollectionInstance {
    /// An instance of a collection with the given fields.
    pub fn new(id: &str, name: &str, fields: &Vec<Field>, status: InstanceStatus) -> (r: CollectionInstance)
        ensures
            r.id@ == id@,
            r.name@ == name@,
            r.status == status,
            r.field_types.wf(),
            r.field_types@ == schema_field_types(fields@),
    {
        let mut field_types: FieldMap<ValueType> = FieldMap::new();
        let mut i: usize = 0;
        assert(field_types@ =~= schema_field_types(fields@.subrange(0, 0)));
        while i < fields.len()
            invariant
                i <= fields@.len(),
                field_types.wf(),
                field_types@ == schema_field_types(fields@.subrange(0, i as int)),
            decreases fields@.len() - i,
        {
            field_types.insert(fields[i].name.clone(), fields[i].field_type);
            proof {
                assert(fields@.subrange(0, i + 1).drop_last() =~= fields@.subrange(0, i as int));
            }
            i = i + 1;
        }
        assert(fields@.subrange(0, fields@.len() as int) =~= fields@);
        CollectionInstance {
            id: id.to_owned(),
            name: name.to_owned(),
            status,
            field_types,
        }
    }

    /// Whether every field of the document is a field of the collection, holding a value
    /// of the field's type. Fields the document lacks are not checked.
    pub fn validate_document(&self, document: &FieldMap<Value>) -> (r: bool)
        requires
            self.field_types.wf(),
            document.wf(),
        ensures
            r == document_fits(self.field_types@, document@),
    {
        proof {
            document.lemma_entries();
        }
        let n = document.entry_count();
        let mut i: usize = 0;
        while i < n
            invariant
                n == document.count(),
                i <= n,
                self.field_types.wf(),
                document.wf(),
                forall|j: int| 0 <= j < document.count() ==> #[trigger] document@.contains_key(document.entry(j).0),
                forall|k: Seq<char>| #[trigger] document@.contains_key(k) ==> exists|j: int| 0 <= j < document.count() && document.entry(j).0 == k,
                forall|j: int|
                    0 <= j < i ==> #[trigger] self.field_types@.contains_key(document.entry(j).0)
                        && type_of(document@[document.entry(j).0]) == self.field_types@[document.entry(j).0],
            decreases n - i,
        {
            let (key, _) = document.entry_at(i);
            assert(document@.contains_key(document.entry(i as int).0));
            let value = match document.get(key.as_str()) {
                Some(v) => v,
                None => {
                    assert(false);
                    return false;
                },
            };
            let t = match self.field_types.get(key.as_str()) {
                None => {
                    return false;
                },
                Some(t) => t,
            };
            let vt = value.value_type();
            if vt != *t {
                return false;
            }
            let ghost k_i = document.entry(i as int).0;
            assert(self.field_types@.contains_key(k_i) && type_of(document@[k_i]) == self.field_types@[k_i]);
            i = i + 1;
            assert forall|j: int|
                0 <= j < i implies #[trigger] self.field_types@.contains_key(document.entry(j).0)
                    && type_of(document@[document.entry(j).0]) == self.field_types@[document.entry(j).0] by {
                if j == i - 1 {
                    assert(document.entry(j).0 == k_i);
                    assert(self.field_types@.contains_key(document.entry(j).0));
                    assert(type_of(document@[document.entry(j).0]) == self.field_types@[document.entry(j).0]);
                } else {
                    assert(self.field_types@.contains_key(document.entry(j).0));
                    assert(type_of(document@[document.entry(j).0]) == self.field_types@[document.entry(j).0]);
                }
            }
        }
        assert forall|k: Seq<char>| #[trigger] document@.contains_key(k) implies self.field_types@.contains_key(k)
            && type_of(document@[k]) == self.field_types@[k] by {
            let j = choose|j: int| 0 <= j < document.count() && document.entry(j).0 == k;
            assert(self.field_types@.contains_key(document.entry(j).0));
        }
        true
    }
}

/// The internal ids of loaded collections, in order.
pub fn collection_ids<T>(collection_states: &Vec<(String, String, T)>) -> (r: Vec<String>)
    ensures
        r@.len() == collection_states@.len(),
        forall|i: int| 0 <= i < r@.len() ==> #[trigger] r@[i]@ == collection_states@[i].1@,
{
    let mut r: Vec<String> = Vec::new();
    let mut i: usize = 0;
    while i < collection_states.len()
        invariant
            i <= collection_states@.len(),
            r@.len() == i,
            forall|j: int| 0 <= j < i ==> #[trigger] r@[j]@ == collection_states@[j].1@,
        decreases collection_states@.len() - i,
    {
        r.push(collection_states[i].1.clone());
        i = i + 1;
    }
    r
}

} // verus!
