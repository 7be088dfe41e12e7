//! The collection manager: collections by name, each with its field types and whether it
//! is ready, kept in step with a storage that is implemented outside this crate; nothing
//! is assumed of what the storage answers.
use crate::collection::{
    document_fits, schema_field_types, Collection, CollectionInstance, CreateCollectionParam,
    CreateStorageParam, InstanceStatus,
};
use crate::document::Value;
use crate::error::{Code, VixError};
use crate::fieldmap::FieldMap;
use crate::fresh::new_uuid;
use vstd::prelude::*;

verus! {

/// Where collections are recorded.
pub trait Storage {
    fn create(&self, param: CreateStorageParam) -> Result<(), VixError>;

    fn delete(&self, id: &str) -> Result<(), VixError>;

    fn load(&self) -> Result<Vec<Collection>, VixError>;
}

/// What the collection manager offers.
pub trait Manager {
    fn create_collection(&mut self, param: CreateCollectionParam) -> Result<(), VixError>;

    fn delete_collection(&mut self, name: &str) -> Result<(), VixError>;

    fn load(&mut self) -> Result<(), VixError>;

    fn validate_payload(&self, collection_name: &str, payload: &FieldMap<Value>) -> Result<bool, VixError>
        requires
            payload.wf(),
    ;
}

/// `i` is the collection `c` held ready: its id, name and field types.
pub open spec fn instance_of(c: Collection, i: CollectionInstance) -> bool {
    &&& i.id@ == c.id@
    &&& i.name@ == c.name@
    &&& i.status == InstanceStatus::Ready
    &&& i.field_types@ == schema_field_types(c.fields@)
}

/// Some collection of `colls` has the name `k`.
pub open spec fn named_in(colls: Seq<Collection>, k: Seq<char>) -> bool {
    exists|i: int| 0 <= i < colls.len() && colls[i].name@ == k
}

/// `after` is `before` with each collection of `colls` held ready under its name, in
/// order, so that of two with one name the later stays.
pub open spec fn loaded_into(
    before: Map<Seq<char>, CollectionInstance>,
    after: Map<Seq<char>, CollectionInstance>,
    colls: Seq<Collection>,
) -> bool {
    &&& forall|k: Seq<char>| #[trigger] after.contains_key(k) <==> before.contains_key(k) || named_in(colls, k)
    &&& forall|k: Seq<char>| #[trigger] after.contains_key(k) ==> if named_in(colls, k) {
        exists|i: int| #![trigger colls[i]]
            0 <= i < colls.len() && colls[i].name@ == k && instance_of(colls[i], after[k]) && forall|j: int|
                i < j < colls.len() ==> #[trigger] colls[j].name@ != k
    } else {
        after[k] == before[k]
    }
}

/// The collections by name; every collection's field map is sound.
pub struct Instances {
    pub by_name: FieldMap<CollectionInstance>,
}

impl Instances {
    pub open spec fn wf(&self) -> bool {
        &&& self.by_name.wf()
        &&& forall|k: Seq<char>| #[trigger] self.by_name@.contains_key(k) ==> self.by_name@[k].field_types.wf()
    }

    /// Stores the instance under the name.
    pub fn put(&mut self, name: String, instance: CollectionInstance)
        requires
            old(self).wf(),
            instance.field_types.wf(),
        ensures
            final(self).wf(),
            final(self).by_name@ == old(self).by_name@.insert(name@, instance),
    {
        let ghost prev = self.by_name@;
        let ghost k = name@;
        self.by_name.insert(name, instance);
        assert forall|j: Seq<char>| #[trigger] self.by_name@.contains_key(j)
            implies self.by_name@[j].field_types.wf() by {
            if j != k {
                assert(prev.contains_key(j));
            }
        }
    }

    /// Holds each collection ready under its name, in order.
    pub fn put_loaded(&mut self, colls: &Vec<Collection>)
        requires
            old(self).wf(),
        ensures
            final(self).wf(),
            loaded_into(old(self).by_name@, final(self).by_name@, colls@),
    {
        let ghost before = self.by_name@;
        let mut i: usize = 0;
        assert(loaded_into(before, self.by_name@, colls@.subrange(0, 0)));
        while i < colls.len()
            invariant
                i <= colls@.len(),
                self.wf(),
                loaded_into(before, self.by_name@, colls@.subrange(0, i as int)),
            decreases colls@.len() - i,
        {
            let c = &colls[i];
            let instance = CollectionInstance::new(c.id.as_str(), c.name.as_str(), &c.fields, InstanceStatus::Ready);
            let ghost prev = self.by_name@;
            let ghost sub = colls@.subrange(0, i as int);
            let ghost next = colls@.subrange(0, i + 1);
            self.put(c.name.clone(), instance);
            proof {
                let n = c.name@;
                assert(next[i as int] == colls@[i as int]);
                assert forall|k: Seq<char>| named_in(sub, k) implies #[trigger] named_in(next, k) by {
                    let j = choose|j: int| 0 <= j < sub.len() && sub[j].name@ == k;
                    assert(next[j] == sub[j]);
                }
                assert(named_in(next, n)) by {
                    assert(next[i as int].name@ == n);
                }
                assert forall|k: Seq<char>| named_in(next, k) && k != n implies #[trigger] named_in(sub, k) by {
                    let j = choose|j: int| 0 <= j < next.len() && next[j].name@ == k;
                    assert(j != i);
                    assert(sub[j] == next[j]);
                }
                assert forall|k: Seq<char>| #[trigger] self.by_name@.contains_key(k) implies if named_in(next, k) {
                    exists|ii: int| #![trigger next[ii]]
                        0 <= ii < next.len() && next[ii].name@ == k && instance_of(next[ii], self.by_name@[k])
                            && forall|j: int| ii < j < next.len() ==> #[trigger] next[j].name@ != k
                } else {
                    self.by_name@[k] == before[k]
                } by {
                    if k == n {
                        assert(instance_of(next[i as int], self.by_name@[k]));
                    } else {
                        assert(prev.contains_key(k));
                        if named_in(next, k) {
                            assert(named_in(sub, k));
                            let ii = choose|ii: int| #![trigger sub[ii]]
                                0 <= ii < sub.len() && sub[ii].name@ == k && instance_of(sub[ii], prev[k])
                                    && forall|j: int| ii < j < sub.len() ==> #[trigger] sub[j].name@ != k;
                            assert(next[ii] == sub[ii]);
                            assert forall|j: int| ii < j < next.len() implies #[trigger] next[j].name@ != k by {
                                if j < i {
                                    assert(next[j] == sub[j]);
                                }
                            }
                        }
                    }
                }
            }
            i = i + 1;
        }
        assert(colls@.subrange(0, colls@.len() as int) =~= colls@);
    }

    /// Removes the instance under the name.
    pub fn take(&mut self, name: &str) -> (r: Option<CollectionInstance>)
        requires
            old(self).wf(),
        ensures
            final(self).wf(),
            final(self).by_name@ == old(self).by_name@.remove(name@),
            match r {
                Some(i) => old(self).by_name@.contains_key(name@) && old(self).by_name@[name@] === i
                    && i.field_types.wf(),
                None => !old(self).by_name@.contains_key(name@),
            },
    {
        let ghost prev = self.by_name@;
        let r = self.by_name.remove(name);
        assert forall|j: Seq<char>| #[trigger] self.by_name@.contains_key(j)
            implies self.by_name@[j].field_types.wf() by {
            assert(prev.contains_key(j));
        }
        r
    }
}

/// The collection manager over a storage.
pub struct ManagerImpl<S> {
    storage: S,
    instances: Instances,
}

impl<S> ManagerImpl<S> {
    #[verifier::type_invariant]
    spec fn inv(&self) -> bool {
        self.instances.wf()
    }

    /// The collections, by name.
    pub closed spec fn collections(&self) -> Map<Seq<char>, CollectionInstance> {
        self.instances.by_name@
    }

    /// A manager with no collection.
    pub fn new(storage: S) -> (r: ManagerImpl<S>)
        ensures
            r.collections().dom() == Set::<Seq<char>>::empty(),
    {
        ManagerImpl { storage, instances: Instances { by_name: FieldMap::new() } }
    }

    fn take_instances(&mut self) -> (r: Instances)
        ensures
            r.wf(),
            r == old(self).instances,
            final(self).storage == old(self).storage,
    {
        proof {
            use_type_invariant(&*self);
        }
        let mut m = Instances { by_name: FieldMap::new() };
        std::mem::swap(&mut m, &mut self.instances);
        m
    }

    fn put_instances(&mut self, instances: Instances)
        requires
            instances.wf(),
        ensures
            final(self).instances == instances,
            final(self).storage == old(self).storage,
    {
        self.instances = instances;
    }
}

/// A collection manager with no collection, over the storage.
pub fn new_manager<S: Storage>(storage: S) -> (r: ManagerImpl<S>)
    ensures
        r.collections().dom() == Set::<Seq<char>>::empty(),
{
    ManagerImpl::new(storage)
}

impl<S: Storage> ManagerImpl<S> {
    /// Creates a collection under the given id: a name already held is an error; the
    /// collection is held as loading while the storage records it under that id,
    /// forgotten again when the storage fails, and ready afterwards.
    pub fn create_collection_with_id(&mut self, param: CreateCollectionParam, id: String) -> (r: Result<(), VixError>)
        ensures
            old(self).collections().contains_key(param.name@) ==> (r matches Err(e) && e.code == Code::Exists)
                && final(self).collections() == old(self).collections(),
            r is Err ==> final(self).collections() == old(self).collections(),
            r is Ok ==> {
                &&& !old(self).collections().contains_key(param.name@)
                &&& final(self).collections().remove(param.name@) == old(self).collections()
                &&& final(self).collections()[param.name@].status == InstanceStatus::Ready
                &&& final(self).collections()[param.name@].id@ == id@
                &&& final(self).collections()[param.name@].name@ == param.name@
                &&& final(self).collections()[param.name@].field_types@ == schema_field_types(param.fields@)
            },
    {
        let mut instances = self.take_instances();
        if instances.by_name.contains_key(param.name.as_str()) {
            self.put_instances(instances);
            return Err(VixError::new(Code::Exists, "Collection already exists"));
        }
        let instance = CollectionInstance::new(id.as_str(), param.name.as_str(), &param.fields, InstanceStatus::Loading);
        let ghost before = instances.by_name@;
        let name = param.name.clone();
        instances.put(name.clone(), instance);
        match self.storage.create(param.into_create_storage_param(id)) {
            Ok(()) => {},
            Err(e) => {
                let _ = instances.take(name.as_str());
                assert(instances.by_name@ =~= before);
                self.put_instances(instances);
                return Err(e);
            },
        }
        match instances.take(name.as_str()) {
            Some(mut instance) => {
                instance.status = InstanceStatus::Ready;
                instances.put(name, instance);
            },
            None => {},
        }
        assert(instances.by_name@.remove(param.name@) =~= before);
        self.put_instances(instances);
        Ok(())
    }

}

impl<S: Storage> Manager for ManagerImpl<S> {
    /// Creates a collection under a fresh id, a v4 UUID drawn here
    /// (`create_collection_with_id`): a name already held is an error; the collection is
    /// held as loading while the storage records it, forgotten again when the storage
    /// fails, and ready afterwards.
    fn create_collection(&mut self, param: CreateCollectionParam) -> (r: Result<(), VixError>)
        ensures
            old(self).collections().contains_key(param.name@) ==> (r matches Err(e) && e.code == Code::Exists)
                && final(self).collections() == old(self).collections(),
            r is Err ==> final(self).collections() == old(self).collections(),
            r is Ok ==> {
                &&& !old(self).collections().contains_key(param.name@)
                &&& final(self).collections().remove(param.name@) == old(self).collections()
                &&& final(self).collections()[param.name@].status == InstanceStatus::Ready
                &&& final(self).collections()[param.name@].id@.len() == 36
                &&& final(self).collections()[param.name@].name@ == param.name@
                &&& final(self).collections()[param.name@].field_types@ == schema_field_types(param.fields@)
            },
    {
        let id = new_uuid();
        self.create_collection_with_id(param, id)
    }

    /// Deletes a collection by name: a name not held is an error; otherwise the storage
    /// deletes it by id and it is forgotten.
    fn delete_collection(&mut self, name: &str) -> (r: Result<(), VixError>)
        ensures
            !old(self).collections().contains_key(name@) ==> (r matches Err(e) && e.code == Code::NotFound),
            r is Err ==> final(self).collections() == old(self).collections(),
            r is Ok ==> final(self).collections() == old(self).collections().remove(name@),
    {
        let mut instances = self.take_instances();
        let id = match instances.by_name.get(name) {
            Some(i) => i.id.clone(),
            None => {
                self.put_instances(instances);
                return Err(VixError::new(Code::NotFound, "Collection not found"));
            },
        };
        match self.storage.delete(id.as_str()) {
            Ok(()) => {},
            Err(e) => {
                self.put_instances(instances);
                return Err(e);
            },
        }
        let _ = instances.take(name);
        self.put_instances(instances);
        Ok(())
    }

    /// Reads every stored collection and holds each, ready, under its name.
    fn load(&mut self) -> (r: Result<(), VixError>)
        ensures
            r is Err ==> final(self).collections() == old(self).collections(),
            old(self).collections().dom().subset_of(final(self).collections().dom()),
            r is Ok ==> exists|colls: Seq<Collection>| #[trigger] loaded_into(old(self).collections(), final(self).collections(), colls),
    {
        let colls = match self.storage.load() {
            Ok(c) => c,
            Err(e) => {
                return Err(e);
            },
        };
        let mut instances = self.take_instances();
        instances.put_loaded(&colls);
        self.put_instances(instances);
        assert(loaded_into(old(self).collections(), self.collections(), colls@));
        Ok(())
    }

    /// Whether the payload fits the fields of the collection with the name: an error when
    /// no collection has the name or it is not ready.
    fn validate_payload(&self, collection_name: &str, payload: &FieldMap<Value>) -> (r: Result<bool, VixError>)
        ensures
            !self.collections().contains_key(collection_name@) ==> (r matches Err(e) && e.code == Code::NotFound),
            self.collections().contains_key(collection_name@) && self.collections()[collection_name@].status
                != InstanceStatus::Ready ==> (r matches Err(e) && e.code == Code::NotReady),
            self.collections().contains_key(collection_name@) && self.collections()[collection_name@].status
                == InstanceStatus::Ready ==> r == Ok::<bool, VixError>(
                document_fits(self.collections()[collection_name@].field_types@, payload@),
            ),
    {
        proof {
            use_type_invariant(self);
        }
        let instance = match self.instances.by_name.get(collection_name) {
            Some(i) => i,
            None => {
                return Err(VixError::new(Code::NotFound, "Collection not found"));
            },
        };
        if instance.status != InstanceStatus::Ready {
            return Err(VixError::new(Code::NotReady, "Collection not ready or lagging"));
        }
        Ok(instance.validate_document(payload))
    }
}

} // verus!
