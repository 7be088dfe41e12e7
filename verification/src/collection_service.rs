//! The collection service: it creates, deletes and loads collections, keeps each one's
//! state, and checks documents against a collection's fields.
//!
//! The catalog on disk is reached through a `CollectionPort` and the document side is told
//! of collections through a `DocumentCollectionLifecycle`; both are implemented outside
//! this crate, and nothing is assumed of what they answer.
use crate::collection::{
    create_field_types, first_field_fault, payload_accepted, stored_field_types, CollectionState,
    CollectionStatus, CreateParam, CreatePortParam, GetAllPortResult, GetAllPortResultCollection,
};
use crate::document::{convert, RawValue, Value};
use crate::error::{Code, VixError};
use crate::fieldmap::FieldMap;
use crate::fresh::new_uuid;
use crate::text::name_fault;
use vstd::prelude::*;

verus! {

/// The catalog of collections on disk.
pub trait CollectionPort {
    /// Every stored collection.
    fn get_all(&self) -> Result<GetAllPortResult, VixError>;

    /// Records a new collection.
    fn create(&self, param: CreatePortParam) -> Result<(), VixError>;

    /// Drops the collection with the internal id.
    fn delete_by_internal_id(&self, id: &str) -> Result<(), VixError>;
}

/// The document side's part in the life of collections, by internal id.
pub trait DocumentCollectionLifecycle {
    fn load_collections(&self, collection_ids: &[String]) -> Result<(), VixError>;

    fn add_collection(&self, collection_id: &str) -> Result<(), VixError>;

    fn delete_collection(&self, collection_id: &str) -> Result<(), VixError>;
}

/// What the collection service offers.
pub trait CollectionService {
    fn create(&mut self, param: CreateParam) -> Result<(), VixError>;

    fn delete_by_id(&mut self, id: &str) -> Result<(), VixError>;

    fn parse_raw_document_payload_by_id(
        &self,
        id: &str,
        raw_document_payload: &FieldMap<RawValue>,
    ) -> Result<FieldMap<Value>, VixError>
        requires
            raw_document_payload.wf(),
    ;
}

/// Loads the stored collections.
pub trait CollectionLoader {
    fn load(&mut self) -> Result<(), VixError>;
}

/// One of the internal ids names the collection `k` in the internal-id map.
pub open spec fn marked_by(by_internal: Map<Seq<char>, String>, ids: Seq<Seq<char>>, k: Seq<char>) -> bool {
    exists|i: int| 0 <= i < ids.len() && by_internal.contains_key(ids[i]) && by_internal[ids[i]]@ == k
}

/// Strings as character sequences.
pub open spec fn str_views(v: Seq<String>) -> Seq<Seq<char>> {
    v.map_values(|s: String| s@)
}

/// `n` is the collection `o` made ready: the same id, internal id and fields.
pub open spec fn made_ready(o: CollectionState, n: CollectionState) -> bool {
    &&& n.status == CollectionStatus::Ready
    &&& n.id == o.id
    &&& n.internal_id == o.internal_id
    &&& n.field_types == o.field_types
}

/// The collection `id` is added, loading, under a new internal id that names it; the
/// rest of both maps is as it was.
pub open spec fn held_loading(
    by_id: Map<Seq<char>, CollectionState>,
    by_internal: Map<Seq<char>, String>,
    new_by_id: Map<Seq<char>, CollectionState>,
    new_by_internal: Map<Seq<char>, String>,
    id: Seq<char>,
) -> bool {
    let iid = new_by_id[id].internal_id@;
    &&& new_by_id.contains_key(id)
    &&& new_by_id.remove(id) == by_id
    &&& new_by_id[id].status == CollectionStatus::Loading
    &&& new_by_internal.dom() == by_internal.dom().insert(iid)
    &&& new_by_internal[iid]@ == id
    &&& forall|k: Seq<char>| k != iid && #[trigger] by_internal.contains_key(k) ==> new_by_internal[k] == by_internal[k]
}

/// Some collection of `colls` has the id `k`.
pub open spec fn id_named(colls: Seq<GetAllPortResultCollection>, k: Seq<char>) -> bool {
    exists|i: int| 0 <= i < colls.len() && colls[i].id@ == k
}

/// Some collection of `colls` has the internal id `k`.
pub open spec fn internal_named(colls: Seq<GetAllPortResultCollection>, k: Seq<char>) -> bool {
    exists|i: int| 0 <= i < colls.len() && colls[i].internal_id@ == k
}

/// The internal ids of the collections, in order.
pub open spec fn internal_views(colls: Seq<GetAllPortResultCollection>) -> Seq<Seq<char>> {
    colls.map_values(|c: GetAllPortResultCollection| c.internal_id@)
}

/// `s` is the stored collection `c`, being loaded.
pub open spec fn loading_state_of(c: GetAllPortResultCollection, s: CollectionState) -> bool {
    &&& s.id@ == c.id@
    &&& s.internal_id@ == c.internal_id@
    &&& s.status == CollectionStatus::Loading
    &&& s.field_types@ == stored_field_types(c.fields@)
}

/// `after` is `before` with each collection of `colls` recorded as loading under its id,
/// in order, so that of two with one id the later stays.
pub open spec fn registered_by_id(
    before: Map<Seq<char>, CollectionState>,
    after: Map<Seq<char>, CollectionState>,
    colls: Seq<GetAllPortResultCollection>,
) -> bool {
    &&& forall|k: Seq<char>| #[trigger] after.contains_key(k) <==> before.contains_key(k) || id_named(colls, k)
    &&& forall|k: Seq<char>| #[trigger] after.contains_key(k) ==> if id_named(colls, k) {
        exists|i: int| #![trigger colls[i]]
            0 <= i < colls.len() && colls[i].id@ == k && loading_state_of(colls[i], after[k]) && forall|j: int|
                i < j < colls.len() ==> #[trigger] colls[j].id@ != k
    } else {
        after[k] == before[k]
    }
}

/// `after` is `before` with the id of each collection of `colls` recorded under its
/// internal id, in order, so that of two with one internal id the later stays.
pub open spec fn registered_by_internal(
    before: Map<Seq<char>, String>,
    after: Map<Seq<char>, String>,
    colls: Seq<GetAllPortResultCollection>,
) -> bool {
    &&& forall|k: Seq<char>| #[trigger] after.contains_key(k) <==> before.contains_key(k) || internal_named(colls, k)
    &&& forall|k: Seq<char>| #[trigger] after.contains_key(k) ==> if internal_named(colls, k) {
        exists|i: int| #![trigger colls[i]]
            0 <= i < colls.len() && colls[i].internal_id@ == k && after[k]@ == colls[i].id@ && forall|j: int|
                i < j < colls.len() ==> #[trigger] colls[j].internal_id@ != k
    } else {
        after[k] == before[k]
    }
}

/// `after` is `mid` with each collection that one of the internal ids names, through
/// `by_internal`, made ready.
pub open spec fn ready_after(
    mid: Map<Seq<char>, CollectionState>,
    after: Map<Seq<char>, CollectionState>,
    by_internal: Map<Seq<char>, String>,
    ids: Seq<Seq<char>>,
) -> bool {
    &&& after.dom() == mid.dom()
    &&& forall|k: Seq<char>| #[trigger] mid.contains_key(k) ==> if marked_by(by_internal, ids, k) {
        made_ready(mid[k], after[k])
    } else {
        after[k] == mid[k]
    }
}

proof fn lemma_registered_id_step(
    before: Map<Seq<char>, CollectionState>,
    prev: Map<Seq<char>, CollectionState>,
    after: Map<Seq<char>, CollectionState>,
    colls: Seq<GetAllPortResultCollection>,
    i: int,
)
    requires
        0 <= i < colls.len(),
        registered_by_id(before, prev, colls.subrange(0, i)),
        after == prev.insert(colls[i].id@, after[colls[i].id@]),
        loading_state_of(colls[i], after[colls[i].id@]),
    ensures
        registered_by_id(before, after, colls.subrange(0, i + 1)),
{
    let sub = colls.subrange(0, i);
    let next = colls.subrange(0, i + 1);
    let n = colls[i].id@;
    assert(next[i] == colls[i]);
    assert forall|k: Seq<char>| id_named(sub, k) implies #[trigger] id_named(next, k) by {
        let j = choose|j: int| 0 <= j < sub.len() && sub[j].id@ == k;
        assert(next[j] == sub[j]);
    }
    assert(id_named(next, n)) by {
        assert(next[i].id@ == n);
    }
    assert forall|k: Seq<char>| id_named(next, k) && k != n implies #[trigger] id_named(sub, k) by {
        let j = choose|j: int| 0 <= j < next.len() && next[j].id@ == k;
        assert(j != i);
        assert(sub[j] == next[j]);
    }
    assert forall|k: Seq<char>| #[trigger] after.contains_key(k) implies if id_named(next, k) {
        exists|ii: int| #![trigger next[ii]]
            0 <= ii < next.len() && next[ii].id@ == k && loading_state_of(next[ii], after[k]) && forall|j: int|
                ii < j < next.len() ==> #[trigger] next[j].id@ != k
    } else {
        after[k] == before[k]
    } by {
        if k == n {
            assert(loading_state_of(next[i], after[k]));
        } else {
            assert(prev.contains_key(k));
            if id_named(next, k) {
                assert(id_named(sub, k));
                let ii = choose|ii: int| #![trigger sub[ii]]
                    0 <= ii < sub.len() && sub[ii].id@ == k && loading_state_of(sub[ii], prev[k]) && forall|j: int|
                        ii < j < sub.len() ==> #[trigger] sub[j].id@ != k;
                assert(next[ii] == sub[ii]);
                assert forall|j: int| ii < j < next.len() implies #[trigger] next[j].id@ != k by {
                    if j < i {
                        assert(next[j] == sub[j]);
                    }
                }
            }
        }
    }
}

proof fn lemma_registered_internal_step(
    before: Map<Seq<char>, String>,
    prev: Map<Seq<char>, String>,
    after: Map<Seq<char>, String>,
    colls: Seq<GetAllPortResultCollection>,
    i: int,
)
    requires
        0 <= i < colls.len(),
        registered_by_internal(before, prev, colls.subrange(0, i)),
        after == prev.insert(colls[i].internal_id@, after[colls[i].internal_id@]),
        after[colls[i].internal_id@]@ == colls[i].id@,
    ensures
        registered_by_internal(before, after, colls.subrange(0, i + 1)),
{
    let sub = colls.subrange(0, i);
    let next = colls.subrange(0, i + 1);
    let n = colls[i].internal_id@;
    assert(next[i] == colls[i]);
    assert forall|k: Seq<char>| internal_named(sub, k) implies #[trigger] internal_named(next, k) by {
        let j = choose|j: int| 0 <= j < sub.len() && sub[j].internal_id@ == k;
        assert(next[j] == sub[j]);
    }
    assert(internal_named(next, n)) by {
        assert(next[i].internal_id@ == n);
    }
    assert forall|k: Seq<char>| internal_named(next, k) && k != n implies #[trigger] internal_named(sub, k) by {
        let j = choose|j: int| 0 <= j < next.len() && next[j].internal_id@ == k;
        assert(j != i);
        assert(sub[j] == next[j]);
    }
    assert forall|k: Seq<char>| #[trigger] after.contains_key(k) implies if internal_named(next, k) {
        exists|ii: int| #![trigger next[ii]]
            0 <= ii < next.len() && next[ii].internal_id@ == k && after[k]@ == next[ii].id@ && forall|j: int|
                ii < j < next.len() ==> #[trigger] next[j].internal_id@ != k
    } else {
        after[k] == before[k]
    } by {
        if k == n {
            assert(after[k]@ == next[i].id@);
        } else {
            assert(prev.contains_key(k));
            if internal_named(next, k) {
                assert(internal_named(sub, k));
                let ii = choose|ii: int| #![trigger sub[ii]]
                    0 <= ii < sub.len() && sub[ii].internal_id@ == k && prev[k]@ == sub[ii].id@ && forall|j: int|
                        ii < j < sub.len() ==> #[trigger] sub[j].internal_id@ != k;
                assert(next[ii] == sub[ii]);
                assert forall|j: int| ii < j < next.len() implies #[trigger] next[j].internal_id@ != k by {
                    if j < i {
                        assert(next[j] == sub[j]);
                    }
                }
            }
        }
    }
}

/// The state of each collection by id, and the id of each collection by internal id.
pub struct CollectionMaps {
    pub collection_by_id: FieldMap<CollectionState>,
    pub collection_by_internal_id: FieldMap<String>,
}

impl CollectionMaps {
    /// Both maps are sound, and so is the field map of each collection.
    pub open spec fn wf(&self) -> bool {
        &&& self.collection_by_id.wf()
        &&& self.collection_by_internal_id.wf()
        &&& forall|k: Seq<char>| #[trigger]
            self.collection_by_id@.contains_key(k) ==> self.collection_by_id@[k].field_types.wf()
    }

    /// No collection.
    pub fn empty() -> (r: CollectionMaps)
        ensures
            r.wf(),
            r.collection_by_id@.dom() == Set::<Seq<char>>::empty(),
            r.collection_by_internal_id@.dom() == Set::<Seq<char>>::empty(),
    {
        CollectionMaps { collection_by_id: FieldMap::new(), collection_by_internal_id: FieldMap::new() }
    }

    /// Records the stored collections as loading, each under its id and internal id, and
    /// gives their internal ids in order.
    pub fn register_loaded(&mut self, result: &GetAllPortResult) -> (r: Vec<String>)
        requires
            old(self).wf(),
        ensures
            final(self).wf(),
            r@.len() == result.collections@.len(),
            forall|i: int| 0 <= i < r@.len() ==> #[trigger] r@[i]@ == result.collections@[i].internal_id@,
            forall|i: int|
                0 <= i < result.collections@.len() ==> #[trigger] final(self).collection_by_id@.contains_key(
                    result.collections@[i].id@,
                ),
            forall|k: Seq<char>| #[trigger]
                final(self).collection_by_id@.contains_key(k) ==> old(self).collection_by_id@.contains_key(k)
                    || exists|i: int| 0 <= i < result.collections@.len() && result.collections@[i].id@ == k,
            forall|k: Seq<char>| #[trigger]
                final(self).collection_by_id@.contains_key(k) && !old(self).collection_by_id@.contains_key(k)
                    ==> final(self).collection_by_id@[k].status == CollectionStatus::Loading,
            forall|k: Seq<char>| #[trigger]
                old(self).collection_by_id@.contains_key(k) ==> final(self).collection_by_id@.contains_key(k),
            registered_by_id(old(self).collection_by_id@, final(self).collection_by_id@, result.collections@),
            registered_by_internal(
                old(self).collection_by_internal_id@,
                final(self).collection_by_internal_id@,
                result.collections@,
            ),
    {
        let ghost before = self.collection_by_id@;
        let ghost before_internal = self.collection_by_internal_id@;
        assert(registered_by_id(before, self.collection_by_id@, result.collections@.subrange(0, 0)));
        assert(registered_by_internal(before_internal, self.collection_by_internal_id@, result.collections@.subrange(0, 0)));
        let mut ids: Vec<String> = Vec::new();
        let mut i: usize = 0;
        while i < result.collections.len()
            invariant
                i <= result.collections@.len(),
                self.wf(),
                ids@.len() == i,
                forall|j: int| 0 <= j < i ==> #[trigger] ids@[j]@ == result.collections@[j].internal_id@,
                forall|j: int| 0 <= j < i ==> #[trigger] self.collection_by_id@.contains_key(result.collections@[j].id@),
                forall|k: Seq<char>| #[trigger]
                    self.collection_by_id@.contains_key(k) ==> before.contains_key(k)
                        || exists|j: int| 0 <= j < i && result.collections@[j].id@ == k,
                forall|k: Seq<char>| #[trigger]
                    self.collection_by_id@.contains_key(k) && !before.contains_key(k)
                        ==> self.collection_by_id@[k].status == CollectionStatus::Loading,
                forall|k: Seq<char>| #[trigger] before.contains_key(k) ==> self.collection_by_id@.contains_key(k),
                registered_by_id(before, self.collection_by_id@, result.collections@.subrange(0, i as int)),
                registered_by_internal(before_internal, self.collection_by_internal_id@, result.collections@.subrange(0, i as int)),
            decreases result.collections@.len() - i,
        {
            let c = &result.collections[i];
            let state = CollectionState::from_get_all_port_result_collection(c, CollectionStatus::Loading);
            let ghost prev = self.collection_by_id@;
            let ghost prev_internal = self.collection_by_internal_id@;
            self.collection_by_id.insert(c.id.clone(), state);
            self.collection_by_internal_id.insert(c.internal_id.clone(), c.id.clone());
            proof {
                lemma_registered_id_step(before, prev, self.collection_by_id@, result.collections@, i as int);
                lemma_registered_internal_step(before_internal, prev_internal, self.collection_by_internal_id@, result.collections@, i as int);
            }
            ids.push(c.internal_id.clone());
            let ghost k_i = c.id@;
            i = i + 1;
            proof {
                assert forall|j: int| 0 <= j < i implies #[trigger] self.collection_by_id@.contains_key(result.collections@[j].id@) by {
                    if j < i - 1 {
                        assert(prev.contains_key(result.collections@[j].id@));
                    }
                }
                assert forall|k: Seq<char>| #[trigger]
                    self.collection_by_id@.contains_key(k) implies before.contains_key(k)
                        || exists|j: int| 0 <= j < i && result.collections@[j].id@ == k by {
                    if k != k_i {
                        assert(prev.contains_key(k));
                        if !before.contains_key(k) {
                            let j = choose|j: int| 0 <= j < i - 1 && result.collections@[j].id@ == k;
                            assert(0 <= j < i && result.collections@[j].id@ == k);
                        }
                    } else {
                        assert(result.collections@[i - 1].id@ == k);
                    }
                }
                assert forall|k: Seq<char>| #[trigger]
                    self.collection_by_id@.contains_key(k) implies self.collection_by_id@[k].field_types.wf() by {
                    if k != k_i {
                        assert(prev.contains_key(k));
                    }
                }
                assert forall|j: int| 0 <= j < i implies #[trigger] ids@[j]@ == result.collections@[j].internal_id@ by {
                    if j == i - 1 {
                        assert(ids@[j]@ == c.internal_id@);
                    }
                }
            }
        }
        assert(result.collections@.subrange(0, result.collections@.len() as int) =~= result.collections@);
        ids
    }

    /// Sets the status of the collection under the id, if it is held.
    pub fn set_status(&mut self, id: &str, status: CollectionStatus)
        requires
            old(self).wf(),
        ensures
            final(self).wf(),
            final(self).collection_by_internal_id == old(self).collection_by_internal_id,
            final(self).collection_by_id@.dom() == old(self).collection_by_id@.dom(),
            old(self).collection_by_id@.contains_key(id@) ==> ({
                let (o, n) = (old(self).collection_by_id@[id@], final(self).collection_by_id@[id@]);
                &&& n.status == status
                &&& n.id == o.id
                &&& n.internal_id == o.internal_id
                &&& n.field_types == o.field_types
            }),
            forall|k: Seq<char>| k != id@ && #[trigger] old(self).collection_by_id@.contains_key(k)
                ==> final(self).collection_by_id@[k] == old(self).collection_by_id@[k],
    {
        let ghost prev = self.collection_by_id@;
        match self.collection_by_id.remove(id) {
            Some(mut state) => {
                state.status = status;
                self.collection_by_id.insert(id.to_owned(), state);
                assert(self.collection_by_id@.dom() =~= prev.dom());
                assert forall|k: Seq<char>| #[trigger] self.collection_by_id@.contains_key(k)
                    implies self.collection_by_id@[k].field_types.wf() by {
                    if k != id@ {
                        assert(prev.contains_key(k));
                    }
                }
            },
            None => {
                assert(self.collection_by_id@ =~= prev);
            },
        }
    }

    /// Marks as ready the collections under the given internal ids' ids: each internal id
    /// that the internal-id map holds names a collection, whose status becomes ready; an
    /// internal id it does not hold is passed over. Nothing else changes.
    pub fn mark_ready(&mut self, ids: &Vec<String>)
        requires
            old(self).wf(),
        ensures
            final(self).wf(),
            final(self).collection_by_internal_id == old(self).collection_by_internal_id,
            final(self).collection_by_id@.dom() == old(self).collection_by_id@.dom(),
            forall|k: Seq<char>| #[trigger] old(self).collection_by_id@.contains_key(k) ==> if marked_by(
                old(self).collection_by_internal_id@,
                str_views(ids@),
                k,
            ) {
                made_ready(old(self).collection_by_id@[k], final(self).collection_by_id@[k])
            } else {
                final(self).collection_by_id@[k] == old(self).collection_by_id@[k]
            },
    {
        let mut i: usize = 0;
        let ghost before = self.collection_by_id@;
        let ghost by_internal = self.collection_by_internal_id@;
        let ghost internal0 = self.collection_by_internal_id;
        while i < ids.len()
            invariant
                i <= ids@.len(),
                self.wf(),
                self.collection_by_internal_id == internal0,
                self.collection_by_id@.dom() == before.dom(),
                self.collection_by_internal_id@ == by_internal,
                forall|k: Seq<char>| #[trigger] before.contains_key(k) ==> if marked_by(
                    by_internal,
                    str_views(ids@).subrange(0, i as int),
                    k,
                ) {
                    made_ready(before[k], self.collection_by_id@[k])
                } else {
                    self.collection_by_id@[k] == before[k]
                },
            decreases ids@.len() - i,
        {
            let ghost cur = self.collection_by_id@;
            let ghost sub = str_views(ids@).subrange(0, i as int);
            let ghost next = str_views(ids@).subrange(0, i + 1);
            assert forall|k: Seq<char>| #[trigger] marked_by(by_internal, sub, k) implies marked_by(by_internal, next, k) by {
                let j = choose|j: int| 0 <= j < sub.len() && by_internal.contains_key(sub[j]) && by_internal[sub[j]]@ == k;
                assert(next[j] == sub[j]);
            }
            let id = match self.collection_by_internal_id.get(ids[i].as_str()) {
                Some(id) => id.clone(),
                None => {
                    assert forall|k: Seq<char>| #[trigger] marked_by(by_internal, next, k) implies marked_by(by_internal, sub, k) by {
                        let j = choose|j: int| 0 <= j < next.len() && by_internal.contains_key(next[j]) && by_internal[next[j]]@ == k;
                        assert(j != i);
                        assert(sub[j] == next[j]);
                    }
                    i = i + 1;
                    continue;
                },
            };
            assert(by_internal.contains_key(ids@[i as int]@) && by_internal[ids@[i as int]@]@ == id@);
            assert(next[i as int] == ids@[i as int]@);
            assert(marked_by(by_internal, next, id@));
            assert forall|k: Seq<char>| #[trigger] marked_by(by_internal, next, k) && k != id@ implies marked_by(by_internal, sub, k) by {
                let j = choose|j: int| 0 <= j < next.len() && by_internal.contains_key(next[j]) && by_internal[next[j]]@ == k;
                assert(j != i);
                assert(sub[j] == next[j]);
            }
            self.set_status(id.as_str(), CollectionStatus::Ready);
            i = i + 1;
        }
        assert(str_views(ids@).subrange(0, ids@.len() as int) =~= str_views(ids@));
    }

    /// Removes a collection under its id and internal id.
    pub fn remove(&mut self, id: &str, internal_id: &str)
        requires
            old(self).wf(),
        ensures
            final(self).wf(),
            final(self).collection_by_id@ == old(self).collection_by_id@.remove(id@),
            final(self).collection_by_internal_id@ == old(self).collection_by_internal_id@.remove(internal_id@),
    {
        let ghost prev = self.collection_by_id@;
        let _ = self.collection_by_id.remove(id);
        let _ = self.collection_by_internal_id.remove(internal_id);
        assert forall|k: Seq<char>| #[trigger] self.collection_by_id@.contains_key(k)
            implies self.collection_by_id@[k].field_types.wf() by {
            assert(prev.contains_key(k));
        }
    }
}

impl CollectionMaps {
    /// Ends a create once the collection `id` is held, loading, under `internal_id`, from
    /// the answer of the document side and, when it accepted the collection, the answer
    /// of the catalog. A refusal of the document side leaves the collection held as
    /// loading; a refusal of the catalog forgets it under its id and its internal id; when
    /// both accept, the collection is ready. A refusal is the answer.
    pub fn settle_create(
        &mut self,
        id: &str,
        internal_id: &str,
        lifecycle: Result<(), VixError>,
        catalog: Option<Result<(), VixError>>,
    ) -> (r: Result<(), VixError>)
        requires
            old(self).wf(),
            lifecycle is Ok <==> catalog is Some,
        ensures
            final(self).wf(),
            lifecycle matches Err(e) ==> {
                &&& r == Err::<(), VixError>(e)
                &&& final(self).collection_by_id@ == old(self).collection_by_id@
                &&& final(self).collection_by_internal_id@ == old(self).collection_by_internal_id@
            },
            catalog matches Some(Err(e)) ==> {
                &&& r == Err::<(), VixError>(e)
                &&& final(self).collection_by_id@ == old(self).collection_by_id@.remove(id@)
                &&& final(self).collection_by_internal_id@ == old(self).collection_by_internal_id@.remove(internal_id@)
            },
            catalog matches Some(Ok(())) ==> {
                &&& r is Ok
                &&& final(self).collection_by_internal_id@ == old(self).collection_by_internal_id@
                &&& final(self).collection_by_id@.dom() == old(self).collection_by_id@.dom()
                &&& old(self).collection_by_id@.contains_key(id@) ==> made_ready(
                    old(self).collection_by_id@[id@],
                    final(self).collection_by_id@[id@],
                )
                &&& forall|k: Seq<char>| k != id@ && #[trigger] old(self).collection_by_id@.contains_key(k)
                    ==> final(self).collection_by_id@[k] == old(self).collection_by_id@[k]
            },
    {
        match lifecycle {
            Ok(()) => {},
            Err(e) => {
                return Err(e);
            },
        }
        match catalog {
            Some(Ok(())) => {
                self.set_status(id, CollectionStatus::Ready);
                Ok(())
            },
            Some(Err(e)) => {
                self.remove(id, internal_id);
                Err(e)
            },
            None => Ok(()),
        }
    }
}

/// The collection service: the port to the catalog, the document side, and the state of
/// the collections.
pub struct ServiceImpl<P, L> {
    adapter: P,
    document_collection_lifecycle: L,
    maps: CollectionMaps,
}

impl<P, L> ServiceImpl<P, L> {
    #[verifier::type_invariant]
    spec fn inv(&self) -> bool {
        self.maps.wf()
    }

    /// The state of each collection, by id.
    pub closed spec fn collections(&self) -> Map<Seq<char>, CollectionState> {
        self.maps.collection_by_id@
    }

    /// The id of each collection, by internal id.
    pub closed spec fn internal_ids(&self) -> Map<Seq<char>, String> {
        self.maps.collection_by_internal_id@
    }

    /// A service with no collection yet.
    pub fn new(adapter: P, document_collection_lifecycle: L) -> (r: ServiceImpl<P, L>)
        ensures
            r.collections().dom() == Set::<Seq<char>>::empty(),
    {
        ServiceImpl { adapter, document_collection_lifecycle, maps: CollectionMaps::empty() }
    }

    fn take_maps(&mut self) -> (r: CollectionMaps)
        ensures
            r.wf(),
            r == old(self).maps,
            final(self).collections().dom() == Set::<Seq<char>>::empty(),
            final(self).adapter == old(self).adapter,
            final(self).document_collection_lifecycle == old(self).document_collection_lifecycle,
    {
        proof {
            use_type_invariant(&*self);
        }
        let mut m = CollectionMaps::empty();
        std::mem::swap(&mut m, &mut self.maps);
        m
    }

    fn put_maps(&mut self, maps: CollectionMaps)
        requires
            maps.wf(),
        ensures
            final(self).maps == maps,
            final(self).adapter == old(self).adapter,
            final(self).document_collection_lifecycle == old(self).document_collection_lifecycle,
    {
        self.maps = maps;
    }
}

impl<P: CollectionPort, L: DocumentCollectionLifecycle> CollectionLoader for ServiceImpl<P, L> {
    /// Reads every stored collection, records each as loading, tells the document side of
    /// them, and marks them ready. An error of the catalog or of the document side is
    /// passed on. No collection held before is lost.
    fn load(&mut self) -> (r: Result<(), VixError>)
        ensures
            old(self).collections().dom().subset_of(final(self).collections().dom()),
            r is Ok ==> exists|stored: Seq<GetAllPortResultCollection>, mid: Map<Seq<char>, CollectionState>|
                #![trigger registered_by_id(old(self).collections(), mid, stored)]
                registered_by_id(old(self).collections(), mid, stored) && registered_by_internal(
                    old(self).internal_ids(),
                    final(self).internal_ids(),
                    stored,
                ) && ready_after(mid, final(self).collections(), final(self).internal_ids(), internal_views(stored)),
            r is Err ==> (final(self).collections() == old(self).collections() && final(self).internal_ids()
                == old(self).internal_ids()) || exists|stored: Seq<GetAllPortResultCollection>|
                #![trigger registered_by_id(old(self).collections(), final(self).collections(), stored)]
                registered_by_id(old(self).collections(), final(self).collections(), stored)
                    && registered_by_internal(old(self).internal_ids(), final(self).internal_ids(), stored),
    {
        let result = match self.adapter.get_all() {
            Ok(r) => r,
            Err(e) => {
                return Err(e);
            },
        };
        let mut maps = self.take_maps();
        let ids = maps.register_loaded(&result);
        let ghost mid = maps.collection_by_id@;
        let ghost stored = result.collections@;
        assert(str_views(ids@) =~= internal_views(stored));
        let res = self.document_collection_lifecycle.load_collections(ids.as_slice());
        if res.is_ok() {
            maps.mark_ready(&ids);
        }
        self.put_maps(maps);
        proof {
            if res.is_ok() {
                assert(ready_after(mid, self.collections(), self.internal_ids(), internal_views(stored)));
                assert(registered_by_id(old(self).collections(), mid, stored));
            } else {
                assert(registered_by_id(old(self).collections(), self.collections(), stored));
            }
        }
        res
    }
}

impl<P: CollectionPort, L: DocumentCollectionLifecycle> ServiceImpl<P, L> {
    /// Creates a collection under the given internal id: the request is validated, the id
    /// must be new, the collection is recorded as loading under its id and the internal
    /// id, the document side is told of it, and the catalog records it; then it is ready.
    /// When the document side refuses it, it stays held as loading; when the catalog
    /// refuses it, it is forgotten under both ids (`CollectionMaps::settle_create`).
    pub fn create_with_internal_id(&mut self, param: CreateParam, internal_id: String) -> (r: Result<(), VixError>)
        ensures
            name_fault(param.id@) is Some || first_field_fault(param.fields@) is Some ==> {
                &&& r matches Err(e) && e.code == Code::ParseError
                &&& final(self).collections() == old(self).collections()
                &&& final(self).internal_ids() == old(self).internal_ids()
            },
            name_fault(param.id@) is None && first_field_fault(param.fields@) is None
                && old(self).collections().contains_key(param.id@) ==> {
                &&& r matches Err(e) && e.code == Code::Exists
                &&& final(self).collections() == old(self).collections()
                &&& final(self).internal_ids() == old(self).internal_ids()
            },
            r is Ok ==> {
                &&& !old(self).collections().contains_key(param.id@)
                &&& final(self).collections().contains_key(param.id@)
                &&& final(self).collections().remove(param.id@) == old(self).collections()
                &&& final(self).collections()[param.id@].status == CollectionStatus::Ready
                &&& final(self).collections()[param.id@].id@ == param.id@
                &&& final(self).collections()[param.id@].field_types@ == create_field_types(param.fields@)
            },
            r is Ok ==> {
                let iid = internal_id@;
                &&& final(self).collections()[param.id@].internal_id@ == iid
                &&& final(self).internal_ids().dom() == old(self).internal_ids().dom().insert(iid)
                &&& final(self).internal_ids()[iid]@ == param.id@
                &&& forall|k: Seq<char>| k != iid && #[trigger] old(self).internal_ids().contains_key(k)
                    ==> final(self).internal_ids()[k] == old(self).internal_ids()[k]
            },
            r is Err && name_fault(param.id@) is None && first_field_fault(param.fields@) is None
                && !old(self).collections().contains_key(param.id@) ==> {
                ||| final(self).collections() == old(self).collections() && final(self).internal_ids()
                    == old(self).internal_ids().remove(internal_id@)
                ||| held_loading(
                    old(self).collections(),
                    old(self).internal_ids(),
                    final(self).collections(),
                    final(self).internal_ids(),
                    param.id@,
                ) && final(self).collections()[param.id@].internal_id@ == internal_id@
            },
    {
        match param.validate() {
            Ok(()) => {},
            Err(e) => {
                return Err(e);
            },
        }
        let mut maps = self.take_maps();
        if maps.collection_by_id.contains_key(param.id.as_str()) {
            self.put_maps(maps);
            return Err(VixError::new(Code::Exists, "collection already exists"));
        }
        let state = CollectionState::new(
            param.id.as_str(),
            internal_id.as_str(),
            &param.fields,
            CollectionStatus::Loading,
        );
        let ghost before = maps.collection_by_id@;
        let ghost before_internal = maps.collection_by_internal_id@;
        maps.collection_by_id.insert(param.id.clone(), state);
        maps.collection_by_internal_id.insert(internal_id.clone(), param.id.clone());
        assert forall|k: Seq<char>| #[trigger] maps.collection_by_id@.contains_key(k)
            implies maps.collection_by_id@[k].field_types.wf() by {
            if k != param.id@ {
                assert(before.contains_key(k));
            }
        }
        assert(maps.collection_by_id@.remove(param.id@) =~= before);
        assert(maps.collection_by_internal_id@.dom() =~= before_internal.dom().insert(internal_id@));
        assert(maps.collection_by_internal_id@.remove(internal_id@) =~= before_internal.remove(internal_id@));
        let lifecycle = self.document_collection_lifecycle.add_collection(internal_id.as_str());
        let catalog = if lifecycle.is_ok() {
            Some(self.adapter.create(param.create_port_param(internal_id.as_str())))
        } else {
            None
        };
        let r = maps.settle_create(param.id.as_str(), internal_id.as_str(), lifecycle, catalog);
        proof {
            if r is Ok {
                assert(maps.collection_by_id@.remove(param.id@) =~= before);
            }
        }
        self.put_maps(maps);
        r
    }
}

impl<P: CollectionPort, L: DocumentCollectionLifecycle> CollectionService for ServiceImpl<P, L> {
    /// Creates a collection: the request is validated, the id must be new, the collection
    /// gets a fresh internal id and is recorded as loading, the document side is told of
    /// it, and the catalog records it; then it is ready. When the catalog fails, the
    /// collection is forgotten again (`create_with_internal_id`, under a v4 UUID drawn
    /// here). Nothing here rules out that the UUID equals an internal id already held, in
    /// which case a create that the catalog refuses drops that internal id.
    fn create(&mut self, param: CreateParam) -> (r: Result<(), VixError>)
        ensures
            name_fault(param.id@) is Some || first_field_fault(param.fields@) is Some ==> {
                &&& r matches Err(e) && e.code == Code::ParseError
                &&& final(self).collections() == old(self).collections()
                &&& final(self).internal_ids() == old(self).internal_ids()
            },
            name_fault(param.id@) is None && first_field_fault(param.fields@) is None
                && old(self).collections().contains_key(param.id@) ==> {
                &&& r matches Err(e) && e.code == Code::Exists
                &&& final(self).collections() == old(self).collections()
                &&& final(self).internal_ids() == old(self).internal_ids()
            },
            r is Ok ==> {
                &&& !old(self).collections().contains_key(param.id@)
                &&& final(self).collections().contains_key(param.id@)
                &&& final(self).collections().remove(param.id@) == old(self).collections()
                &&& final(self).collections()[param.id@].status == CollectionStatus::Ready
                &&& final(self).collections()[param.id@].id@ == param.id@
                &&& final(self).collections()[param.id@].field_types@ == create_field_types(param.fields@)
            },
            r is Ok ==> {
                let iid = final(self).collections()[param.id@].internal_id@;
                &&& final(self).internal_ids().dom() == old(self).internal_ids().dom().insert(iid)
                &&& final(self).internal_ids()[iid]@ == param.id@
                &&& forall|k: Seq<char>| k != iid && #[trigger] old(self).internal_ids().contains_key(k)
                    ==> final(self).internal_ids()[k] == old(self).internal_ids()[k]
            },
            r is Err && name_fault(param.id@) is None && first_field_fault(param.fields@) is None
                && !old(self).collections().contains_key(param.id@) ==> {
                ||| final(self).collections() == old(self).collections() && exists|iid: Seq<char>|
                    iid.len() == 36 && final(self).internal_ids() == #[trigger] old(self).internal_ids().remove(iid)
                ||| held_loading(
                    old(self).collections(),
                    old(self).internal_ids(),
                    final(self).collections(),
                    final(self).internal_ids(),
                    param.id@,
                ) && final(self).collections()[param.id@].internal_id@.len() == 36
            },
    {
        let internal_id = new_uuid();
        self.create_with_internal_id(param, internal_id)
    }

    /// Deletes a collection: a collection not held is an error; one being deleted is left
    /// as it is; otherwise the catalog drops it, the document side is told, and it is
    /// forgotten.
    fn delete_by_id(&mut self, id: &str) -> (r: Result<(), VixError>)
        ensures
            !old(self).collections().contains_key(id@) ==> {
                &&& r matches Err(e) && e.code == Code::NotFound
                &&& final(self).collections() == old(self).collections()
            },
            old(self).collections().contains_key(id@) && old(self).collections()[id@].status
                == CollectionStatus::Deleting ==> r is Ok && final(self).collections() == old(self).collections(),
            r is Ok && old(self).collections().contains_key(id@) && old(self).collections()[id@].status
                != CollectionStatus::Deleting ==> final(self).collections() == old(self).collections().remove(id@),
            r is Err ==> final(self).collections() == old(self).collections(),
            r is Err || !old(self).collections().contains_key(id@) || old(self).collections()[id@].status
                == CollectionStatus::Deleting ==> final(self).internal_ids() == old(self).internal_ids(),
            r is Ok && old(self).collections().contains_key(id@) && old(self).collections()[id@].status
                != CollectionStatus::Deleting ==> final(self).internal_ids() == old(self).internal_ids().remove(
                old(self).collections()[id@].internal_id@,
            ),
    {
        let maps = self.take_maps();
        let internal_id = match maps.collection_by_id.get(id) {
            None => {
                self.put_maps(maps);
                return Err(VixError::new(Code::NotFound, "collection not found"));
            },
            Some(c) => {
                if c.status == CollectionStatus::Deleting {
                    self.put_maps(maps);
                    return Ok(());
                }
                c.internal_id.clone()
            },
        };
        match self.adapter.delete_by_internal_id(internal_id.as_str()) {
            Ok(()) => {},
            Err(e) => {
                self.put_maps(maps);
                return Err(e);
            },
        }
        match self.document_collection_lifecycle.delete_collection(internal_id.as_str()) {
            Ok(()) => {},
            Err(e) => {
                self.put_maps(maps);
                return Err(e);
            },
        }
        let mut maps = maps;
        maps.remove(id, internal_id.as_str());
        self.put_maps(maps);
        Ok(())
    }

    /// Checks a raw payload against the fields of the collection under the id and converts
    /// it: an error when no collection has the id or it is not ready; otherwise as
    /// `CollectionState::parse_raw_document_payload`.
    fn parse_raw_document_payload_by_id(
        &self,
        id: &str,
        raw_document_payload: &FieldMap<RawValue>,
    ) -> (r: Result<FieldMap<Value>, VixError>)
        ensures
            !self.collections().contains_key(id@) ==> (r matches Err(e) && e.code == Code::NotFound),
            self.collections().contains_key(id@) && self.collections()[id@].status != CollectionStatus::Ready
                ==> (r matches Err(e) && e.code == Code::NotReady),
            self.collections().contains_key(id@) && self.collections()[id@].status == CollectionStatus::Ready
                ==> match r {
                Ok(p) => {
                    let types = self.collections()[id@].field_types@;
                    &&& payload_accepted(types, raw_document_payload@)
                    &&& p.wf()
                    &&& p@.dom() == raw_document_payload@.dom()
                    &&& forall|k: Seq<char>| #[trigger]
                        p@.contains_key(k) ==> convert(types[k], raw_document_payload@[k]) == Some(p@[k])
                },
                Err(e) => !payload_accepted(self.collections()[id@].field_types@, raw_document_payload@)
                    && e.code == Code::ParseError,
            },
    {
        proof {
            use_type_invariant(self);
        }
        let collection = match self.maps.collection_by_id.get(id) {
            Some(c) => c,
            None => {
                return Err(VixError::new(Code::NotFound, "collection not found"));
            },
        };
        if collection.status != CollectionStatus::Ready {
            return Err(VixError::new(Code::NotReady, "collection not ready or lagging"));
        }
        collection.parse_raw_document_payload(raw_document_payload)
    }
}

/// Deleting a collection that was just created gives back the collections as they were
/// before the creation.
pub proof fn lemma_create_then_delete(
    before: Map<Seq<char>, CollectionState>,
    created: Map<Seq<char>, CollectionState>,
    deleted: Map<Seq<char>, CollectionState>,
    id: Seq<char>,
)
    requires
        !before.contains_key(id),
        created.contains_key(id),
        created.remove(id) == before,
        deleted == created.remove(id),
    ensures
        deleted == before,
{
}

} // verus!
