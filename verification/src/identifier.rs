//! The identifier index: per collection, the documents of the write buffer by id.
use crate::document::Document;
use crate::error::{Code, VixError};
use crate::fieldmap::FieldMap;
use crate::query::{copy_payload, payload_same};
use vstd::prelude::*;

verus! {

/// A request to create the identifier index of a collection.
#[derive(Debug)]
pub struct CreateParam {
    pub collection: String,
}

/// A request for a document of a collection by id.
#[derive(Debug)]
pub struct GetParam {
    pub collection: String,
    pub id: String,
}

/// A request to index a document of a collection under its id.
#[derive(Debug)]
pub struct InsertParam {
    pub collection: String,
    pub id: String,
    pub document: Document,
}

/// A request to drop the identifier index of a collection.
#[derive(Debug)]
pub struct DeleteParam {
    pub collection: String,
}

/// Two documents are the same: same id, sequence id and payload.
pub open spec fn document_same(a: Document, b: Document) -> bool {
    &&& a.id@ == b.id@
    &&& a.seq_id == b.seq_id
    &&& payload_same(a.payload@, b.payload@)
}

/// `after` is `before` with the document stored under `id`, where `id` was free; where
/// it was taken, `after` is `before`.
pub open spec fn inserted_once(
    before: Map<Seq<char>, Document>,
    after: Map<Seq<char>, Document>,
    id: Seq<char>,
    document: Document,
) -> bool {
    if before.contains_key(id) {
        after == before
    } else {
        &&& after.dom() == before.dom().insert(id)
        &&& document_same(after[id], document)
        &&& forall|k: Seq<char>| k != id && #[trigger] before.contains_key(k) ==> after[k] == before[k]
    }
}

/// A document stored under a free id is what a lookup of that id then finds; a document
/// offered under a taken id leaves the one stored there in place.
pub proof fn lemma_insert_then_get(
    before: Map<Seq<char>, Document>,
    after: Map<Seq<char>, Document>,
    id: Seq<char>,
    document: Document,
)
    requires
        inserted_once(before, after, id, document),
    ensures
        after.contains_key(id),
        !before.contains_key(id) ==> document_same(after[id], document),
        before.contains_key(id) ==> after[id] == before[id],
{
    if !before.contains_key(id) {
        assert(after.dom().contains(id));
    }
}

/// A copy of a document.
pub fn copy_document(d: &Document) -> (r: Document)
    requires
        d.payload.wf(),
    ensures
        r.payload.wf(),
        document_same(r, *d),
{
    Document { id: d.id.clone(), seq_id: d.seq_id, payload: copy_payload(&d.payload) }
}

/// The documents of a collection's write buffer, by id.
pub struct Buffer {
    buffer_map: FieldMap<Document>,
}

impl Buffer {
    /// The buffer is sound, and so is every document's payload.
    pub closed spec fn wf(&self) -> bool {
        &&& self.buffer_map.wf()
        &&& forall|k: Seq<char>| #[trigger] self.buffer_map@.contains_key(k) ==> self.buffer_map@[k].payload.wf()
    }

    /// The documents, by id.
    pub closed spec fn documents(&self) -> Map<Seq<char>, Document> {
        self.buffer_map@
    }

    /// An empty buffer.
    pub fn new() -> (r: Buffer)
        ensures
            r.wf(),
            r.documents().dom() == Set::<Seq<char>>::empty(),
    {
        Buffer { buffer_map: FieldMap::new() }
    }

    /// A copy of the document with the id; `NotFound` when there is none.
    pub fn get(&self, id: &str) -> (r: Result<Document, VixError>)
        requires
            self.wf(),
        ensures
            match r {
                Ok(d) => self.documents().contains_key(id@) && document_same(d, self.documents()[id@]),
                Err(e) => !self.documents().contains_key(id@) && e.code == Code::NotFound,
            },
    {
        match self.buffer_map.get(id) {
            Some(d) => Ok(copy_document(d)),
            None => Err(VixError::new(Code::NotFound, "document not found")),
        }
    }

    /// Stores a copy of the document under the id; `Exists` when the id is taken.
    pub fn insert(&mut self, id: &str, document: &Document) -> (r: Result<(), VixError>)
        requires
            old(self).wf(),
            document.payload.wf(),
        ensures
            final(self).wf(),
            inserted_once(old(self).documents(), final(self).documents(), id@, *document),
            old(self).documents().contains_key(id@) ==> (r matches Err(e) && e.code == Code::Exists),
            !old(self).documents().contains_key(id@) ==> r is Ok,
    {
        if self.buffer_map.contains_key(id) {
            return Err(VixError::new(Code::Exists, "Document with same id already exists"));
        }
        let ghost prev = self.buffer_map@;
        let copy = copy_document(document);
        self.buffer_map.insert(id.to_owned(), copy);
        assert(self.buffer_map@.dom() =~= prev.dom().insert(id@));
        assert forall|k: Seq<char>| #[trigger] self.buffer_map@.contains_key(k) implies self.buffer_map@[k].payload.wf() by {
            if k != id@ {
                assert(prev.contains_key(k));
            }
        }
        Ok(())
    }
}

/// The buffers of the identifier index, by collection; each is sound.
pub struct Buffers {
    pub by_collection: FieldMap<Buffer>,
}

impl Buffers {
    pub open spec fn wf(&self) -> bool {
        &&& self.by_collection.wf()
        &&& forall|k: Seq<char>| #[trigger] self.by_collection@.contains_key(k) ==> self.by_collection@[k].wf()
    }
}

/// The identifier index of each collection.
pub struct ManagerImpl {
    collection_to_buffers: Buffers,
}

impl ManagerImpl {
    #[verifier::type_invariant]
    spec fn inv(&self) -> bool {
        self.collection_to_buffers.wf()
    }

    /// The collections that have an index.
    pub closed spec fn collections(&self) -> Set<Seq<char>> {
        self.collection_to_buffers.by_collection@.dom()
    }

    /// The indexed documents of each collection that has an index, by id.
    pub closed spec fn index(&self) -> Map<Seq<char>, Map<Seq<char>, Document>> {
        self.collection_to_buffers.by_collection@.map_values(|b: Buffer| b.documents())
    }

    /// The collections with an index are the keys of the index.
    pub proof fn lemma_index_dom(&self)
        ensures
            self.index().dom() == self.collections(),
    {
        assert(self.index().dom() =~= self.collections());
    }

    /// A manager with no index.
    pub fn new() -> (r: ManagerImpl)
        ensures
            r.collections() == Set::<Seq<char>>::empty(),
            r.index() == Map::<Seq<char>, Map<Seq<char>, Document>>::empty(),
    {
        let r = ManagerImpl { collection_to_buffers: Buffers { by_collection: FieldMap::new() } };
        assert(r.index() =~= Map::<Seq<char>, Map<Seq<char>, Document>>::empty());
        r
    }

    fn take_buffers(&mut self) -> (r: Buffers)
        ensures
            r.wf(),
            r == old(self).collection_to_buffers,
    {
        proof {
            use_type_invariant(&*self);
        }
        let mut m = Buffers { by_collection: FieldMap::new() };
        std::mem::swap(&mut m, &mut self.collection_to_buffers);
        m
    }

    fn put_buffers(&mut self, buffers: Buffers)
        requires
            buffers.wf(),
        ensures
            final(self).collection_to_buffers == buffers,
    {
        self.collection_to_buffers = buffers;
    }

    /// Creates the index of a collection; `Exists` when it has one.
    pub fn create(&mut self, param: CreateParam) -> (r: Result<(), VixError>)
        ensures
            old(self).collections().contains(param.collection@) ==> (r matches Err(e) && e.code == Code::Exists)
                && final(self).collections() == old(self).collections() && final(self).index() == old(self).index(),
            !old(self).collections().contains(param.collection@) ==> r is Ok && final(self).collections()
                == old(self).collections().insert(param.collection@) && final(self).index()
                == old(self).index().insert(param.collection@, Map::empty()),
    {
        let mut buffers = self.take_buffers();
        if buffers.by_collection.contains_key(param.collection.as_str()) {
            self.put_buffers(buffers);
            return Err(VixError::new(Code::Exists, "Index already exists"));
        }
        let ghost prev = buffers.by_collection@;
        let fresh = Buffer::new();
        assert(fresh.documents() =~= Map::<Seq<char>, Document>::empty());
        buffers.by_collection.insert(param.collection, fresh);
        assert(buffers.by_collection@.dom() =~= prev.dom().insert(param.collection@));
        assert forall|k: Seq<char>| #[trigger] buffers.by_collection@.contains_key(k) implies buffers.by_collection@[k].wf() by {
            if k != param.collection@ {
                assert(prev.contains_key(k));
            }
        }
        self.put_buffers(buffers);
        assert(self.index() =~= old(self).index().insert(param.collection@, Map::empty()));
        Ok(())
    }

    /// The document of a collection with the id; `FatalError` when the collection has no
    /// index, `NotFound` when the document is not there.
    pub fn get(&self, param: GetParam) -> (r: Result<Document, VixError>)
        ensures
            !self.collections().contains(param.collection@) ==> (r matches Err(e) && e.code == Code::FatalError),
            self.collections().contains(param.collection@) ==> match r {
                Ok(d) => self.index()[param.collection@].contains_key(param.id@) && document_same(
                    d,
                    self.index()[param.collection@][param.id@],
                ),
                Err(e) => !self.index()[param.collection@].contains_key(param.id@) && e.code == Code::NotFound,
            },
    {
        proof {
            use_type_invariant(self);
        }
        match self.collection_to_buffers.by_collection.get(param.collection.as_str()) {
            Some(b) => b.get(param.id.as_str()),
            None => Err(VixError::new(Code::FatalError, "index not found")),
        }
    }

    /// Indexes a document of a collection under its id; `FatalError` when the collection
    /// has no index. A document whose id is taken is left out, and the call still
    /// succeeds.
    pub fn insert(&mut self, param: InsertParam) -> (r: Result<(), VixError>)
        requires
            param.document.payload.wf(),
        ensures
            final(self).collections() == old(self).collections(),
            !old(self).collections().contains(param.collection@) ==> (r matches Err(e) && e.code == Code::FatalError)
                && final(self).index() == old(self).index(),
            old(self).collections().contains(param.collection@) ==> r is Ok && inserted_once(
                old(self).index()[param.collection@],
                final(self).index()[param.collection@],
                param.id@,
                param.document,
            ) && forall|c: Seq<char>| c != param.collection@ && #[trigger] old(self).collections().contains(c)
                ==> final(self).index()[c] == old(self).index()[c],
    {
        let mut buffers = self.take_buffers();
        let ghost prev = buffers.by_collection@;
        let mut buffer = match buffers.by_collection.remove(param.collection.as_str()) {
            Some(b) => b,
            None => {
                assert(buffers.by_collection@ =~= prev);
                self.put_buffers(buffers);
                assert(self.index() =~= old(self).index());
                return Err(VixError::new(Code::FatalError, "index not found"));
            },
        };
        let _ = buffer.insert(param.id.as_str(), &param.document);
        buffers.by_collection.insert(param.collection, buffer);
        assert(buffers.by_collection@.dom() =~= prev.dom());
        assert forall|k: Seq<char>| #[trigger] buffers.by_collection@.contains_key(k) implies buffers.by_collection@[k].wf() by {
            if k != param.collection@ {
                assert(prev.contains_key(k));
            }
        }
        self.put_buffers(buffers);
        Ok(())
    }
}

/// An identifier index manager with no index.
pub fn new_type_manager() -> (r: ManagerImpl)
    ensures
        r.collections() == Set::<Seq<char>>::empty(),
        r.index() == Map::<Seq<char>, Map<Seq<char>, Document>>::empty(),
{
    ManagerImpl::new()
}

} // verus!
