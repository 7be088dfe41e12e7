//! The base of the layered index kinds: one buffer per indexed field, found by the key
//! `<collection>:<field>`. The buffers are of a kind implemented outside this crate.
use crate::error::{Code, VixError};
use crate::fieldmap::FieldMap;
use crate::index::buffer_key;
use vstd::prelude::*;

verus! {

/// The buffer of a field's index.
pub trait Buffer {
    type Query;
    type SearchResult;
    type Lookup;
    type Entry;

    fn search(&self, query: Self::Query) -> Result<Self::SearchResult, VixError>;

    fn insert(&mut self, lookup: Self::Lookup, entry: Self::Entry) -> Result<(), VixError>;

    fn flush(&mut self);
}

/// A layered index kind: the buffer of each indexed field, by buffer key.
pub struct BaseTypeManager<B> {
    buffers: FieldMap<B>,
}

impl<B> BaseTypeManager<B> {
    #[verifier::type_invariant]
    spec fn inv(&self) -> bool {
        self.buffers.wf()
    }

    /// The keys of the indexed fields.
    pub closed spec fn keys(&self) -> Set<Seq<char>> {
        self.buffers@.dom()
    }

    fn take_buffers(&mut self) -> (r: FieldMap<B>)
        ensures
            r.wf(),
            r == old(self).buffers,
    {
        proof {
            use_type_invariant(&*self);
        }
        let mut m: FieldMap<B> = FieldMap::new();
        std::mem::swap(&mut m, &mut self.buffers);
        m
    }

    fn put_buffers(&mut self, buffers: FieldMap<B>)
        requires
            buffers.wf(),
        ensures
            final(self).buffers == buffers,
    {
        self.buffers = buffers;
    }
}

impl<B: Buffer> BaseTypeManager<B> {
    /// A manager with no index.
    pub fn new() -> (r: BaseTypeManager<B>)
        ensures
            r.keys() == Set::<Seq<char>>::empty(),
    {
        BaseTypeManager { buffers: FieldMap::new() }
    }

    /// Creates the index of a field with its buffer; `Exists` when the field has one.
    pub fn create(&mut self, collection: String, field: String, buffer: B) -> (r: Result<(), VixError>)
        ensures
            old(self).keys().contains(collection@ + ":"@ + field@) ==> (r matches Err(e) && e.code == Code::Exists)
                && final(self).keys() == old(self).keys(),
            !old(self).keys().contains(collection@ + ":"@ + field@) ==> r is Ok && final(self).keys()
                == old(self).keys().insert(collection@ + ":"@ + field@),
    {
        let key = buffer_key(collection.as_str(), field.as_str());
        let mut buffers = self.take_buffers();
        if buffers.contains_key(key.as_str()) {
            self.put_buffers(buffers);
            return Err(VixError::new(Code::Exists, "Index already exists"));
        }
        let ghost prev = buffers@;
        buffers.insert(key, buffer);
        assert(buffers@.dom() =~= prev.dom().insert(collection@ + ":"@ + field@));
        self.put_buffers(buffers);
        Ok(())
    }

    /// Searches the buffer of a field; `FatalError` when the field has no index.
    pub fn search(&self, collection: &str, field: &str, query: B::Query) -> (r: Result<B::SearchResult, VixError>)
        ensures
            !self.keys().contains(collection@ + ":"@ + field@) ==> (r matches Err(e) && e.code == Code::FatalError),
    {
        proof {
            use_type_invariant(self);
        }
        let key = buffer_key(collection, field);
        match self.buffers.get(key.as_str()) {
            Some(b) => b.search(query),
            None => Err(VixError::new(Code::FatalError, "index not found")),
        }
    }

    /// Hands an entry to the buffer of a field; `FatalError` when the field has no index.
    /// What the buffer answers is not passed on.
    pub fn insert(&mut self, collection: &str, field: &str, lookup: B::Lookup, entry: B::Entry) -> (r: Result<(), VixError>)
        ensures
            final(self).keys() == old(self).keys(),
            old(self).keys().contains(collection@ + ":"@ + field@) <==> r is Ok,
            r matches Err(e) ==> e.code == Code::FatalError,
    {
        let key = buffer_key(collection, field);
        let mut buffers = self.take_buffers();
        let ghost prev = buffers@;
        let mut buffer = match buffers.remove(key.as_str()) {
            Some(b) => b,
            None => {
                assert(buffers@ =~= prev);
                self.put_buffers(buffers);
                return Err(VixError::new(Code::FatalError, "index not found"));
            },
        };
        let _ = buffer.insert(lookup, entry);
        buffers.insert(key, buffer);
        assert(buffers@.dom() =~= prev.dom());
        self.put_buffers(buffers);
        Ok(())
    }

    /// Flushes the buffer of a field; `FatalError` when the field has no index.
    pub fn flush(&mut self, collection: &str, field: &str) -> (r: Result<(), VixError>)
        ensures
            final(self).keys() == old(self).keys(),
            old(self).keys().contains(collection@ + ":"@ + field@) <==> r is Ok,
            r matches Err(e) ==> e.code == Code::FatalError,
    {
        let key = buffer_key(collection, field);
        let mut buffers = self.take_buffers();
        let ghost prev = buffers@;
        let mut buffer = match buffers.remove(key.as_str()) {
            Some(b) => b,
            None => {
                assert(buffers@ =~= prev);
                self.put_buffers(buffers);
                return Err(VixError::new(Code::FatalError, "index not found"));
            },
        };
        buffer.flush();
        buffers.insert(key, buffer);
        assert(buffers@.dom() =~= prev.dom());
        self.put_buffers(buffers);
        Ok(())
    }
}

} // verus!
