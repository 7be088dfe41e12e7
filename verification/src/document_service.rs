//! The document service: documents of a collection stored in the engine under two keys,
//! `id_<id>` holding the document's sequence id and `seq_<sequence id>` holding its
//! payload.
use crate::codec::{le64, u64_at};
use crate::document::{store_after_insert, existing_seq_id, id_key, key_from_id, key_from_seq_id, plan_insert, seq_id_from_value, seq_key, InsertParam};
use crate::engine::{DocumentEngine, LSMDocumentEngine, LSMDocumentPort};
use crate::lsm::{buffer_store, flushed_empty, CollectionState};
use crate::error::{Code, VixError};
use vstd::prelude::*;
use vstd::string::*;

verus! {

/// The engine key holding the sequence id of the document with the id.
pub open spec fn id_key_of(id: Seq<char>) -> Seq<u8> {
    id_key(vstd::utf8::encode_utf8(id))
}

/// The value of the key in the collection is `value`, or the collection's buffers were
/// flushed and are empty.
pub open spec fn stored_or_flushed<P>(engine: LSMDocumentEngine<P>, collection_id: Seq<char>, key: Seq<u8>, value: Seq<u8>) -> bool {
    ||| engine.collections()[collection_id].lookup(key) == Some(value)
    ||| engine.collections()[collection_id].active().dom() == Set::<Seq<u8>>::empty()
        && engine.collections()[collection_id].flushing() is None
}

/// After an insert of `doc` for the id, the collection's buffers hold what
/// `store_after_insert` gives; or the buffers were flushed at the end; or, for a new id,
/// they were flushed after the id key was written, and hold the payload alone.
pub open spec fn doc_written(
    before: CollectionState,
    after: CollectionState,
    id_bytes: Seq<u8>,
    op_seq: u64,
    doc: Seq<u8>,
) -> bool {
    ||| buffer_store(after) == store_after_insert(buffer_store(before), id_bytes, op_seq, doc)
    ||| flushed_empty(after)
    ||| !buffer_store(before).contains_key(id_key(id_bytes)) && buffer_store(after) == Map::<Seq<u8>, Seq<u8>>::empty().insert(
        seq_key(op_seq),
        doc,
    )
}

/// The writes of an insert on a store, given the sequence id already recorded for the id,
/// if any: a known id keeps its sequence id and the payload goes under it; a new id gets
/// the operation's number under its id key, and the payload goes under that number.
pub open spec fn planned_store(
    store: Map<Seq<u8>, Seq<u8>>,
    id_bytes: Seq<u8>,
    op_seq: u64,
    known: Option<u64>,
    doc: Seq<u8>,
) -> Map<Seq<u8>, Seq<u8>> {
    match known {
        Some(s) => store.insert(seq_key(s), doc),
        None => store.insert(id_key(id_bytes), le64(op_seq)).insert(seq_key(op_seq), doc),
    }
}

/// After the writes of an insert, given the sequence id found for the id (if any), the
/// collection's buffers hold them; or were flushed at the end; or, for a new id, were
/// flushed between the two writes and hold the payload alone.
pub open spec fn written_with(
    before: CollectionState,
    after: CollectionState,
    id_bytes: Seq<u8>,
    op_seq: u64,
    known: Option<u64>,
    doc: Seq<u8>,
) -> bool {
    ||| buffer_store(after) == planned_store(buffer_store(before), id_bytes, op_seq, known, doc)
    ||| flushed_empty(after)
    ||| known is None && buffer_store(after) == Map::<Seq<u8>, Seq<u8>>::empty().insert(seq_key(op_seq), doc)
}

/// The sequence id found for an id agrees with the buffers: none is found only where the
/// buffers hold no id key, and where they hold one, it is that key's eight bytes.
pub open spec fn found_consistent(buffered: Option<Seq<u8>>, known: Option<u64>) -> bool {
    &&& known is None ==> buffered is None
    &&& buffered matches Some(v) ==> v.len() == 8 && known == Some(u64_at(v, 0))
}

/// The document service over the engine.
pub struct DocumentServiceImpl<P> {
    engine: LSMDocumentEngine<P>,
}

impl<P: LSMDocumentPort> DocumentServiceImpl<P> {
    /// The engine the documents are stored in.
    pub closed spec fn engine_view(&self) -> LSMDocumentEngine<P> {
        self.engine
    }

    /// A service over the engine.
    pub fn new(engine: LSMDocumentEngine<P>) -> (r: DocumentServiceImpl<P>)
        ensures
            r.engine_view() == engine,
    {
        DocumentServiceImpl { engine }
    }

    /// The engine.
    pub fn engine(&self) -> (r: &LSMDocumentEngine<P>)
        ensures
            *r == self.engine_view(),
    {
        &self.engine
    }

    /// The engine, to load or flush collections.
    pub fn engine_mut(&mut self) -> (r: &mut LSMDocumentEngine<P>)
        ensures
            *r == old(self).engine_view(),
            final(self).engine_view() == *final(r),
    {
        &mut self.engine
    }

    /// The sequence id of a document: the eight bytes stored under its id key. A fatal
    /// error when the stored value is not eight bytes long; the engine's error when the
    /// key is not found.
    pub fn get_seq_id_by_id(&self, collection_id: &str, document_id: &str) -> (r: Result<u64, VixError>)
        ensures
            !self.engine_view().collections().contains_key(collection_id@) ==> (r matches Err(e) && e.code
                == Code::CollectionNotFound),
            self.engine_view().collections().contains_key(collection_id@) ==> match self.engine_view().collections()[collection_id@].lookup(id_key_of(document_id@)) {
                Some(v) => if v.len() == 8 {
                    r == Ok::<u64, VixError>(u64_at(v, 0))
                } else {
                    r matches Err(e) && e.code == Code::FatalError
                },
                None => self.engine_view().collections()[collection_id@].segment_entries().len() == 0
                    ==> (r matches Err(e) && e.code == Code::DocumentNotFound),
            },
    {
        let key = key_from_id(document_id);
        let seq_id_raw = match self.engine.get_by_key(collection_id, key.as_slice()) {
            Ok(v) => v,
            Err(e) => {
                return Err(e);
            },
        };
        seq_id_from_value(seq_id_raw.as_slice())
    }

    /// The stored payload of the document with the id, in its MessagePack form.
    pub fn get_by_id(&self, collection_id: &str, document_id: &str) -> (r: Result<Vec<u8>, VixError>)
        ensures
            !self.engine_view().collections().contains_key(collection_id@) ==> (r matches Err(e) && e.code
                == Code::CollectionNotFound),
            self.engine_view().collections().contains_key(collection_id@) ==> match self.engine_view().collections()[collection_id@].lookup(id_key_of(document_id@)) {
                Some(v) => if v.len() == 8 {
                    self.engine_view().collections()[collection_id@].lookup(seq_key(u64_at(v, 0))) matches Some(w)
                        ==> (r matches Ok(x) && x@ == w)
                } else {
                    r matches Err(e) && e.code == Code::FatalError
                },
                None => self.engine_view().collections()[collection_id@].segment_entries().len() == 0
                    ==> (r matches Err(e) && e.code == Code::DocumentNotFound),
            },
    {
        let seq_id = match self.get_seq_id_by_id(collection_id, document_id) {
            Ok(s) => s,
            Err(e) => {
                return Err(e);
            },
        };
        let key = key_from_seq_id(&seq_id);
        self.engine.get_by_key(collection_id, key.as_slice())
    }

    /// The stored payload of the document with the sequence id, in its MessagePack form.
    pub fn get_by_seq_id(&self, collection_id: &str, document_seq_id: &u64) -> (r: Result<Vec<u8>, VixError>)
        ensures
            !self.engine_view().collections().contains_key(collection_id@) ==> (r matches Err(e) && e.code
                == Code::CollectionNotFound),
            self.engine_view().collections().contains_key(collection_id@) && self.engine_view().collections()[collection_id@].lookup(
                seq_key(*document_seq_id),
            ) is Some ==> (r matches Ok(v) && Some(v@) == self.engine_view().collections()[collection_id@].lookup(
                seq_key(*document_seq_id),
            )),
    {
        let key = key_from_seq_id(document_seq_id);
        self.engine.get_by_key(collection_id, key.as_slice())
    }

    /// Inserts a document, given its payload in MessagePack form: a document new to the
    /// collection gets the operation's sequence number, stored under its id key; a known
    /// document keeps its sequence id. The payload is stored under the sequence key.
    pub fn insert(&mut self, collection_id: &str, param: InsertParam, doc: &[u8]) -> (r: Result<(), VixError>)
        ensures
            !old(self).engine_view().collections().contains_key(collection_id@) ==> (r matches Err(e) && e.code
                == Code::CollectionNotFound),
            final(self).engine_view().collections().dom() == old(self).engine_view().collections().dom(),
            old(self).engine_view().collections().contains_key(collection_id@) ==> match old(self).engine_view().collections()[collection_id@].lookup(id_key_of(param.id@)) {
                Some(v) => if v.len() == 8 {
                    r is Ok && stored_or_flushed(final(self).engine_view(), collection_id@, seq_key(u64_at(v, 0)), doc@)
                        && doc_written(
                        old(self).engine_view().collections()[collection_id@],
                        final(self).engine_view().collections()[collection_id@],
                        vstd::utf8::encode_utf8(param.id@),
                        param.op_seq,
                        doc@,
                    )
                } else {
                    r matches Err(e) && e.code == Code::FatalError
                },
                None => old(self).engine_view().collections()[collection_id@].segment_entries().len() == 0 ==> r is Ok
                    && stored_or_flushed(final(self).engine_view(), collection_id@, seq_key(param.op_seq), doc@)
                    && doc_written(
                    old(self).engine_view().collections()[collection_id@],
                    final(self).engine_view().collections()[collection_id@],
                    vstd::utf8::encode_utf8(param.id@),
                    param.op_seq,
                    doc@,
                ),
            },
            r is Err ==> final(self).engine_view() == old(self).engine_view(),
            r is Ok ==> old(self).engine_view().collections().contains_key(collection_id@) && exists|known: Option<u64>|
                #[trigger] written_with(
                old(self).engine_view().collections()[collection_id@],
                final(self).engine_view().collections()[collection_id@],
                vstd::utf8::encode_utf8(param.id@),
                param.op_seq,
                known,
                doc@,
            ) && found_consistent(old(self).engine_view().collections()[collection_id@].lookup(id_key_of(param.id@)), known),
    {
        let ghost c0 = self.engine_view().collections()[collection_id@];
        let ghost idb = vstd::utf8::encode_utf8(param.id@);
        let existing = match existing_seq_id(self.get_seq_id_by_id(collection_id, param.id.as_str())) {
            Ok(s) => s,
            Err(e) => {
                return Err(e);
            },
        };
        let writes = plan_insert(param.id.as_str(), param.op_seq, existing);
        let ghost c1 = self.engine_view().collections()[collection_id@];
        match writes.id_entry {
            Some((k, v)) => {
                match self.engine.insert(collection_id, k.as_slice(), v.as_slice()) {
                    Ok(()) => {},
                    Err(e) => {
                        return Err(e);
                    },
                }
            },
            None => {},
        }
        let ghost c2 = self.engine_view().collections()[collection_id@];
        let r = self.engine.insert(collection_id, writes.doc_key.as_slice(), doc);
        proof {
            if flushed_empty(c2) {
                assert(buffer_store(c2) =~= Map::<Seq<u8>, Seq<u8>>::empty());
            }
            assert(written_with(c0, self.engine_view().collections()[collection_id@], idb, param.op_seq, existing, doc@));
            assert(found_consistent(c0.lookup(id_key_of(param.id@)), existing));
            if old(self).engine_view().collections().contains_key(collection_id@) {
                let s0 = buffer_store(c0);
                let idk = id_key(idb);
                assert(s0.contains_key(idk) == (c0.lookup(idk) is Some));
                if s0.contains_key(idk) {
                    assert(s0[idk] == c0.lookup(idk)->0);
                }
                if flushed_empty(c2) {
                    assert(buffer_store(c2) =~= Map::<Seq<u8>, Seq<u8>>::empty());
                }
                if c0.lookup(idk) is None && c0.segment_entries().len() == 0 {
                    if !flushed_empty(c2) {
                        assert(buffer_store(c2) == s0.insert(idk, le64(param.op_seq)));
                    }
                }
            }
        }
        r
    }
}

} // verus!
