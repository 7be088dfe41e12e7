//! The query service: an insert is checked against its collection's fields, given the
//! next operation sequence number, recorded in the transaction log, then stored.
//!
//! The log, the counter and the MessagePack form of payloads are reached through traits
//! implemented outside this crate; nothing is assumed of what they answer.
use crate::collection_service::{CollectionPort, CollectionService, DocumentCollectionLifecycle, ServiceImpl};
use crate::document::{Document, Value};
use crate::collection::{payload_accepted, CollectionState, CollectionStatus};
use crate::codec::u64_at;
use crate::document::{convert, seq_key};
use crate::document_service::{id_key_of, stored_or_flushed, DocumentServiceImpl};
use crate::engine::LSMDocumentEngine;
use crate::engine::LSMDocumentPort;
use crate::error::{Code, VixError};
use crate::fieldmap::FieldMap;
use crate::query::{copy_payload, value_same, InsertParam, ParsedInsertParam};
use crate::translog;
use vstd::prelude::*;

verus! {

/// The transaction log.
pub trait TranslogService {
    fn insert(&mut self, param: translog::InsertParam) -> Result<(), VixError>;
}

/// The global operation counter.
pub trait Counter {
    fn next(&mut self) -> u64;
}

/// The MessagePack form of payloads.
pub trait PayloadEncoder {
    fn encode_payload(&self, payload: &FieldMap<Value>) -> Result<Vec<u8>, VixError>;
}

/// The query service over the collection service, the document service, the log, the
/// counter and the payload encoder.
pub struct QueryServiceImpl<CP, L, P, T, K, E> {
    collection_service: ServiceImpl<CP, L>,
    document_service: DocumentServiceImpl<P>,
    translog_service: T,
    global_counter: K,
    encoder: E,
}

impl<CP: CollectionPort, L: DocumentCollectionLifecycle, P: LSMDocumentPort, T: TranslogService, K: Counter, E: PayloadEncoder> QueryServiceImpl<CP, L, P, T, K, E> {
    /// The collections of the collection service, by id.
    pub closed spec fn collections(&self) -> Map<Seq<char>, CollectionState> {
        self.collection_service.collections()
    }

    /// The collection service.
    pub closed spec fn collection_service_view(&self) -> ServiceImpl<CP, L> {
        self.collection_service
    }

    /// The document service.
    pub closed spec fn document_service_view(&self) -> DocumentServiceImpl<P> {
        self.document_service
    }

    /// The engine of the document service.
    pub closed spec fn engine(&self) -> LSMDocumentEngine<P> {
        self.document_service.engine_view()
    }

    /// The transaction log.
    pub closed spec fn translog_view(&self) -> T {
        self.translog_service
    }

    /// The global operation counter.
    pub closed spec fn counter_view(&self) -> K {
        self.global_counter
    }

    pub fn new(
        collection_service: ServiceImpl<CP, L>,
        document_service: DocumentServiceImpl<P>,
        translog_service: T,
        global_counter: K,
        encoder: E,
    ) -> (r: Self)
        ensures
            r.collections() == collection_service.collections(),
            r.engine() == document_service.engine_view(),
    {
        QueryServiceImpl { collection_service, document_service, translog_service, global_counter, encoder }
    }

    /// The collection service, to load, create or delete collections; the rest of the
    /// query service is left as it is.
    pub fn collection_service(&mut self) -> (r: &mut ServiceImpl<CP, L>)
        ensures
            *r == old(self).collection_service_view(),
            final(self).collection_service_view() == *final(r),
            final(self).document_service_view() == old(self).document_service_view(),
    {
        &mut self.collection_service
    }

    /// The document service, to reach its engine; the rest of the query service is left
    /// as it is.
    pub fn document_service(&mut self) -> (r: &mut DocumentServiceImpl<P>)
        ensures
            *r == old(self).document_service_view(),
            final(self).document_service_view() == *final(r),
            final(self).collection_service_view() == old(self).collection_service_view(),
    {
        &mut self.document_service
    }

    /// The stored payload of a document, in MessagePack form.
    pub fn get_by_id(&self, collection_id: &str, id: &str) -> (r: Result<Vec<u8>, VixError>)
        ensures
            !self.engine().collections().contains_key(collection_id@) ==> (r matches Err(e) && e.code
                == Code::CollectionNotFound),
            self.engine().collections().contains_key(collection_id@) ==> match self.engine().collections()[collection_id@].lookup(id_key_of(id@)) {
                Some(v) => if v.len() == 8 {
                    self.engine().collections()[collection_id@].lookup(seq_key(u64_at(v, 0))) matches Some(w)
                        ==> (r matches Ok(x) && x@ == w)
                } else {
                    r matches Err(e) && e.code == Code::FatalError
                },
                None => self.engine().collections()[collection_id@].segment_entries().len() == 0
                    ==> (r matches Err(e) && e.code == Code::DocumentNotFound),
            },
    {
        self.document_service.get_by_id(collection_id, id)
    }

    /// Inserts a document: its payload is checked against the collection's fields, the
    /// insert gets the next operation number, is logged, and is stored under that number.
    /// The document stored comes back with it. An error of any step ends the insert; a
    /// payload that is refused takes no number and logs nothing.
    pub fn insert(&mut self, param: InsertParam) -> (r: Result<Document, VixError>)
        requires
            param.payload.wf(),
        ensures
            final(self).collections() == old(self).collections(),
            !(old(self).collections().contains_key(param.collection_id@) && old(self).collections()[param.collection_id@].status
                == CollectionStatus::Ready && payload_accepted(
                old(self).collections()[param.collection_id@].field_types@,
                param.payload@,
            )) ==> final(self).engine() == old(self).engine(),
            r is Err ==> final(self).engine() == old(self).engine(),
            !(old(self).collections().contains_key(param.collection_id@) && old(self).collections()[param.collection_id@].status
                == CollectionStatus::Ready && payload_accepted(
                old(self).collections()[param.collection_id@].field_types@,
                param.payload@,
            )) ==> final(self).counter_view() == old(self).counter_view() && final(self).translog_view()
                == old(self).translog_view(),
            !old(self).collections().contains_key(param.collection_id@) ==> (r matches Err(e) && e.code
                == Code::NotFound),
            old(self).collections().contains_key(param.collection_id@) && old(self).collections()[param.collection_id@].status
                != CollectionStatus::Ready ==> (r matches Err(e) && e.code == Code::NotReady),
            old(self).collections().contains_key(param.collection_id@) && old(self).collections()[param.collection_id@].status
                == CollectionStatus::Ready && !payload_accepted(
                old(self).collections()[param.collection_id@].field_types@,
                param.payload@,
            ) ==> (r matches Err(e) && e.code == Code::ParseError),
            r matches Ok(d) ==> {
                let types = old(self).collections()[param.collection_id@].field_types@;
                &&& old(self).collections().contains_key(param.collection_id@)
                &&& payload_accepted(types, param.payload@)
                &&& d.id == param.document_id
                &&& d.payload.wf()
                &&& d.payload@.dom() == param.payload@.dom()
                &&& forall|k: Seq<char>| #[trigger] d.payload@.contains_key(k) ==> (convert(types[k], param.payload@[k]) matches Some(v)
                    && value_same(v, d.payload@[k]))
                &&& old(self).engine().collections().contains_key(param.collection_id@)
                &&& old(self).engine().collections()[param.collection_id@].lookup(id_key_of(param.document_id@)) is None
                    && old(self).engine().collections()[param.collection_id@].segment_entries().len() == 0
                    ==> exists|b: Seq<u8>| #[trigger] stored_or_flushed(final(self).engine(), param.collection_id@, seq_key(d.seq_id), b)
            },
    {
        let parsed_payload = match self.collection_service.parse_raw_document_payload_by_id(
            param.collection_id.as_str(),
            &param.payload,
        ) {
            Ok(p) => p,
            Err(e) => {
                return Err(e);
            },
        };
        let parsed = ParsedInsertParam {
            collection_id: param.collection_id,
            document_id: param.document_id,
            payload: parsed_payload,
        };
        let op_seq = self.global_counter.next();
        match self.translog_service.insert(parsed.translog_insert_param(op_seq)) {
            Ok(()) => {},
            Err(e) => {
                return Err(e);
            },
        }
        let doc = match self.encoder.encode_payload(&parsed.payload) {
            Ok(d) => d,
            Err(_) => {
                return Err(VixError::new(Code::FatalError, "failed to serialize payload"));
            },
        };
        let collection_id = parsed.collection_id.clone();
        let result = Document { id: parsed.document_id.clone(), seq_id: op_seq, payload: copy_payload(&parsed.payload) };
        match self.document_service.insert(collection_id.as_str(), parsed.document_insert_param(op_seq), doc.as_slice()) {
            Ok(()) => {},
            Err(e) => {
                return Err(e);
            },
        }
        proof {
            if old(self).engine().collections()[param.collection_id@].lookup(id_key_of(param.document_id@)) is None
                && old(self).engine().collections()[param.collection_id@].segment_entries().len() == 0 {
                assert(stored_or_flushed(self.engine(), param.collection_id@, seq_key(result.seq_id), doc@));
            }
        }
        Ok(result)
    }
}

} // verus!
