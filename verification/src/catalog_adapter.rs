//! The collection catalog over a write-once storage: collections are recorded in schema
//! files and listed in numbered commit files, the latest readable commit being the truth.
//!
//! The storage and the MessagePack form of commits and schemas are reached through
//! `CatalogStorage` and `CatalogCodec`, implemented outside this crate; nothing is assumed
//! of what they answer.
use crate::catalog::{
    frame_ok, latest_commit_number, latest_number, next_number, schema_store_name, Commit, CommitBlock, GetLatestCommitResult, Schema,
    SchemaBlock, COMMIT_STORE,
};
use crate::collection::{CreatePortParam, GetAllPortResult, GetAllPortResultCollection};
use crate::collection_service::CollectionPort;
use crate::error::{Code, VixError};
use crate::text::starts_with;
use vstd::prelude::*;

verus! {

/// A storage of named files in stores, each file written once.
pub trait CatalogStorage {
    /// The names of a store's files, sorted.
    fn get_all_name_sorted(&self, store: &str) -> Result<Vec<String>, VixError>;

    /// The whole content of a file.
    fn read_all(&self, store: &str, name: &str) -> Result<Vec<u8>, VixError>;

    /// Writes a new file with the content and commits it.
    fn write_once(&self, store: &str, name: &str, buf: &[u8]) -> Result<(), VixError>;
}

/// The MessagePack form of commits and schemas.
pub trait CatalogCodec {
    fn encode_commit(&self, commit: &Commit) -> Vec<u8>;

    /// A parse error when the bytes are not a commit.
    fn decode_commit(&self, data: &[u8]) -> Result<Commit, VixError>;

    fn encode_schema(&self, schema: &Schema) -> Vec<u8>;

    /// A parse error when the bytes are not a schema.
    fn decode_schema(&self, data: &[u8]) -> Result<Schema, VixError>;
}

/// The internal ids a commit lists, in order; none without a commit.
pub open spec fn listed_ids(latest: Option<Commit>) -> Seq<String> {
    match latest {
        Some(c) => c.collection_internal_ids@,
        None => Seq::empty(),
    }
}

/// A name starts with `commit_`.
pub open spec fn commit_prefixed(name: Seq<char>) -> bool {
    "commit_"@.len() <= name.len() && name.subrange(0, "commit_"@.len() as int) == "commit_"@
}

/// The catalog over a storage and a codec.
pub struct CollectionAdapter<S, C> {
    storage: S,
    codec: C,
}

impl<S, C> CollectionAdapter<S, C> {
    /// The storage the catalog is kept in.
    pub closed spec fn storage_view(&self) -> S {
        self.storage
    }

    /// The codec of commits and schemas.
    pub closed spec fn codec_view(&self) -> C {
        self.codec
    }
}

impl<S: CatalogStorage, C: CatalogCodec> CollectionAdapter<S, C> {
    /// A catalog over the storage.
    pub fn new(storage: S, codec: C) -> (r: CollectionAdapter<S, C>)
        ensures
            r.storage_view() == storage,
            r.codec_view() == codec,
    {
        CollectionAdapter { storage, codec }
    }

    /// Reads a commit file: its frame, then its commit, as `commit_from_file` does.
    pub fn get_commit(&self, commit_name: &str) -> (r: Result<Commit, VixError>) {
        let buf = match self.storage.read_all(COMMIT_STORE, commit_name) {
            Ok(b) => b,
            Err(e) => {
                return Err(e);
            },
        };
        self.commit_from_file(buf)
    }

    /// The commit in a commit file's bytes: a parse error when the frame is cut short or
    /// its data fails the checksum; otherwise the codec's reading of the frame's data.
    pub fn commit_from_file(&self, buf: Vec<u8>) -> (r: Result<Commit, VixError>)
        ensures
            !frame_ok(buf@) ==> (r matches Err(e) && e.code == Code::ParseError),
    {
        let block = match CommitBlock::from_buf(buf) {
            Ok(b) => b,
            Err(e) => {
                return Err(e);
            },
        };
        let data = block.into_data();
        self.codec.decode_commit(data.as_slice())
    }

    /// The collection in a schema file's bytes: a parse error when the frame is cut short
    /// or its data fails the checksum; otherwise the codec's reading of the frame's data,
    /// with each field's type read from its name (a parse error for an unknown name).
    pub fn collection_from_schema_file(&self, buf: Vec<u8>) -> (r: Result<GetAllPortResultCollection, VixError>)
        ensures
            !frame_ok(buf@) ==> (r matches Err(e) && e.code == Code::ParseError),
    {
        let block = match SchemaBlock::from_buf(buf) {
            Ok(b) => b,
            Err(e) => {
                return Err(e);
            },
        };
        let data = block.into_data();
        let schema = match self.codec.decode_schema(data.as_slice()) {
            Ok(s) => s,
            Err(e) => {
                return Err(e);
            },
        };
        schema.get_all_port_result_collection()
    }

    /// The number the next commit gets, and the latest commit file, from the last, that
    /// can be read, as `latest_commit_in` finds them among the commit store's names.
    pub fn get_latest_commit(&self) -> (r: Result<GetLatestCommitResult, VixError>)
        ensures
            r matches Ok(res) ==> res.next_number >= 1,
    {
        let names = match self.storage.get_all_name_sorted(COMMIT_STORE) {
            Ok(n) => n,
            Err(e) => {
                return Err(e);
            },
        };
        self.latest_commit_in(&names)
    }

    /// The collections a commit lists, each read from its schema file, in the commit's
    /// order: one collection for each internal id, and none without a commit. An error
    /// reading or decoding a schema file is given back.
    pub fn collections_of(&self, latest: Option<Commit>) -> (r: Result<GetAllPortResult, VixError>)
        ensures
            r matches Ok(res) ==> res.collections@.len() == listed_ids(latest).len(),
            listed_ids(latest).len() == 0 ==> (r matches Ok(res) && res.collections@.len() == 0),
    {
        let internal_ids = match latest {
            Some(c) => c.collection_internal_ids,
            None => Vec::new(),
        };
        let mut collections: Vec<GetAllPortResultCollection> = Vec::new();
        let mut i: usize = 0;
        while i < internal_ids.len()
            invariant
                i <= internal_ids@.len(),
                internal_ids@ == listed_ids(latest),
                collections@.len() == i,
            decreases internal_ids@.len() - i,
        {
            let (store, name) = schema_store_name(internal_ids[i].as_str());
            let buf = match self.storage.read_all(store.as_str(), name.as_str()) {
                Ok(b) => b,
                Err(e) => {
                    return Err(e);
                },
            };
            match self.collection_from_schema_file(buf) {
                Ok(c) => collections.push(c),
                Err(e) => {
                    return Err(e);
                },
            }
            i = i + 1;
        }
        Ok(GetAllPortResult { collections })
    }

    /// The number the next commit gets, and the latest commit file that can be read, among
    /// the sorted names of the commit store: the next number is one past the last numbered
    /// commit file's, and a fatal error when that is past the greatest `u64`. The files whose
    /// names start with `commit_` are read from the last; one that fails to parse is passed
    /// over, any other error is given back, and the first that reads is the latest commit.
    /// Without such a name no file is read and there is no latest commit.
    pub fn latest_commit_in(&self, names: &Vec<String>) -> (r: Result<GetLatestCommitResult, VixError>)
        ensures
            latest_commit_number(names@) == Some(u64::MAX as int) ==> (r matches Err(e) && e.code
                == Code::FatalError),
            r matches Ok(res) ==> res.next_number >= 1 && res.next_number == next_number(names@) && (res.latest_commit is Some
                ==> exists|k: int| 0 <= k < names@.len() && #[trigger] commit_prefixed(names@[k]@)),
            latest_commit_number(names@) != Some(u64::MAX as int) && (forall|k: int|
                0 <= k < names@.len() ==> !#[trigger] commit_prefixed(names@[k]@)) ==> (r matches Ok(res)
                && res.next_number == next_number(names@) && res.latest_commit is None),
    {
        let next = match latest_number(names.as_slice()) {
            Some(n) => {
                if n == u64::MAX {
                    return Err(VixError::new(Code::FatalError, "commit number overflow"));
                }
                n + 1
            },
            None => 1,
        };
        assert(next_number(names@) == next);
        let mut i: usize = names.len();
        while i > 0
            invariant
                i <= names@.len(),
                next >= 1,
                next_number(names@) == next,
            decreases i,
        {
            i = i - 1;
            if starts_with(names[i].as_str(), "commit_") {
                assert(commit_prefixed(names@[i as int]@));
                match self.get_commit(names[i].as_str()) {
                    Ok(c) => {
                        return Ok(GetLatestCommitResult::new(next, Some(c)));
                    },
                    Err(e) => {
                        if e.code != Code::ParseError {
                            return Err(e);
                        }
                    },
                }
            }
        }
        Ok(GetLatestCommitResult::new(next, None))
    }

    /// Writes a new commit file.
    fn write_commit(&self, commit: Commit) -> (r: Result<(), VixError>) {
        let name = commit.name();
        let data = self.codec.encode_commit(&commit);
        let buf = CommitBlock::from_commit(data).encode();
        self.storage.write_once(COMMIT_STORE, name.as_str(), buf.as_slice())
    }
}

impl<S: CatalogStorage, C: CatalogCodec> CollectionPort for CollectionAdapter<S, C> {
    /// The collections the latest commit lists, each read from its schema file, in the
    /// commit's order; none when there is no commit.
    fn get_all(&self) -> (r: Result<GetAllPortResult, VixError>) {
        let result = match self.get_latest_commit() {
            Ok(r) => r,
            Err(e) => {
                return Err(e);
            },
        };
        self.collections_of(result.latest_commit)
    }

    /// Writes the collection's schema file, then a commit that adds the collection to the
    /// latest one.
    fn create(&self, param: CreatePortParam) -> (r: Result<(), VixError>) {
        let internal_id = param.internal_id.clone();
        let (store, name) = schema_store_name(internal_id.as_str());
        let schema = Schema::new(param);
        let schema_buf = SchemaBlock::from_create_port_param(self.codec.encode_schema(&schema)).encode();
        match self.storage.write_once(store.as_str(), name.as_str(), schema_buf.as_slice()) {
            Ok(()) => {},
            Err(e) => {
                return Err(e);
            },
        }
        let result = match self.get_latest_commit() {
            Ok(r) => r,
            Err(e) => {
                return Err(e);
            },
        };
        let commit = Commit::add_collection(internal_id.as_str(), result);
        self.write_commit(commit)
    }

    /// Writes a commit that drops the collection from the latest one; nothing is written
    /// when there is no commit.
    fn delete_by_internal_id(&self, internal_id: &str) -> (r: Result<(), VixError>) {
        let result = match self.get_latest_commit() {
            Ok(r) => r,
            Err(e) => {
                return Err(e);
            },
        };
        match Commit::delete_collection(internal_id, result) {
            Some(commit) => self.write_commit(commit),
            None => Ok(()),
        }
    }
}

} // verus!
