//! The collection catalog on disk: numbered commit files that list the internal ids of
//! the live collections, and one schema file per collection.
//!
//! Both kinds of file are framed the same way: a 4-byte magic (`CMMT` or `SCMA`), the
//! CRC-32 of the data (4 bytes, little-endian), the data's length (8 bytes,
//! little-endian), then the data, which is MessagePack.
use crate::checksum::{crc32, crc32_hash};
use crate::codec::{append_bytes, append_u32, append_u64, copy_range, le32, le64, lemma_le_roundtrip, read_u32, read_u64, u32_at, u64_at};
use crate::collection::{
    CreatePortParam, GetAllPortResultCollection, GetAllPortResultCollectionField,
};
use crate::document::ValueType;
use crate::error::{Code, VixError};
use crate::fieldmap::string_eq;
use crate::lsm_store::is_commit_name;
use crate::text::{all_hex, join2, join3, format_hex16, hex16, hex_number, parse_hex, starts_with};
use vstd::prelude::*;
use vstd::string::*;

verus! {

/// The store that holds the commit files.
pub const COMMIT_STORE: &'static str = "collection/commit";

/// The store and the file name of a collection's schema: `collection/<id>/schema` and
/// `schema_` with the schema version in 16 hexadecimal digits. Every schema has version 1.
pub fn schema_store_name(collection_internal_id: &str) -> (r: (String, String))
    ensures
        r.0@ == "collection/"@ + collection_internal_id@ + "/schema"@,
        r.1@ == "schema_"@ + hex16(1),
{
    let version = format_hex16(1);
    (join3("collection/", collection_internal_id, "/schema"), join2("schema_", version.as_str()))
}

/// Each internal id has a schema store of its own: the stores of two different internal
/// ids differ, so the schema read for an id is never another id's.
pub proof fn lemma_schema_store_per_id(a: Seq<char>, b: Seq<char>)
    ensures
        "collection/"@ + a + "/schema"@ == "collection/"@ + b + "/schema"@ ==> a == b,
{
    let p = "collection/"@;
    let q = "/schema"@;
    if p + a + q == p + b + q {
        assert((p + a + q).len() == p.len() + a.len() + q.len());
        assert((p + b + q).len() == p.len() + b.len() + q.len());
        assert(a.len() == b.len());
        assert(a =~= (p + a + q).subrange(p.len() as int, (p.len() + a.len()) as int));
        assert(b =~= (p + b + q).subrange(p.len() as int, (p.len() + b.len()) as int));
    }
}

/// The number a commit file's name carries: `commit_` then 16 hexadecimal digits.
pub open spec fn commit_number_of(s: Seq<char>) -> Option<int> {
    if is_commit_name(s) && s.len() == "commit_"@.len() + 16 && all_hex(
        s.subrange("commit_"@.len() as int, s.len() as int),
    ) {
        Some(hex_number(s.subrange("commit_"@.len() as int, s.len() as int)))
    } else {
        None
    }
}

/// The number of the last name, in order, that is a numbered commit file's.
pub open spec fn latest_commit_number(names: Seq<String>) -> Option<int>
    decreases names.len(),
{
    if names.len() == 0 {
        None
    } else {
        match commit_number_of(names.last()@) {
            Some(n) => Some(n),
            None => latest_commit_number(names.drop_last()),
        }
    }
}

/// The number of the commit that follows: one past that of the last numbered commit file
/// among the sorted names, or 1 when there is none.
pub open spec fn next_number(names: Seq<String>) -> int {
    match latest_commit_number(names) {
        Some(n) => n + 1,
        None => 1,
    }
}

fn commit_number(name: &str) -> (r: Option<u64>)
    ensures
        match r {
            Some(n) => commit_number_of(name@) == Some(n as int),
            None => commit_number_of(name@) is None,
        },
{
    proof {
        reveal_strlit("commit_");
    }
    if !starts_with(name, "commit_") {
        return None;
    }
    let len = name.unicode_len();
    if len != 23 {
        return None;
    }
    let hex = name.substring_char(7, len);
    match parse_hex(hex) {
        Some(v) => Some(v),
        None => None,
    }
}

/// The number of the last numbered commit file among the names, if any.
pub fn latest_number(names: &[String]) -> (r: Option<u64>)
    ensures
        match r {
            Some(n) => latest_commit_number(names@) == Some(n as int),
            None => latest_commit_number(names@) is None,
        },
{
    let mut i: usize = names.len();
    assert(names@.subrange(0, i as int) =~= names@);
    while i > 0
        invariant
            i <= names@.len(),
            latest_commit_number(names@) == latest_commit_number(names@.subrange(0, i as int)),
        decreases i,
    {
        let ghost prefix = names@.subrange(0, i as int);
        assert(prefix.last() == names@[i - 1]);
        assert(prefix.drop_last() =~= names@.subrange(0, i - 1));
        match commit_number(names[i - 1].as_str()) {
            Some(n) => {
                return Some(n);
            },
            None => {},
        }
        i = i - 1;
    }
    None
}

/// The number of the next commit, from the sorted names of the commit store.
pub fn next_commit_number(names: &[String]) -> (r: u64)
    requires
        latest_commit_number(names@) != Some(u64::MAX as int),
    ensures
        r == next_number(names@),
{
    let mut i: usize = names.len();
    assert(names@.subrange(0, i as int) =~= names@);
    while i > 0
        invariant
            i <= names@.len(),
            latest_commit_number(names@) == latest_commit_number(names@.subrange(0, i as int)),
            latest_commit_number(names@) != Some(u64::MAX as int),
        decreases i,
    {
        let ghost prefix = names@.subrange(0, i as int);
        assert(prefix.last() == names@[i - 1]);
        assert(prefix.drop_last() =~= names@.subrange(0, i - 1));
        match commit_number(names[i - 1].as_str()) {
            Some(n) => {
                return n + 1;
            },
            None => {},
        }
        i = i - 1;
    }
    1
}

/// A commit file's name carries the commit's number: read back, the name `commit_` plus
/// the 16 digits of `n` gives `n`.
pub proof fn lemma_commit_name_number(n: u64)
    ensures
        commit_number_of("commit_"@ + hex16(n)) == Some(n as int),
{
    reveal_strlit("commit_");
    crate::text::lemma_hex16_roundtrip(n);
    let s = "commit_"@ + hex16(n);
    assert(s.subrange(0, 7) =~= "commit_"@);
    assert(s.subrange(7, s.len() as int) =~= hex16(n));
}

/// When the name of the commit numbered `n` is among the sorted names and no name after
/// it is a numbered commit file's, the next commit is numbered `n + 1`.
pub proof fn lemma_next_after_commit(names: Seq<String>, i: int, n: u64)
    requires
        0 <= i < names.len(),
        names[i]@ == "commit_"@ + hex16(n),
        forall|j: int| i < j < names.len() ==> commit_number_of(#[trigger] names[j]@) is None,
    ensures
        next_number(names) == n + 1,
    decreases names.len(),
{
    lemma_commit_name_number(n);
    if i < names.len() - 1 {
        assert(commit_number_of(names[names.len() - 1]@) is None);
        let init = names.drop_last();
        assert forall|j: int| i < j < init.len() implies commit_number_of(#[trigger] init[j]@) is None by {
            assert(init[j] == names[j]);
        }
        lemma_next_after_commit(init, i, n);
    }
}

/// When no name is a numbered commit file's, the first commit is numbered 1.
pub proof fn lemma_first_commit_number(names: Seq<String>)
    requires
        forall|j: int| 0 <= j < names.len() ==> commit_number_of(#[trigger] names[j]@) is None,
    ensures
        next_number(names) == 1,
    decreases names.len(),
{
    if names.len() > 0 {
        assert(commit_number_of(names[names.len() - 1]@) is None);
        let init = names.drop_last();
        assert forall|j: int| 0 <= j < init.len() implies commit_number_of(#[trigger] init[j]@) is None by {
            assert(init[j] == names[j]);
        }
        lemma_first_commit_number(init);
    }
}

/// Removing an id that a commit did not list, after adding it at the end, gives back the
/// commit's list: a deletion undoes the creation of a new collection.
pub proof fn lemma_delete_undoes_add(ids: Seq<Seq<char>>, id: Seq<char>)
    requires
        !ids.contains(id),
    ensures
        without_id(ids.push(id), id) == ids,
    decreases ids.len(),
{
    assert(ids.push(id).drop_last() =~= ids);
    lemma_without_absent(ids, id);
}

/// The commit a deletion writes lists exactly the other ids of the latest commit: an id
/// is listed afterwards when and only when it was listed before and is not the deleted
/// one, and no more entries are dropped than the deleted id's.
pub proof fn lemma_delete_keeps_others(ids: Seq<Seq<char>>, id: Seq<char>)
    ensures
        forall|k: Seq<char>| #[trigger] without_id(ids, id).contains(k) <==> ids.contains(k) && k != id,
        without_id(ids, id).len() + ids.filter(|k: Seq<char>| k == id).len() == ids.len(),
    decreases ids.len(),
{
    if ids.len() > 0 {
        let init = ids.drop_last();
        lemma_delete_keeps_others(init, id);
        assert(init.push(ids.last()) =~= ids);
        init.lemma_filter_push(ids.last(), |k: Seq<char>| k == id);
        let w = without_id(ids, id);
        let wi = without_id(init, id);
        if ids.last() == id {
            assert(w == wi);
        } else {
            assert(w == wi.push(ids.last()));
        }
        assert forall|k: Seq<char>| ids.contains(k) && k != id implies #[trigger] w.contains(k) by {
            let j = choose|j: int| 0 <= j < ids.len() && ids[j] == k;
            if j < ids.len() - 1 {
                assert(init[j] == k);
                assert(init.contains(k));
                assert(wi.contains(k));
                let m = choose|m: int| 0 <= m < wi.len() && wi[m] == k;
                if ids.last() != id {
                    assert(w[m] == k);
                }
            } else {
                assert(w[w.len() - 1] == k);
            }
        }
        assert forall|k: Seq<char>| #[trigger] w.contains(k) implies ids.contains(k) && k != id by {
            let j = choose|j: int| 0 <= j < w.len() && w[j] == k;
            if ids.last() != id && j == w.len() - 1 {
                assert(ids[ids.len() - 1] == k);
            } else {
                assert(wi[j] == k);
                assert(wi.contains(k));
                let m = choose|m: int| 0 <= m < init.len() && init[m] == k;
                assert(ids[m] == k);
            }
        }
    } else {
        assert(ids.filter(|k: Seq<char>| k == id) =~= Seq::<Seq<char>>::empty());
    }
}

/// Removing an id that a list does not hold leaves the list as it is.
proof fn lemma_without_absent(ids: Seq<Seq<char>>, id: Seq<char>)
    requires
        !ids.contains(id),
    ensures
        without_id(ids, id) == ids,
    decreases ids.len(),
{
    if ids.len() > 0 {
        let init = ids.drop_last();
        assert(!init.contains(id)) by {
            if init.contains(id) {
                let j = choose|j: int| 0 <= j < init.len() && init[j] == id;
                assert(ids[j] == id);
            }
        }
        lemma_without_absent(init, id);
        assert(ids.last() != id) by {
            assert(ids[ids.len() - 1] == ids.last());
        }
        assert(init.push(ids.last()) =~= ids);
    }
}

/// What the commit store holds at present: the number the next commit gets, and the
/// latest commit that could be read, if any.
#[derive(Debug)]
pub struct GetLatestCommitResult {
    pub next_number: u64,
    pub latest_commit: Option<Commit>,
}

impl GetLatestCommitResult {
    pub fn new(next_number: u64, latest_commit: Option<Commit>) -> (r: GetLatestCommitResult)
        ensures
            r.next_number == next_number,
            r.latest_commit == latest_commit,
    {
        GetLatestCommitResult { next_number, latest_commit }
    }
}

/// A commit: its number and the internal ids of the collections that live after it.
#[derive(Debug)]
pub struct Commit {
    pub commit_number: u64,
    pub collection_internal_ids: Vec<String>,
}

/// The internal ids, as strings.
pub open spec fn ids_view(ids: Seq<String>) -> Seq<Seq<char>> {
    ids.map_values(|s: String| s@)
}

/// The ids without any equal to `id`, in order.
pub open spec fn without_id(ids: Seq<Seq<char>>, id: Seq<char>) -> Seq<Seq<char>>
    decreases ids.len(),
{
    if ids.len() == 0 {
        Seq::empty()
    } else if ids.last() == id {
        without_id(ids.drop_last(), id)
    } else {
        without_id(ids.drop_last(), id).push(ids.last())
    }
}

impl Commit {
    /// The commit that adds a collection: the latest commit's ids with the new one at the
    /// end, under the next number.
    pub fn add_collection(internal_id: &str, result: GetLatestCommitResult) -> (r: Commit)
        ensures
            r.commit_number == result.next_number,
            ids_view(r.collection_internal_ids@) == match result.latest_commit {
                Some(c) => ids_view(c.collection_internal_ids@),
                None => Seq::empty(),
            }.push(internal_id@),
    {
        match result.latest_commit {
            Some(c) => {
                let mut ids = c.collection_internal_ids;
                let ghost before = ids@;
                ids.push(internal_id.to_owned());
                assert(ids_view(ids@) =~= ids_view(before).push(internal_id@));
                Commit { commit_number: result.next_number, collection_internal_ids: ids }
            },
            None => {
                let mut ids: Vec<String> = Vec::new();
                ids.push(internal_id.to_owned());
                assert(ids_view(ids@) =~= Seq::<Seq<char>>::empty().push(internal_id@));
                Commit { commit_number: result.next_number, collection_internal_ids: ids }
            },
        }
    }

    /// The commit that removes a collection: the latest commit's ids without it, under the
    /// next number; `None` when there is no latest commit.
    pub fn delete_collection(internal_id: &str, result: GetLatestCommitResult) -> (r: Option<Commit>)
        ensures
            match result.latest_commit {
                Some(c) => r matches Some(n) && n.commit_number == result.next_number && ids_view(
                    n.collection_internal_ids@,
                ) == without_id(ids_view(c.collection_internal_ids@), internal_id@),
                None => r is None,
            },
    {
        match result.latest_commit {
            Some(c) => {
                let ids = c.collection_internal_ids;
                let mut kept: Vec<String> = Vec::new();
                let mut i: usize = 0;
                while i < ids.len()
                    invariant
                        i <= ids@.len(),
                        ids_view(kept@) == without_id(ids_view(ids@.subrange(0, i as int)), internal_id@),
                    decreases ids@.len() - i,
                {
                    let ghost before = kept@;
                    proof {
                        let v = ids_view(ids@.subrange(0, i + 1));
                        assert(v.drop_last() =~= ids_view(ids@.subrange(0, i as int)));
                        assert(v.last() == ids@[i as int]@);
                    }
                    if !string_eq(ids[i].as_str(), internal_id) {
                        kept.push(ids[i].clone());
                        assert(ids_view(kept@) =~= ids_view(before).push(ids@[i as int]@));
                    }
                    i = i + 1;
                }
                assert(ids@.subrange(0, ids@.len() as int) =~= ids@);
                Some(Commit { commit_number: result.next_number, collection_internal_ids: kept })
            },
            None => None,
        }
    }

    /// The commit's file name: `commit_` then its number in 16 hexadecimal digits.
    pub fn name(&self) -> (r: String)
        ensures
            r@ == "commit_"@ + hex16(self.commit_number),
    {
        let hex = format_hex16(self.commit_number);
        join2("commit_", hex.as_str())
    }
}

/// A field as a schema file records it: its name and the name of its type.
#[derive(Debug)]
pub struct SchemaField {
    pub name: String,
    pub field_type: String,
}

/// What a schema file records of a collection.
#[derive(Debug)]
pub struct Schema {
    pub id: String,
    pub internal_id: String,
    pub fields: Vec<SchemaField>,
}

/// The name a type is recorded under.
pub open spec fn type_label(t: ValueType) -> Seq<char> {
    match t {
        ValueType::String => "string"@,
        ValueType::Int64 => "int64"@,
    }
}

/// The type recorded under a name, if the name is a type's.
pub open spec fn type_named(s: Seq<char>) -> Option<ValueType> {
    if s == "string"@ {
        Some(ValueType::String)
    } else if s == "int64"@ {
        Some(ValueType::Int64)
    } else {
        None
    }
}

impl SchemaField {
    /// The field as the schema file records it.
    pub fn new(param: crate::collection::CreatePortParamField) -> (r: SchemaField)
        ensures
            r.name == param.name,
            r.field_type@ == type_label(param.field_type),
    {
        SchemaField { name: param.name, field_type: param.field_type.string() }
    }

    /// The field read back; a parse error when the type's name is not known.
    pub fn get_all_port_result_collection_field(self) -> (r: Result<
        GetAllPortResultCollectionField,
        VixError,
    >)
        ensures
            match r {
                Ok(f) => f.name == self.name && type_named(self.field_type@) == Some(f.field_type),
                Err(e) => type_named(self.field_type@) is None && e.code == Code::ParseError,
            },
    {
        proof {
            reveal_strlit("string");
            reveal_strlit("int64");
        }
        let name_str = self.field_type.as_str();
        match ValueType::new(name_str) {
            Ok(field_type) => {
                assert(name_str@ == self.field_type@);
                if field_type == ValueType::String {
                    assert(name_str@ == "string"@);
                } else {
                    assert(name_str@ == "int64"@);
                    proof {
                        reveal_strlit("string");
                        reveal_strlit("int64");
                        assert("int64"@.len() == 5);
                        assert("string"@.len() == 6);
                    }
                    assert(name_str@ != "string"@);
                }
                assert(type_named(self.field_type@) == Some(field_type));
                Ok(GetAllPortResultCollectionField { name: self.name, field_type })
            },
            Err(e) => Err(e),
        }
    }
}

impl Schema {
    /// The schema file's record of a new collection.
    pub fn new(param: CreatePortParam) -> (r: Schema)
        ensures
            r.id == param.id,
            r.internal_id == param.internal_id,
            r.fields@.len() == param.fields@.len(),
            forall|i: int|
                0 <= i < r.fields@.len() ==> #[trigger] r.fields@[i].name == param.fields@[i].name
                    && r.fields@[i].field_type@ == type_label(param.fields@[i].field_type),
    {
        let mut src = param.fields;
        let ghost given = src@;
        let mut fields: Vec<SchemaField> = Vec::new();
        while src.len() > 0
            invariant
                fields@.len() + src@.len() == given.len(),
                src@ == given.skip(fields@.len() as int),
                forall|i: int| 0 <= i < fields@.len() ==> #[trigger] fields@[i].name == given[i].name,
                forall|i: int|
                    0 <= i < fields@.len() ==> #[trigger] fields@[i].field_type@ == type_label(given[i].field_type),
            decreases src@.len(),
        {
            let ghost k = fields@.len() as int;
            let f = src.remove(0);
            assert(f == given[k]);
            assert(src@ =~= given.skip(k + 1));
            let g = SchemaField::new(f);
            let ghost before = fields@;
            fields.push(g);
            assert forall|i: int|
                0 <= i < fields@.len() implies #[trigger] fields@[i].field_type@ == type_label(given[i].field_type) by {
                if i < k {
                    assert(fields@[i] == before[i]);
                }
            }
        }
        Schema { id: param.id, internal_id: param.internal_id, fields }
    }

    /// The collection the schema records; a parse error when a field's type's name is not
    /// known.
    pub fn get_all_port_result_collection(self) -> (r: Result<GetAllPortResultCollection, VixError>)
        ensures
            match r {
                Ok(c) => {
                    &&& c.id == self.id
                    &&& c.internal_id == self.internal_id
                    &&& c.fields@.len() == self.fields@.len()
                    &&& forall|i: int|
                        0 <= i < c.fields@.len() ==> #[trigger] c.fields@[i].name == self.fields@[i].name
                            && type_named(self.fields@[i].field_type@) == Some(c.fields@[i].field_type)
                },
                Err(e) => (exists|i: int|
                    0 <= i < self.fields@.len() && type_named(#[trigger] self.fields@[i].field_type@) is None)
                    && e.code == Code::ParseError,
            },
    {
        let mut src = self.fields;
        let ghost given = src@;
        let mut fields: Vec<GetAllPortResultCollectionField> = Vec::new();
        while src.len() > 0
            invariant
                fields@.len() + src@.len() == given.len(),
                given == self.fields@,
                src@ == given.skip(fields@.len() as int),
                forall|i: int| 0 <= i < fields@.len() ==> #[trigger] fields@[i].name == given[i].name,
                forall|i: int|
                    0 <= i < fields@.len() ==> type_named(given[i].field_type@) == Some(#[trigger] fields@[i].field_type),
            decreases src@.len(),
        {
            let ghost k = fields@.len() as int;
            let f = src.remove(0);
            assert(f == given[k]);
            assert(src@ =~= given.skip(k + 1));
            match f.get_all_port_result_collection_field() {
                Ok(g) => fields.push(g),
                Err(e) => {
                    assert(type_named(self.fields@[k].field_type@) is None);
                    return Err(e);
                },
            }
        }
        Ok(GetAllPortResultCollection { id: self.id, internal_id: self.internal_id, fields })
    }
}

/// A framed file: the magic, the CRC-32 of the data, the data's length, the data.
pub open spec fn frame_bytes(magic: Seq<u8>, data: Seq<u8>) -> Seq<u8> {
    magic + le32(crc32(data)) + le64(data.len() as u64) + data
}

/// The data of a framed file: the bytes after the header that its length field counts.
pub open spec fn frame_data(buf: Seq<u8>) -> Seq<u8> {
    buf.subrange(16, 16 + u64_at(buf, 8))
}

/// A buffer holds a whole header and as many bytes after it as its length field counts.
pub open spec fn frame_complete(buf: Seq<u8>) -> bool {
    buf.len() >= 16 && u64_at(buf, 8) <= buf.len() - 16
}

/// A buffer holds a whole frame whose data passes the checksum.
pub open spec fn frame_ok(buf: Seq<u8>) -> bool {
    frame_complete(buf) && u32_at(buf, 4) == crc32(frame_data(buf))
}

/// Reads a frame: `None` where the header or the data is cut short, else the magic, the
/// stored checksum and the data.
fn read_frame(buf: &[u8]) -> (r: Option<(Vec<u8>, u32, Vec<u8>)>)
    ensures
        match r {
            Some((m, h, d)) => frame_complete(buf@) && m@ == buf@.subrange(0, 4) && h == u32_at(buf@, 4)
                && d@ == frame_data(buf@),
            None => !frame_complete(buf@),
        },
{
    let n = buf.len();
    if n < 16 {
        return None;
    }
    let len = read_u64(buf, 8);
    if len > (n - 16) as u64 {
        return None;
    }
    let data = copy_range(buf, 16, 16 + len as usize);
    Some((copy_range(buf, 0, 4), read_u32(buf, 4), data))
}

/// A frame read back holds the data that was framed, and passes its checksum.
pub proof fn lemma_frame_roundtrip(magic: Seq<u8>, data: Seq<u8>)
    requires
        magic.len() == 4,
        data.len() <= u64::MAX,
    ensures
        frame_ok(frame_bytes(magic, data)),
        frame_data(frame_bytes(magic, data)) == data,
        frame_bytes(magic, data).subrange(0, 4) == magic,
{
    lemma_le_roundtrip();
    let b = frame_bytes(magic, data);
    assert(b.subrange(0, 4) =~= magic);
    assert(b.subrange(4, 8) =~= le32(crc32(data)));
    assert(b.subrange(8, 16) =~= le64(data.len() as u64));
    assert(frame_data(b) =~= data);
}

/// A frame that passes its checksum fails it once any one byte of its data is changed:
/// the reader refuses a commit or schema file whose data was altered in one byte.
pub proof fn lemma_frame_detects_byte_change(buf: Seq<u8>, i: int, b: u8)
    requires
        frame_ok(buf),
        16 <= i < 16 + u64_at(buf, 8),
        b != buf[i],
    ensures
        !frame_ok(buf.update(i, b)),
{
    let nb = buf.update(i, b);
    assert(nb.subrange(8, 16) =~= buf.subrange(8, 16));
    assert(nb.subrange(4, 8) =~= buf.subrange(4, 8));
    assert(frame_data(nb) =~= frame_data(buf).update(i - 16, b));
    crate::checksum::lemma_crc32_detects_byte_change(frame_data(buf), i - 16, b);
}

/// `CMMT`
pub open spec fn commit_magic() -> Seq<u8> {
    seq![67u8, 77u8, 77u8, 84u8]
}

/// `SCMA`
pub open spec fn schema_magic() -> Seq<u8> {
    seq![83u8, 67u8, 77u8, 65u8]
}

/// The framed file of a commit.
#[derive(Debug)]
pub struct CommitBlock {
    magic: Vec<u8>,
    hash: u32,
    data: Vec<u8>,
}

impl CommitBlock {
    /// The magic.
    pub closed spec fn magic_view(&self) -> Seq<u8> {
        self.magic@
    }

    /// The checksum the block carries.
    pub closed spec fn hash_view(&self) -> u32 {
        self.hash
    }

    /// The commit's MessagePack bytes the block carries.
    pub closed spec fn data_view(&self) -> Seq<u8> {
        self.data@
    }

    /// The block of a commit, from the commit's MessagePack bytes.
    pub fn from_commit(commit_buf: Vec<u8>) -> (r: CommitBlock)
        ensures
            r.magic_view() == commit_magic(),
            r.hash_view() == crc32(commit_buf@),
            r.data_view() == commit_buf@,
    {
        let magic = vec![67u8, 77u8, 77u8, 84u8];
        assert(magic@ =~= commit_magic());
        let hash = crc32_hash(commit_buf.as_slice());
        CommitBlock { magic, hash, data: commit_buf }
    }

    /// Reads a commit file: a parse error when it is cut short or its data fails the
    /// checksum. The magic is not checked.
    pub fn from_buf(buf: Vec<u8>) -> (r: Result<CommitBlock, VixError>)
        ensures
            match r {
                Ok(b) => frame_ok(buf@) && b.magic_view() == buf@.subrange(0, 4) && b.hash_view()
                    == u32_at(buf@, 4) && b.data_view() == frame_data(buf@),
                Err(e) => !frame_ok(buf@) && e.code == Code::ParseError && (!frame_complete(buf@)
                    ==> e.message@ == "failed to decode commit buffer"@),
            },
    {
        let (magic, hash, data) = match read_frame(buf.as_slice()) {
            Some(x) => x,
            None => {
                return Err(VixError::new(Code::ParseError, "failed to decode commit buffer"));
            },
        };
        if hash != crc32_hash(data.as_slice()) {
            return Err(VixError::new(Code::ParseError, "invalid commit hash"));
        }
        Ok(CommitBlock { magic, hash, data })
    }

    /// The file's bytes.
    pub fn encode(self) -> (r: Vec<u8>)
        requires
            self.magic_view().len() == 4,
        ensures
            r@ == self.magic_view() + le32(self.hash_view()) + le64(self.data_view().len() as u64)
                + self.data_view(),
    {
        let mut buf = self.magic;
        append_u32(&mut buf, self.hash);
        append_u64(&mut buf, self.data.len() as u64);
        append_bytes(&mut buf, self.data.as_slice());
        buf
    }

    /// The commit's MessagePack bytes.
    pub fn into_data(self) -> (r: Vec<u8>)
        ensures
            r@ == self.data_view(),
    {
        self.data
    }
}

/// The framed file of a schema.
#[derive(Debug)]
pub struct SchemaBlock {
    magic: Vec<u8>,
    hash: u32,
    data: Vec<u8>,
}

impl SchemaBlock {
    /// The magic.
    pub closed spec fn magic_view(&self) -> Seq<u8> {
        self.magic@
    }

    /// The checksum the block carries.
    pub closed spec fn hash_view(&self) -> u32 {
        self.hash
    }

    /// The schema's MessagePack bytes the block carries.
    pub closed spec fn data_view(&self) -> Seq<u8> {
        self.data@
    }

    /// The block of a schema, from the schema's MessagePack bytes.
    pub fn from_create_port_param(schema_buf: Vec<u8>) -> (r: SchemaBlock)
        ensures
            r.magic_view() == schema_magic(),
            r.hash_view() == crc32(schema_buf@),
            r.data_view() == schema_buf@,
    {
        let magic = vec![83u8, 67u8, 77u8, 65u8];
        assert(magic@ =~= schema_magic());
        let hash = crc32_hash(schema_buf.as_slice());
        SchemaBlock { magic, hash, data: schema_buf }
    }

    /// Reads a schema file: a parse error when it is cut short or its data fails the
    /// checksum. The magic is not checked.
    pub fn from_buf(buf: Vec<u8>) -> (r: Result<SchemaBlock, VixError>)
        ensures
            match r {
                Ok(b) => frame_ok(buf@) && b.magic_view() == buf@.subrange(0, 4) && b.hash_view()
                    == u32_at(buf@, 4) && b.data_view() == frame_data(buf@),
                Err(e) => !frame_ok(buf@) && e.code == Code::ParseError && (!frame_complete(buf@)
                    ==> e.message@ == "failed to decode schema buffer"@),
            },
    {
        let (magic, hash, data) = match read_frame(buf.as_slice()) {
            Some(x) => x,
            None => {
                return Err(VixError::new(Code::ParseError, "failed to decode schema buffer"));
            },
        };
        if hash != crc32_hash(data.as_slice()) {
            return Err(VixError::new(Code::ParseError, "invalid schema hash"));
        }
        Ok(SchemaBlock { magic, hash, data })
    }

    /// The file's bytes.
    pub fn encode(self) -> (r: Vec<u8>)
        requires
            self.magic_view().len() == 4,
        ensures
            r@ == self.magic_view() + le32(self.hash_view()) + le64(self.data_view().len() as u64)
                + self.data_view(),
    {
        let mut buf = self.magic;
        append_u32(&mut buf, self.hash);
        append_u64(&mut buf, self.data.len() as u64);
        append_bytes(&mut buf, self.data.as_slice());
        buf
    }

    /// The schema's MessagePack bytes.
    pub fn into_data(self) -> (r: Vec<u8>)
        ensures
            r@ == self.data_view(),
    {
        self.data
    }
}

} // verus!
