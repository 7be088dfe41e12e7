use vix::catalog::{
    latest_number, next_commit_number, schema_store_name, Commit, CommitBlock, GetLatestCommitResult, Schema,
    SchemaBlock, SchemaField,
};
use vix::collection::{CreatePortParam, CreatePortParamField};
use vix::document::ValueType;
use vix::error::Code;
use vix::lsm_store::{commit_content, latest_commit_name, name, store};

fn names(v: &[&str]) -> Vec<String> {
    v.iter().map(|s| s.to_string()).collect()
}

#[test]
fn next_commit_number_starts_at_one() {
    assert_eq!(next_commit_number(&names(&[])), 1);
    assert_eq!(next_commit_number(&names(&["schema_x", "commit_bad"])), 1);
}

#[test]
fn next_commit_number_follows_last_numbered_commit() {
    let n = names(&["commit_0000000000000001", "commit_00000000000000ff", "commit_garbage"]);
    assert_eq!(next_commit_number(&n), 0x100);
    assert_eq!(latest_number(&n), Some(0xff));
    let n = names(&["commit_000000000000000A"]);
    assert_eq!(next_commit_number(&n), 11);
}

#[test]
fn commit_name_read_back_gives_next_number() {
    let c = Commit { commit_number: 41, collection_internal_ids: vec![] };
    assert_eq!(c.name(), "commit_0000000000000029");
    let n = vec!["commit_0000000000000001".to_string(), c.name()];
    assert_eq!(next_commit_number(&n), 42);
    let n = vec![c.name(), "commit_tmp".to_string(), "schema_0000000000000001".to_string()];
    assert_eq!(next_commit_number(&n), 42);
}

#[test]
fn add_collection_appends_to_latest() {
    let latest = Commit { commit_number: 3, collection_internal_ids: vec!["a".to_string()] };
    let c = Commit::add_collection("b", GetLatestCommitResult::new(4, Some(latest)));
    assert_eq!(c.commit_number, 4);
    assert_eq!(c.collection_internal_ids, vec!["a".to_string(), "b".to_string()]);
    let c = Commit::add_collection("b", GetLatestCommitResult::new(1, None));
    assert_eq!(c.collection_internal_ids, vec!["b".to_string()]);
}

#[test]
fn delete_collection_drops_every_copy() {
    let latest = Commit { commit_number: 3, collection_internal_ids: names(&["a", "b", "a", "c"]) };
    let c = Commit::delete_collection("a", GetLatestCommitResult::new(4, Some(latest))).unwrap();
    assert_eq!(c.commit_number, 4);
    assert_eq!(c.collection_internal_ids, names(&["b", "c"]));
    assert!(Commit::delete_collection("a", GetLatestCommitResult::new(1, None)).is_none());
}

#[test]
fn schema_file_location() {
    let (s, n) = schema_store_name("abc");
    assert_eq!(s, "collection/abc/schema");
    assert_eq!(n, "schema_0000000000000001");
}

#[test]
fn commit_block_frames_data_with_checksum() {
    let data = vec![1u8, 2, 3];
    let buf = CommitBlock::from_commit(data.clone()).encode();
    assert_eq!(&buf[0..4], b"CMMT");
    assert_eq!(&buf[4..8], &crc32fast::hash(&data).to_le_bytes());
    assert_eq!(&buf[8..16], &3u64.to_le_bytes());
    assert_eq!(&buf[16..], &data[..]);
    let back = CommitBlock::from_buf(buf).unwrap();
    assert_eq!(back.into_data(), data);
}

#[test]
fn commit_block_rejects_short_and_corrupt_buffers() {
    let e = CommitBlock::from_buf(vec![0u8; 10]).unwrap_err();
    assert_eq!(e.code, Code::ParseError);
    assert_eq!(e.message, "failed to decode commit buffer");
    let mut buf = CommitBlock::from_commit(vec![9u8, 9]).encode();
    buf[17] ^= 1;
    let e = CommitBlock::from_buf(buf).unwrap_err();
    assert_eq!(e.code, Code::ParseError);
    assert_eq!(e.message, "invalid commit hash");
    let mut buf = CommitBlock::from_commit(vec![9u8, 9]).encode();
    buf[8] = 200;
    assert_eq!(CommitBlock::from_buf(buf).unwrap_err().message, "failed to decode commit buffer");
}

#[test]
fn schema_block_roundtrip() {
    let data = b"schema-bytes".to_vec();
    let buf = SchemaBlock::from_create_port_param(data.clone()).encode();
    assert_eq!(&buf[0..4], b"SCMA");
    assert_eq!(SchemaBlock::from_buf(buf).unwrap().into_data(), data);
    assert_eq!(SchemaBlock::from_buf(vec![]).unwrap_err().message, "failed to decode schema buffer");
}

#[test]
fn schema_records_type_names_and_reads_them_back() {
    let p = CreatePortParam {
        id: "books".to_string(),
        internal_id: "i1".to_string(),
        fields: vec![
            CreatePortParamField { name: "title".to_string(), field_type: ValueType::String },
            CreatePortParamField { name: "year".to_string(), field_type: ValueType::Int64 },
        ],
    };
    let s = Schema::new(p);
    assert_eq!(s.fields[0].field_type, "string");
    assert_eq!(s.fields[1].field_type, "int64");
    let c = s.get_all_port_result_collection().unwrap();
    assert_eq!(c.internal_id, "i1");
    assert_eq!(c.fields[1].field_type, ValueType::Int64);
    let bad = Schema {
        id: "x".to_string(),
        internal_id: "y".to_string(),
        fields: vec![SchemaField { name: "f".to_string(), field_type: "float".to_string() }],
    };
    assert_eq!(bad.get_all_port_result_collection().unwrap_err().code, Code::ParseError);
}

#[test]
fn engine_store_and_segment_names() {
    assert_eq!(store("c1"), "collection/c1/document");
    assert_eq!(name("s1"), "log_s1");
}

#[test]
fn latest_commit_name_is_greatest_commit() {
    let n = names(&["commit_b", "log_x", "commit_a", "commit_ab"]);
    assert_eq!(latest_commit_name(&n), Some("commit_b".to_string()));
    assert_eq!(latest_commit_name(&names(&["log_x"])), None);
}

#[test]
fn commit_content_checks_leading_checksum() {
    let content = b"payload".to_vec();
    let mut buf = crc32fast::hash(&content).to_le_bytes().to_vec();
    buf.extend_from_slice(&content);
    assert_eq!(commit_content(&buf).unwrap(), content);
    buf[0] ^= 1;
    assert_eq!(commit_content(&buf).unwrap_err().code, Code::FatalError);
}

#[test]
fn frame_refuses_any_changed_data_byte() {
    let data = vec![1u8, 2, 3, 4, 5, 6, 7, 8, 9];
    let buf = CommitBlock::from_commit(data.clone()).encode();
    for i in 16..buf.len() {
        let mut changed = buf.clone();
        changed[i] ^= 0x40;
        assert_eq!(CommitBlock::from_buf(changed).unwrap_err().code, Code::ParseError);
    }
}
