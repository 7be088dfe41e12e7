use vstd::prelude::*;

pub mod catalog;
pub mod catalog_adapter;
pub mod checksum;
pub mod codec;
pub mod collection;
pub mod collection_manager;
pub mod collection_service;
pub mod collections;
pub mod defaults;
pub mod document;
pub mod document_lookup;
pub mod document_service;
pub mod engine;
pub mod error;
pub mod fieldmap;
pub mod fresh;
pub mod identifier;
pub mod index;
pub mod index_manager;
pub mod index_segment;
pub mod index_segment_law;
pub mod layered;
pub mod lookup;
pub mod lsm;
pub mod lsm_adapter;
pub mod lsm_store;
pub mod msgpack;
pub mod orchestrator;
pub mod query;
pub mod query_service;
pub mod segment;
pub mod segment_law;
pub mod sorting;
pub mod text;
pub mod translog;
