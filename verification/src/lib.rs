//! An embedded, in-memory-modelled persistence engine: each record type is
//! kept as one whole-table blob, keyed by a content-derived schema
//! fingerprint, with a binary framed codec and a typed query layer for
//! filtering and rewriting stored rows.

pub mod byte_reader;
pub mod db;
pub mod entity;
pub mod entity_meta;
pub mod gen_query;
pub mod id;
pub mod laws;
pub mod query;
pub mod sample;
pub mod sha;
pub mod storable;
pub mod type_hash;
