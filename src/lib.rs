//! Ingestion and querying of access-log records: the record model, the
//! headerless CSV codec, an in-memory record store, and the planning of
//! column-oriented batch inserts for a relational store.

pub mod instant;
pub mod records;
pub mod codec;
pub mod store;
pub mod batch;
pub mod cli;
pub mod ingest;
