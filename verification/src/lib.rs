//! Verified core of a balance tracker for a live chain: the shared balance
//! index, the block history, address validation, and the decisions that the
//! ingestion pipeline and the query gateway take around their I/O.

pub mod address;
pub mod balances;
pub mod blocks;
pub mod gateway;
pub mod ingest;
pub mod persistence;
pub mod url;
