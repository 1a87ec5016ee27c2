//! Verified core of an embedded video-download history store.
//!
//! The library models the two-table store (parent records and their
//! downloadable variants) together with every operation the storage engine
//! offers: single and bulk insertion, fetch by id, cursor-based chunked
//! fetches in both directions, and deletion. Each operation carries a
//! contract that pins down its effect on the table state; the asynchronous
//! binding that mirrors these operations onto an embedded SQL engine lives
//! outside the verified core.

pub mod database;
pub mod video;
