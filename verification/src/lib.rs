//! A personal finance tracker's verified core: the statement import
//! engine. A per-account schema maps arbitrary tabular exports (differing
//! column layouts, timezones and amount encodings) into canonical expense
//! records, and a deduplication pass makes repeated imports of overlapping
//! date ranges idempotent. The surrounding HTTP routes, storage and
//! password hashing are external collaborators and live outside the
//! library.

pub mod account;
pub mod budget;
pub mod credentials;
pub mod crypto;
pub mod datetime;
pub mod error;
pub mod fairings;
pub mod expense;
pub mod import;
pub mod record_mapping;
pub mod schema_test;
pub mod statement_import_config;
pub mod statement_schema;
pub mod text;
pub mod write_log;

use vstd::prelude::*;

verus! {

/// Primary keys of persisted records.
pub type ID = i32;

} // verus!
