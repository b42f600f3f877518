//! An older name for a persisted record mapping: a statement import
//! configuration that an account can point at.

use crate::record_mapping::RecordMapping;
use crate::ID;
use vstd::prelude::*;

verus! {

/// The editable content of a statement import configuration.
#[derive(Debug)]
pub struct StatementImportConfigFields {
    pub name: String,
    pub record_mapping: RecordMapping,
}

/// A persisted statement import configuration.
#[derive(Debug)]
pub struct StatementImportConfig {
    pub id: ID,
    pub fields: StatementImportConfigFields,
}

} // verus!
