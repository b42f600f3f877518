//! A named, persisted statement schema; an account references at most one
//! schema by id, and the schema owns the record mapping it applies.

use crate::record_mapping::RecordMapping;
use crate::ID;
use vstd::prelude::*;

verus! {

/// The editable content of a statement schema.
#[derive(Debug)]
pub struct StatementSchemaFields {
    pub name: String,
    pub record_mapping: RecordMapping,
}

/// A persisted statement schema.
#[derive(Debug)]
pub struct StatementSchema {
    pub id: ID,
    pub fields: StatementSchemaFields,
}

/// A list of persisted statement schemas.
#[derive(Debug)]
pub struct StatementSchemas {
    pub schemas: Vec<StatementSchema>,
}

} // verus!
