//! The schema test harness: applies a schema to one pasted sample row,
//! without touching storage, so a schema edit can be tried before saving.

use crate::expense::ExpenseFields;
use crate::import::{csv_rows, parse_csv_rows, row_maps_to};
use crate::record_mapping::{
    mapping_columns_ok, spec_amount_outcome, spec_mapping_error_ok, ImportResult,
};
use crate::statement_schema::StatementSchemaFields;
use vstd::prelude::*;

verus! {

/// A schema under edit together with one sample row of raw text.
#[derive(Debug)]
pub struct TestSchemaRequest {
    pub schema: StatementSchemaFields,
    pub row: String,
}

/// How the trial application of the schema ended.
#[derive(Debug)]
pub enum TestSchemaResult {
    Skip,
    Error,
    Success,
}

/// The outcome of a schema trial: on success the mapped expense, on
/// failure a message for the schema author.
#[derive(Debug)]
pub struct TestSchemaResponse {
    pub result: TestSchemaResult,
    pub error: Option<String>,
    pub expense: Option<ExpenseFields>,
}

impl TestSchemaRequest {
    /// Parses the sample text as one tabular row and applies the schema's
    /// record mapping to it with a placeholder account id of zero. Text
    /// that is not tabular data, or yields no row, is an error naming that
    /// cause; an extraction failure is reported with the mapping's own
    /// message, a skip as a skip; on success the response carries exactly
    /// the record the import pipeline would produce.
    pub fn process(&self) -> (r: TestSchemaResponse)
        ensures
            r.result is Success <==> r.expense is Some,
            r.result is Error <==> r.error is Some,
            csv_rows(self.row@) is None ==> (r.error matches Some(m) && m@
                == "Failed to create csv record from provided row, check your input data."@),
            csv_rows(self.row@) is Some && csv_rows(self.row@)->Some_0.len() == 0 ==> (
            r.error matches Some(m) && m@
                == "Csv created from given input has no rows, check your input data."@),
            r.result is Error && csv_rows(self.row@) is Some && csv_rows(self.row@)->Some_0.len()
                > 0 ==> (r.error matches Some(m) && spec_mapping_error_ok(
                self.schema.record_mapping,
                csv_rows(self.row@)->Some_0[0],
                m@,
            )),
            r.expense matches Some(exp) ==> {
                &&& csv_rows(self.row@) matches Some(rows)
                &&& rows.len() > 0
                &&& row_maps_to(self.schema.record_mapping, rows[0], 0, exp)
            },
            r.result is Skip ==> {
                &&& csv_rows(self.row@) matches Some(rows)
                &&& rows.len() > 0
                &&& mapping_columns_ok(self.schema.record_mapping, rows[0])
                &&& spec_amount_outcome(self.schema.record_mapping.amount, rows[0]) is SkipRow
            },
    {
        let rows: Vec<Vec<String>> = match parse_csv_rows(self.row.as_str()) {
            Ok(value) => value,
            Err(_) => {
                return TestSchemaResponse {
                    result: TestSchemaResult::Error,
                    error: Some(
                        String::from_str(
                            "Failed to create csv record from provided row, check your input data.",
                        ),
                    ),
                    expense: None,
                };
            },
        };
        if rows.len() == 0 {
            return TestSchemaResponse {
                result: TestSchemaResult::Error,
                error: Some(
                    String::from_str(
                        "Csv created from given input has no rows, check your input data.",
                    ),
                ),
                expense: None,
            };
        }
        let dummy_account_id: crate::ID = 0;
        proof {
            assert(rows.deep_view()[0] == rows@[0].deep_view());
        }
        match self.schema.record_mapping.record_to_expense(&rows[0], dummy_account_id) {
            Ok(expense) => TestSchemaResponse {
                result: TestSchemaResult::Success,
                error: None,
                expense: Some(expense),
            },
            Err(ImportResult::Skip) => TestSchemaResponse {
                result: TestSchemaResult::Skip,
                error: None,
                expense: None,
            },
            Err(ImportResult::Error { message }) => TestSchemaResponse {
                result: TestSchemaResult::Error,
                error: Some(message),
                expense: None,
            },
        }
    }
}

} // verus!
