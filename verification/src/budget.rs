//! Budget categories: the yearly grouping that expenses are filed under.

use crate::ID;
use vstd::prelude::*;

verus! {

/// The editable content of a budget category; the year is fixed at
/// creation and never mutated afterwards.
#[derive(Debug)]
pub struct BudgetCategoryFields {
    pub name: String,
    pub ignored: bool,
    pub year: i32,
}

/// A persisted budget category.
#[derive(Debug)]
pub struct BudgetCategory {
    pub id: ID,
    pub fields: BudgetCategoryFields,
}

} // verus!
