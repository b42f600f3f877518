//! The canonical expense record produced by statement import, and the
//! transient query shapes the import pipeline works with.

use crate::ID;
use vstd::prelude::*;

verus! {

/// A signed decimal amount of money, held in hundredths of the currency
/// unit so that equality and arithmetic are exact.
#[derive(Clone, Copy, Debug, PartialEq, Eq, Structural)]
pub struct Amount {
    pub cents: i64,
}

/// The fields of an expense as the import pipeline produces them; the
/// date is always normalized to the display zone, and `raw_csv` keeps the
/// original row joined with the private separator for audit.
#[derive(Debug, Clone, PartialEq)]
pub struct ExpenseFields {
    pub account_id: ID,
    pub transaction_date: String,
    pub transaction_time: Option<String>,
    pub description: String,
    pub amount: Amount,
    pub raw_csv: Option<String>,
}

/// The mutable categorization of a stored expense.
#[derive(Debug, Clone, PartialEq)]
pub struct ExpenseCategory {
    pub budget_item_id: Option<ID>,
}

/// A persisted expense record.
#[derive(Debug, Clone)]
pub struct Expense {
    pub id: ID,
    pub fields: ExpenseFields,
    pub category: ExpenseCategory,
}

/// A list of persisted expenses.
#[derive(Debug, Clone)]
pub struct Expenses {
    pub expenses: Vec<Expense>,
}

/// The most recent transaction date stored for an account together with
/// every stored expense on that date; the deduplication input.
pub struct LatestExpenses {
    pub date: String,
    pub transactions: Vec<Expense>,
}

/// The view of an optional string as an optional character sequence.
pub open spec fn opt_str_view(o: Option<String>) -> Option<Seq<char>> {
    match o {
        Option::None => Option::None,
        Option::Some(s) => Option::Some(s@),
    }
}

/// Two records describe the same transaction when date, time, description
/// and amount all agree; identity, account and categorization are ignored.
pub open spec fn spec_is_duplicate(new: ExpenseFields, old: ExpenseFields) -> bool {
    &&& new.transaction_date@ == old.transaction_date@
    &&& opt_str_view(new.transaction_time) == opt_str_view(old.transaction_time)
    &&& new.description@ == old.description@
    &&& new.amount == old.amount
}

/// Whether a freshly parsed record duplicates a stored one.
pub fn is_duplicate(new: &ExpenseFields, old: &ExpenseFields) -> (r: bool)
    ensures
        r == spec_is_duplicate(*new, *old),
{
    if !new.transaction_date.eq(&old.transaction_date) {
        return false;
    }
    let time_eq: bool = match (&new.transaction_time, &old.transaction_time) {
        (Option::None, Option::None) => true,
        (Option::Some(a), Option::Some(b)) => a.eq(b),
        _ => false,
    };
    if !time_eq {
        return false;
    }
    if !new.description.eq(&old.description) {
        return false;
    }
    new.amount.cents == old.amount.cents
}

} // verus!
