//! Accounts: the owners of imported expenses. An account may point at one
//! statement import configuration that its uploads are parsed with.

use crate::ID;
use vstd::prelude::*;

verus! {

/// The kind of an account, which decides how its statements usually look.
#[derive(Debug)]
pub enum AccountClass {
    Bank,
    CreditCard,
    Shop,
}

/// The editable content of an account.
#[derive(Debug)]
pub struct AccountFields {
    pub name: String,
    pub class: AccountClass,
    pub statement_import_config_id: Option<ID>,
}

/// A persisted account.
#[derive(Debug)]
pub struct Account {
    pub id: ID,
    pub fields: AccountFields,
}

/// A list of persisted accounts.
#[derive(Debug)]
pub struct Accounts {
    pub accounts: Vec<Account>,
}

} // verus!
