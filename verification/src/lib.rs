//! A minimal account ledger: accounts identified by an account number, guarded
//! by a PIN, holding a non-negative balance in the smallest currency unit.
//!
//! Every operation is stated over the ledger's view, a map from account number
//! to account record, and proved against it.

pub mod account;
pub mod amount;
pub mod error;
pub mod laws;
pub mod ledger;
pub mod operations;
pub mod pin;

pub use account::{Account, AccountRecord};
pub use amount::parse_amount;
pub use error::LedgerError;
pub use ledger::Ledger;
pub use operations::{
    create_account, delete_account, deposit, fetch_account, open_with_pin, show_balance, transfer,
    withdraw,
};
pub use pin::{generate_pin, pin_from_digits, verify};
