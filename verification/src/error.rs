//! The kinds of failure that a ledger operation reports.

use vstd::prelude::*;

verus! {

/// Why a ledger operation did not take place. A failed operation leaves the
/// ledger as it was.
#[derive(Clone, Copy, Debug, PartialEq, Eq, Structural)]
pub enum LedgerError {
    /// No account has the given account number.
    NotFound,
    /// The account number is already in use.
    DuplicateAccount,
    /// The supplied PIN is not the account's PIN.
    InvalidCredentials,
    /// The amount is not a decimal number, or is zero where a positive amount
    /// is asked for.
    InvalidAmount,
    /// The amount is larger than the balance it would be taken from.
    InsufficientFunds,
    /// A transfer names the same account as origin and target.
    SameAccount,
    /// The new balance would not fit the balance's range.
    Overflow,
    /// The store cannot serve the request.
    StoreUnavailable,
    /// None of the account numbers on offer was free.
    GenerationExhausted,
}

impl LedgerError {
    /// What the caller of a PIN-guarded operation may be told. A missing
    /// account is told as a wrong PIN, so that the answer does not give away
    /// which account numbers exist; every other kind is told as it is.
    pub fn disclosed(self) -> (told: LedgerError)
        ensures
            told == if self == LedgerError::NotFound {
                LedgerError::InvalidCredentials
            } else {
                self
            },
    {
        match self {
            LedgerError::NotFound => LedgerError::InvalidCredentials,
            other => other,
        }
    }
}

} // verus!
