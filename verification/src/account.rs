//! The account: the ledger's only entity.

use vstd::prelude::*;

verus! {

/// One account as the ledger hands it out.
#[derive(Debug)]
pub struct Account {
    /// Assigned by the ledger when the account is opened; never reused.
    pub id: u64,
    /// The public handle by which every operation names the account.
    pub account_number: String,
    /// Funds held, in the smallest currency unit.
    pub balance: u64,
    /// The shared secret that authorises changes to the account.
    pub pin: String,
}

/// What an account is, mathematically.
pub struct AccountRecord {
    pub id: nat,
    pub account_number: Seq<char>,
    pub balance: nat,
    pub pin: Seq<char>,
}

impl View for Account {
    type V = AccountRecord;

    open spec fn view(&self) -> AccountRecord {
        AccountRecord {
            id: self.id as nat,
            account_number: self.account_number@,
            balance: self.balance as nat,
            pin: self.pin@,
        }
    }
}

impl AccountRecord {
    /// This record with another balance.
    pub open spec fn with_balance(self, balance: nat) -> AccountRecord {
        AccountRecord { balance, ..self }
    }
}

impl Account {
    /// A second value with the same contents.
    pub fn duplicate(&self) -> (copy: Account)
        ensures
            copy@ == self@,
    {
        Account {
            id: self.id,
            account_number: self.account_number.clone(),
            balance: self.balance,
            pin: self.pin.clone(),
        }
    }
}

} // verus!
