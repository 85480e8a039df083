//! The ledger's operations: opening an account, moving money, reading a
//! balance, closing an account.
//!
//! Each operation has a spec function that gives its answer on a given book
//! (the ledger's view), and its contract says that it returns that answer and
//! what book it leaves.

use vstd::prelude::*;

use crate::account::{Account, AccountRecord};
use crate::amount::{amount_value, parse_amount};
use crate::error::LedgerError;
use crate::ledger::Ledger;
use crate::pin::{generate_pin, is_pin, verify};

verus! {

/// The accounts by account number.
pub type Book = Map<Seq<char>, AccountRecord>;

/// What a deposit answers: the new balance, or why there is none. The amount
/// is judged before the account is looked at.
pub open spec fn deposit_result(
    book: Book,
    amount: Seq<char>,
    pin: Seq<char>,
    account_number: Seq<char>,
) -> Result<u64, LedgerError> {
    match amount_value(amount) {
        None => Err(LedgerError::InvalidAmount),
        Some(value) => if !book.contains_key(account_number) {
            Err(LedgerError::NotFound)
        } else if book[account_number].pin != pin {
            Err(LedgerError::InvalidCredentials)
        } else if book[account_number].balance + value > u64::MAX {
            Err(LedgerError::Overflow)
        } else {
            Ok((book[account_number].balance + value) as u64)
        },
    }
}

/// What a withdrawal answers: the new balance, or why there is none. The
/// account and the PIN are judged before the amount.
pub open spec fn withdraw_result(
    book: Book,
    amount: Seq<char>,
    pin: Seq<char>,
    account_number: Seq<char>,
) -> Result<u64, LedgerError> {
    if !book.contains_key(account_number) {
        Err(LedgerError::NotFound)
    } else if book[account_number].pin != pin {
        Err(LedgerError::InvalidCredentials)
    } else {
        match amount_value(amount) {
            None => Err(LedgerError::InvalidAmount),
            Some(value) => if value > book[account_number].balance {
                Err(LedgerError::InsufficientFunds)
            } else {
                Ok((book[account_number].balance - value) as u64)
            },
        }
    }
}

/// The book after a deposit or a withdrawal that answered `result`.
pub open spec fn book_after_balance_change(
    book: Book,
    account_number: Seq<char>,
    result: Result<u64, LedgerError>,
) -> Book {
    match result {
        Ok(balance) => book.insert(
            account_number,
            book[account_number].with_balance(balance as nat),
        ),
        Err(_) => book,
    }
}

/// What a transfer answers: the origin and the target as they stand
/// afterwards, or why nothing moved. The checks come in this order: the two
/// account numbers differ, both accounts exist, the PIN is the origin's, the
/// amount is a positive number, the origin holds it, the target has room for
/// it.
pub open spec fn transfer_result(
    book: Book,
    amount: Seq<char>,
    pin: Seq<char>,
    origin: Seq<char>,
    target: Seq<char>,
) -> Result<(AccountRecord, AccountRecord), LedgerError> {
    if origin == target {
        Err(LedgerError::SameAccount)
    } else if !book.contains_key(origin) || !book.contains_key(target) {
        Err(LedgerError::NotFound)
    } else if book[origin].pin != pin {
        Err(LedgerError::InvalidCredentials)
    } else {
        match amount_value(amount) {
            None => Err(LedgerError::InvalidAmount),
            Some(value) => if value == 0 {
                Err(LedgerError::InvalidAmount)
            } else if value > book[origin].balance {
                Err(LedgerError::InsufficientFunds)
            } else if book[target].balance + value > u64::MAX {
                Err(LedgerError::Overflow)
            } else {
                Ok(
                    (
                        book[origin].with_balance((book[origin].balance - value) as nat),
                        book[target].with_balance((book[target].balance + value) as nat),
                    ),
                )
            },
        }
    }
}

/// The book after a transfer that answered `result`.
pub open spec fn book_after_transfer(
    book: Book,
    origin: Seq<char>,
    target: Seq<char>,
    result: Result<(AccountRecord, AccountRecord), LedgerError>,
) -> Book {
    match result {
        Ok((origin_after, target_after)) => book.insert(origin, origin_after).insert(
            target,
            target_after,
        ),
        Err(_) => book,
    }
}

/// What closing an account answers.
pub open spec fn delete_result(book: Book, account_number: Seq<char>, pin: Seq<char>) -> Result<
    (),
    LedgerError,
> {
    if !book.contains_key(account_number) {
        Err(LedgerError::NotFound)
    } else if book[account_number].pin != pin {
        Err(LedgerError::InvalidCredentials)
    } else {
        Ok(())
    }
}

/// What reading a balance answers.
pub open spec fn balance_result(book: Book, account_number: Seq<char>) -> Result<u64, LedgerError> {
    if book.contains_key(account_number) {
        Ok(book[account_number].balance as u64)
    } else {
        Err(LedgerError::NotFound)
    }
}

/// The place of the first candidate that is free in `book`; the number of
/// candidates if none is.
pub open spec fn first_free(book: Book, candidates: Seq<String>) -> int
    decreases candidates.len(),
{
    if candidates.len() == 0 {
        0
    } else if !book.contains_key(candidates[0]@) {
        0
    } else {
        1 + first_free(book, candidates.subrange(1, candidates.len() as int))
    }
}

/// `first_free` is the least place of a free candidate.
pub proof fn lemma_first_free(book: Book, candidates: Seq<String>)
    ensures
        0 <= first_free(book, candidates) <= candidates.len(),
        forall|j: int|
            0 <= j < first_free(book, candidates) ==> book.contains_key(
                (#[trigger] candidates[j])@,
            ),
        first_free(book, candidates) < candidates.len() ==> !book.contains_key(
            candidates[first_free(book, candidates)]@,
        ),
    decreases candidates.len(),
{
    if candidates.len() > 0 && book.contains_key(candidates[0]@) {
        let rest = candidates.subrange(1, candidates.len() as int);
        lemma_first_free(book, rest);
        assert forall|j: int| 0 <= j < first_free(book, candidates) implies book.contains_key(
            (#[trigger] candidates[j])@,
        ) by {
            if j > 0 {
                assert(candidates[j] == rest[j - 1]);
            }
        }
    }
}

/// Opens an account under the given account number with the given balance
/// and a freshly drawn PIN.
///
/// Succeeds exactly when the number is free and the ledger has an id left.
/// The account that is returned is the one the ledger now holds; this is the
/// only time its PIN is handed out. Fails with `DuplicateAccount` when the
/// number is in use, else with `StoreUnavailable` when no id is left.
pub fn create_account(ledger: &mut Ledger, data: &str, balance: u64) -> (result: Result<
    Account,
    LedgerError,
>)
    requires
        old(ledger).wf(),
    ensures
        final(ledger).wf(),
        result is Ok <==> !old(ledger)@.contains_key(data@) && old(ledger).issued() < u64::MAX,
        match result {
            Ok(account) => {
                &&& account@.account_number == data@
                &&& account@.balance == balance
                &&& account@.id == old(ledger).issued() + 1
                &&& is_pin(account@.pin)
                &&& final(ledger).issued() == account@.id
                &&& final(ledger)@ == old(ledger)@.insert(data@, account@)
                &&& final(ledger).total() == old(ledger).total() + balance
            },
            Err(e) => {
                &&& *final(ledger) == *old(ledger)
                &&& e == if old(ledger)@.contains_key(data@) {
                    LedgerError::DuplicateAccount
                } else {
                    LedgerError::StoreUnavailable
                }
            },
        },
{
    let pin = generate_pin();
    open_with_pin(ledger, data, pin, balance)
}

/// Opens an account under the given account number with the given PIN and
/// balance.
///
/// Succeeds exactly when the number is free and the ledger has an id left;
/// the account returned is the one the ledger now holds. Fails with
/// `DuplicateAccount` when the number is in use, else with `StoreUnavailable`
/// when no id is left.
pub fn open_with_pin(ledger: &mut Ledger, data: &str, pin: String, balance: u64) -> (result:
    Result<Account, LedgerError>)
    requires
        old(ledger).wf(),
    ensures
        final(ledger).wf(),
        result is Ok <==> !old(ledger)@.contains_key(data@) && old(ledger).issued() < u64::MAX,
        match result {
            Ok(account) => {
                &&& account@ == AccountRecord {
                    id: old(ledger).issued() + 1,
                    account_number: data@,
                    balance: balance as nat,
                    pin: pin@,
                }
                &&& final(ledger).issued() == account@.id
                &&& final(ledger)@ == old(ledger)@.insert(data@, account@)
                &&& final(ledger).total() == old(ledger).total() + balance
            },
            Err(e) => {
                &&& *final(ledger) == *old(ledger)
                &&& e == if old(ledger)@.contains_key(data@) {
                    LedgerError::DuplicateAccount
                } else {
                    LedgerError::StoreUnavailable
                }
            },
        },
{
    match ledger.insert(data, pin.as_str(), balance) {
        Ok(id) => Ok(Account { id, account_number: data.to_owned(), balance, pin }),
        Err(e) => Err(e),
    }
}

impl Account {
    /// Opens an account with balance zero under the first of `candidates`
    /// that is free.
    ///
    /// Fails with `GenerationExhausted` exactly when no candidate is free,
    /// which includes the case that there is none at all, and with
    /// `StoreUnavailable` when one is free but the ledger has no id left.
    pub fn new(ledger: &mut Ledger, candidates: &Vec<String>) -> (result: Result<
        Account,
        LedgerError,
    >)
        requires
            old(ledger).wf(),
        ensures
            final(ledger).wf(),
            result is Ok <==> first_free(old(ledger)@, candidates@) < candidates@.len() && old(
                ledger,
            ).issued() < u64::MAX,
            match result {
                Ok(account) => {
                    &&& account@.account_number == candidates@[first_free(
                        old(ledger)@,
                        candidates@,
                    )]@
                    &&& account@.balance == 0
                    &&& account@.id == old(ledger).issued() + 1
                    &&& is_pin(account@.pin)
                    &&& final(ledger).issued() == account@.id
                    &&& final(ledger)@ == old(ledger)@.insert(account@.account_number, account@)
                    &&& final(ledger).total() == old(ledger).total()
                },
                Err(e) => {
                    &&& *final(ledger) == *old(ledger)
                    &&& e == if first_free(old(ledger)@, candidates@) < candidates@.len() {
                        LedgerError::StoreUnavailable
                    } else {
                        LedgerError::GenerationExhausted
                    }
                },
            },
    {
        let mut i: usize = 0;
        while i < candidates.len()
            invariant
                i <= candidates@.len(),
                ledger.wf(),
                *ledger == *old(ledger),
                forall|j: int| 0 <= j < i ==> ledger@.contains_key((#[trigger] candidates@[j])@),
            decreases candidates@.len() - i,
        {
            if !ledger.contains(candidates[i].as_str()) {
                proof {
                    lemma_first_free(ledger@, candidates@);
                }
                return create_account(ledger, candidates[i].as_str(), 0);
            }
            i = i + 1;
        }
        proof {
            lemma_first_free(ledger@, candidates@);
        }
        Err(LedgerError::GenerationExhausted)
    }
}

/// Adds `amount` to the balance of an account, given the account's PIN.
///
/// Returns the new balance. Fails, leaving the ledger as it was, with
/// `InvalidAmount` when `amount` is no decimal number, `NotFound` when there
/// is no such account, `InvalidCredentials` when the PIN is wrong, and
/// `Overflow` when the new balance would not fit, judged in this order.
pub fn deposit(ledger: &mut Ledger, amount: &str, pin: &str, account_number: &str) -> (result:
    Result<u64, LedgerError>)
    requires
        old(ledger).wf(),
    ensures
        final(ledger).wf(),
        final(ledger).issued() == old(ledger).issued(),
        result == deposit_result(old(ledger)@, amount@, pin@, account_number@),
        final(ledger)@ == book_after_balance_change(old(ledger)@, account_number@, result),
        result is Err ==> *final(ledger) == *old(ledger),
        result is Ok ==> final(ledger).total() == old(ledger).total() + amount_value(
            amount@,
        ).unwrap(),
{
    let value = match parse_amount(amount) {
        Ok(value) => value,
        Err(e) => {
            return Err(e);
        },
    };
    let account = match ledger.get(account_number) {
        Ok(account) => account,
        Err(e) => {
            return Err(e);
        },
    };
    if !verify(&account, pin) {
        return Err(LedgerError::InvalidCredentials);
    }
    if value > u64::MAX - account.balance {
        return Err(LedgerError::Overflow);
    }
    let new_balance: u64 = account.balance + value;
    match ledger.update_balance(account_number, new_balance) {
        Ok(()) => Ok(new_balance),
        Err(e) => Err(e),
    }
}

/// Takes `amount` from the balance of an account, given the account's PIN.
///
/// Returns the new balance. Fails, leaving the ledger as it was, with
/// `NotFound` when there is no such account, `InvalidCredentials` when the
/// PIN is wrong, `InvalidAmount` when `amount` is no decimal number, and
/// `InsufficientFunds` when it is more than the balance, judged in this
/// order.
pub fn withdraw(ledger: &mut Ledger, amount: &str, pin: &str, account_number: &str) -> (result:
    Result<u64, LedgerError>)
    requires
        old(ledger).wf(),
    ensures
        final(ledger).wf(),
        final(ledger).issued() == old(ledger).issued(),
        result == withdraw_result(old(ledger)@, amount@, pin@, account_number@),
        final(ledger)@ == book_after_balance_change(old(ledger)@, account_number@, result),
        result is Err ==> *final(ledger) == *old(ledger),
        result is Ok ==> final(ledger).total() + amount_value(amount@).unwrap() == old(
            ledger,
        ).total(),
{
    let account = match ledger.get(account_number) {
        Ok(account) => account,
        Err(e) => {
            return Err(e);
        },
    };
    if !verify(&account, pin) {
        return Err(LedgerError::InvalidCredentials);
    }
    let value = match parse_amount(amount) {
        Ok(value) => value,
        Err(e) => {
            return Err(e);
        },
    };
    if value > account.balance {
        return Err(LedgerError::InsufficientFunds);
    }
    let new_balance: u64 = account.balance - value;
    match ledger.update_balance(account_number, new_balance) {
        Ok(()) => Ok(new_balance),
        Err(e) => Err(e),
    }
}

/// Moves `amount` from the origin account to the target account, given the
/// origin's PIN.
///
/// Returns both accounts as they stand afterwards. The debit and the credit
/// are one unit of work: on success both are in the ledger, and on every
/// failure the ledger is as it was. Fails with `SameAccount` when origin and
/// target are the same number, `NotFound` when either account is missing,
/// `InvalidCredentials` when the PIN is not the origin's, `InvalidAmount`
/// when `amount` is no positive decimal number, `InsufficientFunds` when the
/// origin holds less, and `Overflow` when the target's balance would not
/// fit, judged in this order.
pub fn transfer(
    ledger: &mut Ledger,
    amount: &str,
    pin: &str,
    origin_account: &str,
    target_account: &str,
) -> (result: Result<(Account, Account), LedgerError>)
    requires
        old(ledger).wf(),
    ensures
        final(ledger).wf(),
        final(ledger).issued() == old(ledger).issued(),
        final(ledger).total() == old(ledger).total(),
        match result {
            Ok((origin, target)) => transfer_result(
                old(ledger)@,
                amount@,
                pin@,
                origin_account@,
                target_account@,
            ) == Ok::<(AccountRecord, AccountRecord), LedgerError>((origin@, target@)),
            Err(e) => transfer_result(
                old(ledger)@,
                amount@,
                pin@,
                origin_account@,
                target_account@,
            ) == Err::<(AccountRecord, AccountRecord), LedgerError>(e),
        },
        final(ledger)@ == book_after_transfer(
            old(ledger)@,
            origin_account@,
            target_account@,
            transfer_result(old(ledger)@, amount@, pin@, origin_account@, target_account@),
        ),
        result is Err ==> *final(ledger) == *old(ledger),
{
    let origin_number: String = origin_account.to_owned();
    let target_number: String = target_account.to_owned();
    if origin_number == target_number {
        return Err(LedgerError::SameAccount);
    }
    let mut origin = match ledger.get(origin_account) {
        Ok(account) => account,
        Err(e) => {
            return Err(e);
        },
    };
    let mut target = match ledger.get(target_account) {
        Ok(account) => account,
        Err(e) => {
            return Err(e);
        },
    };
    if !verify(&origin, pin) {
        return Err(LedgerError::InvalidCredentials);
    }
    let value = match parse_amount(amount) {
        Ok(value) => value,
        Err(e) => {
            return Err(e);
        },
    };
    if value == 0 {
        return Err(LedgerError::InvalidAmount);
    }
    if value > origin.balance {
        return Err(LedgerError::InsufficientFunds);
    }
    if value > u64::MAX - target.balance {
        return Err(LedgerError::Overflow);
    }
    origin.balance = origin.balance - value;
    target.balance = target.balance + value;
    match ledger.update_both(origin_account, origin.balance, target_account, target.balance) {
        Ok(()) => Ok((origin, target)),
        Err(e) => Err(e),
    }
}

/// Closes an account for good, given its PIN.
///
/// Fails, leaving the ledger as it was, with `NotFound` when there is no such
/// account and with `InvalidCredentials` when the PIN is wrong.
pub fn delete_account(ledger: &mut Ledger, account_number: &str, pin: &str) -> (result: Result<
    (),
    LedgerError,
>)
    requires
        old(ledger).wf(),
    ensures
        final(ledger).wf(),
        final(ledger).issued() == old(ledger).issued(),
        result == delete_result(old(ledger)@, account_number@, pin@),
        result is Ok ==> final(ledger)@ == old(ledger)@.remove(account_number@),
        result is Ok ==> final(ledger).total() + old(ledger)@[account_number@].balance == old(
            ledger,
        ).total(),
        result is Err ==> *final(ledger) == *old(ledger),
{
    let account = match ledger.get(account_number) {
        Ok(account) => account,
        Err(e) => {
            return Err(e);
        },
    };
    if !verify(&account, pin) {
        return Err(LedgerError::InvalidCredentials);
    }
    match ledger.delete(account_number) {
        Ok(()) => Ok(()),
        Err(e) => Err(e),
    }
}

/// Reads the balance of an account. No PIN is asked for.
///
/// Fails with `NotFound` exactly when there is no such account.
pub fn show_balance(ledger: &Ledger, account_number: &str) -> (result: Result<u64, LedgerError>)
    requires
        ledger.wf(),
    ensures
        result == balance_result(ledger@, account_number@),
{
    match ledger.get(account_number) {
        Ok(account) => Ok(account.balance),
        Err(e) => Err(e),
    }
}

/// Looks an account up by its number. No PIN is asked for.
///
/// Fails with `NotFound` exactly when there is no such account.
pub fn fetch_account(ledger: &Ledger, account: &str) -> (result: Result<Account, LedgerError>)
    requires
        ledger.wf(),
    ensures
        match result {
            Ok(found) => ledger@.contains_key(account@) && found@ == ledger@[account@],
            Err(e) => e == LedgerError::NotFound && !ledger@.contains_key(account@),
        },
{
    ledger.get(account)
}

} // verus!
