//! What holds of the ledger whatever is asked of it.
//!
//! The operations' contracts say that each returns the answer of its spec
//! function and leaves the book that goes with it; the laws below are stated
//! over those spec functions and over the ledger's view.

use vstd::prelude::*;

use crate::account::AccountRecord;
use crate::amount::amount_value;
use crate::error::LedgerError;
use crate::ledger::{holds, position, Ledger};
use crate::operations::{
    balance_result, book_after_balance_change, book_after_transfer, delete_result, deposit_result,
    transfer_result, withdraw_result, Book,
};

verus! {

/// Every balance in a well-formed ledger is at least zero and fits 64 bits.
/// Every operation asks for a well-formed ledger and leaves one, so this
/// holds before and after each of them.
pub proof fn lemma_balances_in_range(ledger: Ledger, account_number: Seq<char>)
    requires
        ledger.wf(),
        ledger@.contains_key(account_number),
    ensures
        0 <= ledger@[account_number].balance <= u64::MAX,
        ledger@[account_number].account_number == account_number,
        ledger@[account_number].id <= ledger.issued(),
{
    let p = position(ledger.rows(), account_number);
}

/// A deposit, a withdrawal and a transfer arrive at their new balances
/// without wrapping: what they return is the old balance plus or minus the
/// amount, computed in the integers, and it is never below zero.
pub proof fn lemma_new_balances_are_exact(
    book: Book,
    amount: Seq<char>,
    pin: Seq<char>,
    account_number: Seq<char>,
    target: Seq<char>,
)
    requires
        book.contains_key(account_number) ==> book[account_number].balance <= u64::MAX,
        book.contains_key(target) ==> book[target].balance <= u64::MAX,
    ensures
        deposit_result(book, amount, pin, account_number) matches Ok(balance) ==> balance
            == book[account_number].balance + amount_value(amount).unwrap(),
        withdraw_result(book, amount, pin, account_number) matches Ok(balance) ==> 0
            <= book[account_number].balance - amount_value(amount).unwrap() == balance,
        transfer_result(book, amount, pin, account_number, target) matches Ok(pair) ==> {
            &&& 0 <= book[account_number].balance - amount_value(amount).unwrap()
                == pair.0.balance
            &&& pair.1.balance == book[target].balance + amount_value(amount).unwrap()
                <= u64::MAX
        },
{
}

/// Accounts come and go only by being opened and closed: a deposit, a
/// withdrawal and a transfer, whatever they answer, leave the same account
/// numbers in the book, each with the id and the PIN it had.
pub proof fn lemma_money_moves_keep_accounts(
    book: Book,
    amount: Seq<char>,
    pin: Seq<char>,
    account_number: Seq<char>,
    target: Seq<char>,
    other: Seq<char>,
)
    ensures
        ({
            let deposited = book_after_balance_change(
                book,
                account_number,
                deposit_result(book, amount, pin, account_number),
            );
            let withdrawn = book_after_balance_change(
                book,
                account_number,
                withdraw_result(book, amount, pin, account_number),
            );
            let transferred = book_after_transfer(
                book,
                account_number,
                target,
                transfer_result(book, amount, pin, account_number, target),
            );
            &&& deposited.contains_key(other) == book.contains_key(other)
            &&& withdrawn.contains_key(other) == book.contains_key(other)
            &&& transferred.contains_key(other) == book.contains_key(other)
            &&& deposited[other].id == book[other].id && deposited[other].pin == book[other].pin
            &&& withdrawn[other].id == book[other].id && withdrawn[other].pin == book[other].pin
            &&& transferred[other].id == book[other].id && transferred[other].pin
                == book[other].pin
        }),
{
}

/// Conservation: after a transfer that succeeds, origin and target together
/// hold what they held before.
pub proof fn lemma_transfer_conserves(
    book: Book,
    amount: Seq<char>,
    pin: Seq<char>,
    origin: Seq<char>,
    target: Seq<char>,
)
    requires
        transfer_result(book, amount, pin, origin, target) is Ok,
    ensures
        ({
            let after = book_after_transfer(
                book,
                origin,
                target,
                transfer_result(book, amount, pin, origin, target),
            );
            &&& after[origin].balance + after[target].balance == book[origin].balance
                + book[target].balance
            &&& forall|other: Seq<char>|
                other != origin && other != target ==> (after.contains_key(other)
                    == book.contains_key(other) && after[other] == book[other])
        }),
{
}

/// Reading is repeatable: two readings of the balance of one account on one
/// ledger give the same answer.
pub proof fn lemma_balance_read_repeats(
    ledger: Ledger,
    account_number: Seq<char>,
    first: Result<u64, LedgerError>,
    second: Result<u64, LedgerError>,
)
    requires
        first == balance_result(ledger@, account_number),
        second == balance_result(ledger@, account_number),
    ensures
        first == second,
{
}

/// The PIN guards a deposit: with a wrong PIN for an existing account, and
/// an amount that is a number, the answer is `InvalidCredentials` and the
/// book stays as it is.
pub proof fn lemma_deposit_needs_pin(
    book: Book,
    amount: Seq<char>,
    pin: Seq<char>,
    account_number: Seq<char>,
)
    requires
        book.contains_key(account_number),
        book[account_number].pin != pin,
        amount_value(amount) is Some,
    ensures
        deposit_result(book, amount, pin, account_number) == Err::<u64, LedgerError>(
            LedgerError::InvalidCredentials,
        ),
        book_after_balance_change(
            book,
            account_number,
            deposit_result(book, amount, pin, account_number),
        ) == book,
{
}

/// The PIN guards a withdrawal: with a wrong PIN for an existing account,
/// whatever the amount, the answer is `InvalidCredentials` and the book
/// stays as it is.
pub proof fn lemma_withdraw_needs_pin(
    book: Book,
    amount: Seq<char>,
    pin: Seq<char>,
    account_number: Seq<char>,
)
    requires
        book.contains_key(account_number),
        book[account_number].pin != pin,
    ensures
        withdraw_result(book, amount, pin, account_number) == Err::<u64, LedgerError>(
            LedgerError::InvalidCredentials,
        ),
        book_after_balance_change(
            book,
            account_number,
            withdraw_result(book, amount, pin, account_number),
        ) == book,
{
}

/// The PIN guards a transfer: between two different existing accounts, with
/// a PIN that is not the origin's, whatever the amount, the answer is
/// `InvalidCredentials` and the book stays as it is. The target's PIN opens
/// nothing.
pub proof fn lemma_transfer_needs_pin(
    book: Book,
    amount: Seq<char>,
    pin: Seq<char>,
    origin: Seq<char>,
    target: Seq<char>,
)
    requires
        origin != target,
        book.contains_key(origin),
        book.contains_key(target),
        book[origin].pin != pin,
    ensures
        transfer_result(book, amount, pin, origin, target) == Err::<
            (AccountRecord, AccountRecord),
            LedgerError,
        >(LedgerError::InvalidCredentials),
        book_after_transfer(
            book,
            origin,
            target,
            transfer_result(book, amount, pin, origin, target),
        ) == book,
{
}

/// The PIN guards the closing of an account: with a wrong PIN for an
/// existing account the answer is `InvalidCredentials`.
pub proof fn lemma_delete_needs_pin(book: Book, account_number: Seq<char>, pin: Seq<char>)
    requires
        book.contains_key(account_number),
        book[account_number].pin != pin,
    ensures
        delete_result(book, account_number, pin) == Err::<(), LedgerError>(
            LedgerError::InvalidCredentials,
        ),
{
}

/// A transfer is all or nothing. Where the debit could be applied (the
/// accounts differ and exist, the PIN is right, the origin holds the amount)
/// but the credit cannot (the target has no room for it), the answer is
/// `Overflow` and neither balance has changed.
pub proof fn lemma_failed_credit_leaves_no_debit(
    book: Book,
    amount: Seq<char>,
    pin: Seq<char>,
    origin: Seq<char>,
    target: Seq<char>,
)
    requires
        origin != target,
        book.contains_key(origin),
        book.contains_key(target),
        book[origin].pin == pin,
        amount_value(amount) matches Some(value) && 0 < value <= book[origin].balance
            && book[target].balance + value > u64::MAX,
    ensures
        transfer_result(book, amount, pin, origin, target) == Err::<
            (AccountRecord, AccountRecord),
            LedgerError,
        >(LedgerError::Overflow),
        book_after_transfer(
            book,
            origin,
            target,
            transfer_result(book, amount, pin, origin, target),
        ) == book,
{
}

/// A transfer that fails, for whatever reason, leaves the book as it is; one
/// that succeeds changes both accounts, and by the same amount.
pub proof fn lemma_transfer_is_atomic(
    book: Book,
    amount: Seq<char>,
    pin: Seq<char>,
    origin: Seq<char>,
    target: Seq<char>,
)
    ensures
        ({
            let result = transfer_result(book, amount, pin, origin, target);
            let after = book_after_transfer(book, origin, target, result);
            &&& result is Err ==> after == book
            &&& result is Ok ==> {
                &&& amount_value(amount) matches Some(value)
                &&& value > 0
                &&& after[origin].balance == book[origin].balance - value
                &&& after[target].balance == book[target].balance + value
            }
        }),
{
}

} // verus!
