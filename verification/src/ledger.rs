//! The account store: the rows of the ledger, found by account number.

use vstd::prelude::*;

use crate::account::{Account, AccountRecord};
use crate::error::LedgerError;

verus! {

/// Some row of `rows` has the account number `number`.
pub open spec fn holds(rows: Seq<AccountRecord>, number: Seq<char>) -> bool {
    exists|i: int| 0 <= i < rows.len() && (#[trigger] rows[i]).account_number == number
}

/// The place of a row with the account number `number`.
pub open spec fn position(rows: Seq<AccountRecord>, number: Seq<char>) -> int {
    choose|i: int| 0 <= i < rows.len() && (#[trigger] rows[i]).account_number == number
}

/// No two rows share an account number.
pub open spec fn numbers_distinct(rows: Seq<AccountRecord>) -> bool {
    forall|i: int, j: int|
        0 <= i < rows.len() && 0 <= j < rows.len() && i != j ==> (#[trigger] rows[i]).account_number
            != (#[trigger] rows[j]).account_number
}

/// No two rows share an id.
pub open spec fn ids_distinct(rows: Seq<AccountRecord>) -> bool {
    forall|i: int, j: int|
        0 <= i < rows.len() && 0 <= j < rows.len() && i != j ==> (#[trigger] rows[i]).id != (
        #[trigger] rows[j]).id
}

/// The rows as a map from account number to record.
pub open spec fn book_of(rows: Seq<AccountRecord>) -> Map<Seq<char>, AccountRecord> {
    Map::new(
        |number: Seq<char>| holds(rows, number),
        |number: Seq<char>| rows[position(rows, number)],
    )
}

/// The sum of the balances of `rows`.
pub open spec fn total_of(rows: Seq<AccountRecord>) -> nat
    decreases rows.len(),
{
    if rows.len() == 0 {
        0
    } else {
        total_of(rows.drop_last()) + rows.last().balance
    }
}

/// With distinct account numbers, the map holds each row under its number.
pub proof fn lemma_book_at(rows: Seq<AccountRecord>, i: int)
    requires
        numbers_distinct(rows),
        0 <= i < rows.len(),
    ensures
        book_of(rows).contains_key(rows[i].account_number),
        book_of(rows)[rows[i].account_number] == rows[i],
        position(rows, rows[i].account_number) == i,
{
    // The row at `i` witnesses `holds`, so `position` picks a row with this
    // number, and by distinctness that row is the one at `i`.
    assert(holds(rows, rows[i].account_number));
}

/// Replacing a row by one with the same account number replaces its entry in
/// the map and moves the total by the difference of the balances.
pub proof fn lemma_book_update(rows: Seq<AccountRecord>, i: int, record: AccountRecord)
    requires
        numbers_distinct(rows),
        0 <= i < rows.len(),
        record.account_number == rows[i].account_number,
    ensures
        numbers_distinct(rows.update(i, record)),
        book_of(rows.update(i, record)) == book_of(rows).insert(record.account_number, record),
        total_of(rows.update(i, record)) + rows[i].balance == total_of(rows) + record.balance,
{
    let after = rows.update(i, record);
    // Every place holds the account number it held before.
    assert forall|number: Seq<char>| holds(after, number) == holds(rows, number) by {
        if holds(after, number) {
            assert(rows[position(after, number)].account_number == number);
        }
        if holds(rows, number) {
            assert(after[position(rows, number)].account_number == number);
        }
    }
    assert forall|number: Seq<char>| holds(after, number) implies #[trigger] book_of(after)[number]
        == book_of(rows).insert(record.account_number, record)[number] by {
        let p = position(after, number);
        lemma_book_at(after, p);
        lemma_book_at(rows, p);
    }
    lemma_total_update(rows, i, record);
}

/// Replacing a row moves the total by the difference of the balances.
pub proof fn lemma_total_update(rows: Seq<AccountRecord>, i: int, record: AccountRecord)
    requires
        0 <= i < rows.len(),
    ensures
        total_of(rows.update(i, record)) + rows[i].balance == total_of(rows) + record.balance,
    decreases rows.len(),
{
    let after = rows.update(i, record);
    if i == rows.len() - 1 {
        assert(after.drop_last() =~= rows.drop_last());
    } else {
        assert(after.drop_last() =~= rows.drop_last().update(i, record));
        lemma_total_update(rows.drop_last(), i, record);
    }
}

/// A row with a new account number adds its entry to the map and its balance
/// to the total.
pub proof fn lemma_book_push(rows: Seq<AccountRecord>, record: AccountRecord)
    requires
        numbers_distinct(rows),
        !holds(rows, record.account_number),
    ensures
        numbers_distinct(rows.push(record)),
        book_of(rows.push(record)) == book_of(rows).insert(record.account_number, record),
        total_of(rows.push(record)) == total_of(rows) + record.balance,
{
    let after = rows.push(record);
    assert(after[rows.len() as int] == record);
    assert forall|number: Seq<char>|
        holds(after, number) == (holds(rows, number) || number == record.account_number) by {
        if holds(after, number) && number != record.account_number {
            assert(rows[position(after, number)].account_number == number);
        }
        if holds(rows, number) {
            assert(after[position(rows, number)].account_number == number);
        }
    }
    assert forall|number: Seq<char>| holds(after, number) implies #[trigger] book_of(after)[number]
        == book_of(rows).insert(record.account_number, record)[number] by {
        let p = position(after, number);
        lemma_book_at(after, p);
        if p < rows.len() {
            lemma_book_at(rows, p);
        }
    }
    assert(after.drop_last() =~= rows);
}

/// Taking a row out takes its entry out of the map and its balance out of the
/// total.
pub proof fn lemma_book_remove(rows: Seq<AccountRecord>, i: int)
    requires
        numbers_distinct(rows),
        0 <= i < rows.len(),
    ensures
        numbers_distinct(rows.remove(i)),
        book_of(rows.remove(i)) == book_of(rows).remove(rows[i].account_number),
        total_of(rows.remove(i)) + rows[i].balance == total_of(rows),
{
    let after = rows.remove(i);
    let gone = rows[i].account_number;
    // A row behind the gap stood one place further back.
    assert forall|number: Seq<char>|
        holds(after, number) == (holds(rows, number) && number != gone) by {
        if holds(after, number) {
            let p = position(after, number);
            assert(rows[if p < i { p } else { p + 1 }].account_number == number);
        }
        if holds(rows, number) && number != gone {
            let p = position(rows, number);
            assert(after[if p < i { p } else { p - 1 }] == rows[p]);
        }
    }
    assert forall|number: Seq<char>| holds(after, number) implies #[trigger] book_of(after)[number]
        == book_of(rows).remove(gone)[number] by {
        let p = position(after, number);
        lemma_book_at(after, p);
        lemma_book_at(rows, if p < i { p } else { p + 1 });
    }
    lemma_total_remove(rows, i);
}

/// Taking a row out lowers the total by its balance.
pub proof fn lemma_total_remove(rows: Seq<AccountRecord>, i: int)
    requires
        0 <= i < rows.len(),
    ensures
        total_of(rows.remove(i)) + rows[i].balance == total_of(rows),
    decreases rows.len(),
{
    let after = rows.remove(i);
    if i == rows.len() - 1 {
        assert(after =~= rows.drop_last());
    } else {
        assert(after.drop_last() =~= rows.drop_last().remove(i));
        lemma_total_remove(rows.drop_last(), i);
    }
}

/// The account store. Rows are kept in the order in which they were inserted.
pub struct Ledger {
    accounts: Vec<Account>,
    last_id: u64,
}

impl View for Ledger {
    type V = Map<Seq<char>, AccountRecord>;

    /// The accounts by account number.
    open spec fn view(&self) -> Map<Seq<char>, AccountRecord> {
        book_of(self.rows())
    }
}

impl Ledger {
    /// The rows in insertion order.
    pub closed spec fn rows(&self) -> Seq<AccountRecord> {
        self.accounts@.map_values(|account: Account| account@)
    }

    /// The largest id handed out so far; zero before the first.
    pub closed spec fn issued(&self) -> nat {
        self.last_id as nat
    }

    /// The sum of all balances.
    pub open spec fn total(&self) -> nat {
        total_of(self.rows())
    }

    /// The store's invariant: account numbers and ids identify one row each,
    /// no id is above the last one handed out, and ids and balances fit 64
    /// bits.
    pub open spec fn wf(&self) -> bool {
        &&& numbers_distinct(self.rows())
        &&& ids_distinct(self.rows())
        &&& self.issued() <= u64::MAX
        &&& forall|i: int|
            0 <= i < self.rows().len() ==> (#[trigger] self.rows()[i]).id <= self.issued()
        &&& forall|i: int|
            0 <= i < self.rows().len() ==> (#[trigger] self.rows()[i]).balance <= u64::MAX
    }

    /// An empty store that has handed out no id.
    pub fn new() -> (ledger: Ledger)
        ensures
            ledger.wf(),
            ledger@ == Map::<Seq<char>, AccountRecord>::empty(),
            ledger.issued() == 0,
            ledger.total() == 0,
    {
        Ledger { accounts: Vec::new(), last_id: 0 }
    }

    /// The number of accounts.
    pub fn len(&self) -> (count: usize)
        requires
            self.wf(),
        ensures
            count == self@.dom().len(),
            self@.dom().finite(),
    {
        proof {
            lemma_book_size(self.rows());
        }
        self.accounts.len()
    }

    /// The place of the row with the given account number, if there is one.
    fn find(&self, account_number: &str) -> (found: Option<usize>)
        requires
            self.wf(),
        ensures
            match found {
                Some(i) => i < self.rows().len() && self.rows()[i as int].account_number
                    == account_number@ && i < self.accounts@.len(),
                None => !holds(self.rows(), account_number@),
            },
    {
        let wanted: String = account_number.to_owned();
        let mut i: usize = 0;
        while i < self.accounts.len()
            invariant
                i <= self.accounts@.len(),
                wanted@ == account_number@,
                forall|k: int| 0 <= k < i ==> (#[trigger] self.rows()[k]).account_number != wanted@,
            decreases self.accounts@.len() - i,
        {
            if self.accounts[i].account_number == wanted {
                return Some(i);
            }
            i = i + 1;
        }
        None
    }

    /// Looks an account up by its number.
    ///
    /// Returns the account's record, or `NotFound` exactly when no account
    /// has that number.
    pub fn get(&self, account_number: &str) -> (result: Result<Account, LedgerError>)
        requires
            self.wf(),
        ensures
            match result {
                Ok(account) => self@.contains_key(account_number@) && account@
                    == self@[account_number@],
                Err(e) => e == LedgerError::NotFound && !self@.contains_key(account_number@),
            },
    {
        match self.find(account_number) {
            Some(i) => {
                proof {
                    lemma_book_at(self.rows(), i as int);
                }
                Ok(self.accounts[i].duplicate())
            },
            None => Err(LedgerError::NotFound),
        }
    }

    /// Creates a row with the next id.
    ///
    /// Fails with `DuplicateAccount` exactly when the account number is in
    /// use, and with `StoreUnavailable` exactly when the number is free but
    /// every id has been handed out. On success the new id is returned, one
    /// above the last.
    pub fn insert(&mut self, account_number: &str, pin: &str, balance: u64) -> (result: Result<
        u64,
        LedgerError,
    >)
        requires
            old(self).wf(),
        ensures
            final(self).wf(),
            match result {
                Ok(id) => {
                    &&& !old(self)@.contains_key(account_number@)
                    &&& id == old(self).issued() + 1
                    &&& final(self).issued() == id
                    &&& final(self)@ == old(self)@.insert(
                        account_number@,
                        AccountRecord {
                            id: id as nat,
                            account_number: account_number@,
                            balance: balance as nat,
                            pin: pin@,
                        },
                    )
                    &&& final(self).total() == old(self).total() + balance
                },
                Err(e) => {
                    &&& *final(self) == *old(self)
                    &&& e == if old(self)@.contains_key(account_number@) {
                        LedgerError::DuplicateAccount
                    } else {
                        LedgerError::StoreUnavailable
                    }
                    &&& old(self)@.contains_key(account_number@) || old(self).issued() == u64::MAX
                },
            },
    {
        if self.find(account_number).is_some() {
            return Err(LedgerError::DuplicateAccount);
        }
        if self.last_id == u64::MAX {
            return Err(LedgerError::StoreUnavailable);
        }
        let id: u64 = self.last_id + 1;
        let account = Account {
            id,
            account_number: account_number.to_owned(),
            balance,
            pin: pin.to_owned(),
        };
        proof {
            lemma_book_push(self.rows(), account@);
        }
        let ghost before = self.rows();
        self.last_id = id;
        self.accounts.push(account);
        proof {
            // The old rows keep their ids, all below the new one.
            assert(self.rows() =~= before.push(account@));
        }
        Ok(id)
    }

    /// Overwrites the balance of a row.
    ///
    /// Fails with `NotFound` exactly when no account has that number.
    pub fn update_balance(&mut self, account_number: &str, new_balance: u64) -> (result: Result<
        (),
        LedgerError,
    >)
        requires
            old(self).wf(),
        ensures
            final(self).wf(),
            final(self).issued() == old(self).issued(),
            match result {
                Ok(()) => {
                    &&& old(self)@.contains_key(account_number@)
                    &&& final(self)@ == old(self)@.insert(
                        account_number@,
                        old(self)@[account_number@].with_balance(new_balance as nat),
                    )
                    &&& final(self).total() + old(self)@[account_number@].balance == old(
                        self,
                    ).total() + new_balance
                },
                Err(e) => {
                    &&& *final(self) == *old(self)
                    &&& e == LedgerError::NotFound
                    &&& !old(self)@.contains_key(account_number@)
                },
            },
    {
        match self.find(account_number) {
            Some(i) => {
                self.set_balance(i, new_balance);
                Ok(())
            },
            None => Err(LedgerError::NotFound),
        }
    }

    /// Overwrites the balance of the row at `i`.
    fn set_balance(&mut self, i: usize, new_balance: u64)
        requires
            old(self).wf(),
            i < old(self).rows().len(),
        ensures
            final(self).wf(),
            final(self).issued() == old(self).issued(),
            final(self).rows() == old(self).rows().update(
                i as int,
                old(self).rows()[i as int].with_balance(new_balance as nat),
            ),
            final(self)@ == old(self)@.insert(
                old(self).rows()[i as int].account_number,
                old(self).rows()[i as int].with_balance(new_balance as nat),
            ),
            final(self).total() + old(self).rows()[i as int].balance == old(self).total()
                + new_balance,
    {
        let ghost before = self.rows();
        let ghost record = before[i as int].with_balance(new_balance as nat);
        proof {
            lemma_book_update(before, i as int, record);
        }
        self.accounts[i].balance = new_balance;
        proof {
            // Only the balance of the row at `i` differs.
            assert(self.rows() =~= before.update(i as int, record));
        }
    }

    /// Removes a row for good.
    ///
    /// Fails with `NotFound` exactly when no account has that number.
    pub fn delete(&mut self, account_number: &str) -> (result: Result<(), LedgerError>)
        requires
            old(self).wf(),
        ensures
            final(self).wf(),
            final(self).issued() == old(self).issued(),
            match result {
                Ok(()) => {
                    &&& old(self)@.contains_key(account_number@)
                    &&& final(self)@ == old(self)@.remove(account_number@)
                    &&& final(self).total() + old(self)@[account_number@].balance == old(
                        self,
                    ).total()
                },
                Err(e) => {
                    &&& *final(self) == *old(self)
                    &&& e == LedgerError::NotFound
                    &&& !old(self)@.contains_key(account_number@)
                },
            },
    {
        match self.find(account_number) {
            Some(i) => {
                let ghost before = self.rows();
                proof {
                    lemma_book_at(before, i as int);
                    lemma_book_remove(before, i as int);
                }
                self.accounts.remove(i);
                proof {
                    // A row behind the gap stood one place further back.
                    let after = self.rows();
                    assert(after =~= before.remove(i as int));
                    assert forall|a: int| 0 <= a < after.len() implies #[trigger] after[a]
                        == before[if a < i { a } else { a + 1 }] by {}
                }
                Ok(())
            },
            None => Err(LedgerError::NotFound),
        }
    }
}

impl Ledger {
    /// Whether an account has the given number.
    pub fn contains(&self, account_number: &str) -> (present: bool)
        requires
            self.wf(),
        ensures
            present == self@.contains_key(account_number@),
    {
        match self.find(account_number) {
            Some(i) => {
                proof {
                    lemma_book_at(self.rows(), i as int);
                }
                true
            },
            None => false,
        }
    }

    /// Overwrites the balances of two rows as one unit of work: both are
    /// written, or, when either account is missing, neither.
    ///
    /// Fails with `NotFound` exactly when one of the two account numbers has
    /// no account. Where both name the same account, the second balance is
    /// the one that stays.
    pub fn update_both(
        &mut self,
        first: &str,
        first_balance: u64,
        second: &str,
        second_balance: u64,
    ) -> (result: Result<(), LedgerError>)
        requires
            old(self).wf(),
        ensures
            final(self).wf(),
            final(self).issued() == old(self).issued(),
            match result {
                Ok(()) => {
                    &&& old(self)@.contains_key(first@)
                    &&& old(self)@.contains_key(second@)
                    &&& final(self)@ == old(self)@.insert(
                        first@,
                        old(self)@[first@].with_balance(first_balance as nat),
                    ).insert(second@, old(self)@[second@].with_balance(second_balance as nat))
                    &&& first@ != second@ ==> final(self).total() + old(self)@[first@].balance
                        + old(self)@[second@].balance == old(self).total() + first_balance
                        + second_balance
                },
                Err(e) => {
                    &&& *final(self) == *old(self)
                    &&& e == LedgerError::NotFound
                    &&& !old(self)@.contains_key(first@) || !old(self)@.contains_key(second@)
                },
            },
    {
        let i = match self.find(first) {
            Some(i) => i,
            None => {
                return Err(LedgerError::NotFound);
            },
        };
        let j = match self.find(second) {
            Some(j) => j,
            None => {
                return Err(LedgerError::NotFound);
            },
        };
        proof {
            lemma_book_at(self.rows(), i as int);
            lemma_book_at(self.rows(), j as int);
        }
        self.set_balance(i, first_balance);
        self.set_balance(j, second_balance);
        Ok(())
    }
}

/// The records of a sequence of accounts, in their order.
pub open spec fn records_of(accounts: Seq<Account>) -> Seq<AccountRecord> {
    accounts.map_values(|account: Account| account@)
}

/// The largest id among `rows`; zero if there is none.
pub open spec fn highest_id(rows: Seq<AccountRecord>) -> nat
    decreases rows.len(),
{
    if rows.len() == 0 {
        0
    } else if rows.last().id > highest_id(rows.drop_last()) {
        rows.last().id
    } else {
        highest_id(rows.drop_last())
    }
}

/// No row has an id above `highest_id`.
pub proof fn lemma_highest_id_bounds(rows: Seq<AccountRecord>, i: int)
    requires
        0 <= i < rows.len(),
    ensures
        rows[i].id <= highest_id(rows),
    decreases rows.len(),
{
    if i < rows.len() - 1 {
        lemma_highest_id_bounds(rows.drop_last(), i);
    }
}

impl Ledger {
    /// Rebuilds a store from rows that were kept elsewhere, together with
    /// the last id that had been handed out when they were kept.
    ///
    /// Succeeds exactly when no two rows share an account number or an id;
    /// the store then holds the rows in their order, and the last id handed
    /// out is the larger of `issued` and the largest id among the rows. Fails
    /// with `DuplicateAccount` otherwise.
    pub fn restore(accounts: Vec<Account>, issued: u64) -> (result: Result<Ledger, LedgerError>)
        ensures
            result is Ok <==> numbers_distinct(records_of(accounts@)) && ids_distinct(
                records_of(accounts@),
            ),
            match result {
                Ok(ledger) => {
                    &&& ledger.wf()
                    &&& ledger.rows() == records_of(accounts@)
                    &&& ledger.issued() == if highest_id(records_of(accounts@)) > issued {
                        highest_id(records_of(accounts@))
                    } else {
                        issued as nat
                    }
                },
                Err(e) => e == LedgerError::DuplicateAccount,
            },
    {
        let ghost rows = records_of(accounts@);
        let mut last_id: u64 = issued;
        let mut i: usize = 0;
        while i < accounts.len()
            invariant
                i <= accounts@.len(),
                rows == records_of(accounts@),
                numbers_distinct(rows.subrange(0, i as int)),
                ids_distinct(rows.subrange(0, i as int)),
                last_id == if highest_id(rows.subrange(0, i as int)) > issued {
                    highest_id(rows.subrange(0, i as int))
                } else {
                    issued as nat
                },
            decreases accounts@.len() - i,
        {
            let ghost seen = rows.subrange(0, i as int);
            let ghost next = rows.subrange(0, i + 1);
            let mut j: usize = 0;
            while j < i
                invariant
                    j <= i < accounts@.len(),
                    rows == records_of(accounts@),
                    forall|k: int|
                        0 <= k < j ==> (#[trigger] rows[k]).account_number
                            != rows[i as int].account_number && rows[k].id != rows[i as int].id,
                decreases i - j,
            {
                if accounts[j].account_number == accounts[i].account_number || accounts[j].id
                    == accounts[i].id {
                    proof {
                        // The rows at `j` and `i` are the two that clash.
                        assert(rows[j as int].account_number == rows[i as int].account_number
                            || rows[j as int].id == rows[i as int].id);
                    }
                    return Err(LedgerError::DuplicateAccount);
                }
                j = j + 1;
            }
            if accounts[i].id > last_id {
                last_id = accounts[i].id;
            }
            proof {
                // Two of the first `i + 1` rows are either both among the
                // first `i`, or one of them is the row at `i`, which the
                // inner loop has held against every row before it.
                assert(next.drop_last() =~= seen);
                assert forall|a: int, b: int|
                    0 <= a < next.len() && 0 <= b < next.len() && a != b implies {
                        &&& (#[trigger] next[a]).account_number != (#[trigger] next[b]).account_number
                        &&& next[a].id != next[b].id
                    } by {
                    if a < i && b < i {
                        assert(seen[a] == rows[a] && seen[b] == rows[b]);
                    }
                }
            }
            i = i + 1;
        }
        proof {
            assert(rows.subrange(0, i as int) =~= rows);
        }
        let ledger = Ledger { accounts, last_id };
        proof {
            assert forall|k: int| 0 <= k < rows.len() implies (#[trigger] rows[k]).id
                <= ledger.issued() && rows[k].balance <= u64::MAX by {
                lemma_highest_id_bounds(rows, k);
            }
        }
        Ok(ledger)
    }
}

/// With distinct account numbers, the map has as many entries as there are
/// rows.
pub proof fn lemma_book_size(rows: Seq<AccountRecord>)
    requires
        numbers_distinct(rows),
    ensures
        book_of(rows).dom().finite(),
        book_of(rows).dom().len() == rows.len(),
    decreases rows.len(),
{
    if rows.len() == 0 {
        assert(book_of(rows).dom() =~= Set::<Seq<char>>::empty());
    } else {
        let front = rows.drop_last();
        let record = rows.last();
        // The front rows are rows of `rows`, so they differ from each other
        // and from the last.
        assert(numbers_distinct(front)) by {
            assert forall|a: int, b: int|
                0 <= a < front.len() && 0 <= b < front.len() && a != b implies (
            #[trigger] front[a]).account_number != (#[trigger] front[b]).account_number by {
                assert(front[a] == rows[a] && front[b] == rows[b]);
            }
        }
        assert(!holds(front, record.account_number)) by {
            if holds(front, record.account_number) {
                let p = position(front, record.account_number);
                assert(front[p] == rows[p]);
            }
        }
        lemma_book_size(front);
        lemma_book_push(front, record);
        assert(front.push(record) =~= rows);
    }
}

} // verus!
