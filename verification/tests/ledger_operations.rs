use banking_system::{
    create_account, delete_account, deposit, fetch_account, open_with_pin, show_balance, transfer,
    withdraw, Account, Ledger, LedgerError,
};

fn numbers(list: &[&str]) -> Vec<String> {
    list.iter().map(|number| number.to_string()).collect()
}

fn open(ledger: &mut Ledger, number: &str, pin: &str, balance: u64) -> Account {
    open_with_pin(ledger, number, pin.to_string(), balance).unwrap()
}

#[test]
fn transferred_balance_is_correct() -> Result<(), LedgerError> {
    let deposit_balance = "10000";
    let mut ledger = Ledger::new();

    let origin_account = Account::new(&mut ledger, &numbers(&["4000008449433403"]))?;
    let target_account = Account::new(&mut ledger, &numbers(&["4000003305160034"]))?;

    deposit(
        &mut ledger,
        deposit_balance,
        &origin_account.pin,
        &origin_account.account_number,
    )?;

    transfer(
        &mut ledger,
        deposit_balance,
        &origin_account.pin,
        &origin_account.account_number,
        &target_account.account_number,
    )?;

    let origin_account = fetch_account(&ledger, &origin_account.account_number)?;
    let target_account = fetch_account(&ledger, &target_account.account_number)?;

    assert_eq!("0".to_string(), origin_account.balance.to_string());
    assert_eq!(deposit_balance.to_owned(), target_account.balance.to_string());
    Ok(())
}

#[test]
fn created_account_is_correct_fetched_from_db() -> Result<(), LedgerError> {
    let mut ledger = Ledger::new();
    let acc1 = Account::new(&mut ledger, &numbers(&["4000008449433403"]))?;
    let acc2 = fetch_account(&ledger, &acc1.account_number)?;

    assert_eq!(acc1.id, acc2.id);
    Ok(())
}

#[test]
fn fetched_account_equals_created_account() {
    let mut ledger = Ledger::new();
    let created = create_account(&mut ledger, "4000001111111111", 750).unwrap();
    let fetched = fetch_account(&ledger, "4000001111111111").unwrap();
    assert_eq!(created.id, 1);
    assert_eq!(fetched.id, 1);
    assert_eq!(fetched.account_number, "4000001111111111");
    assert_eq!(fetched.balance, 750);
    assert_eq!(fetched.pin, created.pin);
}

#[test]
fn new_account_has_zero_balance_and_six_digit_pin() {
    let mut ledger = Ledger::new();
    let account = Account::new(&mut ledger, &numbers(&["4000002222222222"])).unwrap();
    assert_eq!(account.balance, 0);
    assert_eq!(account.account_number, "4000002222222222");
    assert_eq!(account.pin.len(), 6);
    assert!(account.pin.chars().all(|c| c.is_ascii_digit()));
    assert_eq!(show_balance(&ledger, "4000002222222222"), Ok(0));
}

#[test]
fn new_account_takes_first_free_candidate() {
    let mut ledger = Ledger::new();
    open(&mut ledger, "A", "111111", 0);
    open(&mut ledger, "B", "222222", 0);
    let account = Account::new(&mut ledger, &numbers(&["A", "B", "C", "D"])).unwrap();
    assert_eq!(account.account_number, "C");
    assert_eq!(account.id, 3);
    assert!(fetch_account(&ledger, "D").is_err());
    assert_eq!(ledger.len(), 3);
}

#[test]
fn new_account_fails_when_every_candidate_is_taken() {
    let mut ledger = Ledger::new();
    open(&mut ledger, "A", "111111", 5);
    open(&mut ledger, "B", "222222", 7);
    let result = Account::new(&mut ledger, &numbers(&["B", "A", "B"]));
    assert_eq!(result.unwrap_err(), LedgerError::GenerationExhausted);
    assert_eq!(ledger.len(), 2);
    assert_eq!(show_balance(&ledger, "A"), Ok(5));
    assert_eq!(show_balance(&ledger, "B"), Ok(7));
}

#[test]
fn new_account_fails_without_candidates() {
    let mut ledger = Ledger::new();
    let result = Account::new(&mut ledger, &Vec::new());
    assert_eq!(result.unwrap_err(), LedgerError::GenerationExhausted);
    assert_eq!(ledger.len(), 0);
}

#[test]
fn create_account_rejects_number_in_use() {
    let mut ledger = Ledger::new();
    let first = create_account(&mut ledger, "A", 100).unwrap();
    let second = create_account(&mut ledger, "A", 900);
    assert_eq!(second.unwrap_err(), LedgerError::DuplicateAccount);
    let kept = fetch_account(&ledger, "A").unwrap();
    assert_eq!(kept.id, first.id);
    assert_eq!(kept.balance, 100);
    assert_eq!(kept.pin, first.pin);
}

#[test]
fn create_account_fails_when_ids_are_used_up() {
    let rows = vec![Account {
        id: u64::MAX,
        account_number: "A".to_string(),
        balance: 1,
        pin: "123456".to_string(),
    }];
    let mut ledger = Ledger::restore(rows, 0).unwrap();
    let result = create_account(&mut ledger, "B", 0);
    assert_eq!(result.unwrap_err(), LedgerError::StoreUnavailable);
    assert!(fetch_account(&ledger, "B").is_err());
    let result = Account::new(&mut ledger, &numbers(&["A", "B"]));
    assert_eq!(result.unwrap_err(), LedgerError::StoreUnavailable);
    assert_eq!(
        create_account(&mut ledger, "A", 0).unwrap_err(),
        LedgerError::DuplicateAccount
    );
}

#[test]
fn ids_count_up_and_are_not_reused() {
    let mut ledger = Ledger::new();
    let a = open(&mut ledger, "A", "111111", 0);
    let b = open(&mut ledger, "B", "222222", 0);
    assert_eq!((a.id, b.id), (1, 2));
    delete_account(&mut ledger, "B", "222222").unwrap();
    let again = open(&mut ledger, "B", "333333", 0);
    assert_eq!(again.id, 3);
    assert_eq!(fetch_account(&ledger, "B").unwrap().pin, "333333");
}

#[test]
fn deposit_then_transfer_everything() {
    let mut ledger = Ledger::new();
    let a = create_account(&mut ledger, "A", 0).unwrap();
    assert_eq!(a.balance, 0);
    assert_eq!(deposit(&mut ledger, "10000", &a.pin, "A"), Ok(10000));
    let b = create_account(&mut ledger, "B", 0).unwrap();
    assert_eq!(b.balance, 0);
    let (origin, target) = transfer(&mut ledger, "10000", &a.pin, "A", "B").unwrap();
    assert_eq!(origin.balance, 0);
    assert_eq!(target.balance, 10000);
    assert_eq!(origin.account_number, "A");
    assert_eq!(target.account_number, "B");
    assert_eq!(show_balance(&ledger, "A"), Ok(0));
    assert_eq!(show_balance(&ledger, "B"), Ok(10000));
}

#[test]
fn withdraw_more_than_balance_fails() {
    let mut ledger = Ledger::new();
    let a = create_account(&mut ledger, "A", 500).unwrap();
    assert_eq!(
        withdraw(&mut ledger, "1000", &a.pin, "A"),
        Err(LedgerError::InsufficientFunds)
    );
    assert_eq!(show_balance(&ledger, "A"), Ok(500));
}

#[test]
fn transfer_to_self_fails() {
    let mut ledger = Ledger::new();
    open(&mut ledger, "A", "123456", 500);
    for (amount, pin) in [
        ("100", "123456"),
        ("100", "654321"),
        ("0", "123456"),
        ("9999", "123456"),
        ("abc", ""),
    ] {
        let result = transfer(&mut ledger, amount, pin, "A", "A");
        assert_eq!(result.unwrap_err(), LedgerError::SameAccount);
        assert_eq!(show_balance(&ledger, "A"), Ok(500));
    }
    let result = transfer(&mut ledger, "100", "123456", "Z", "Z");
    assert_eq!(result.unwrap_err(), LedgerError::SameAccount);
}

#[test]
fn deleted_account_is_not_found() {
    let mut ledger = Ledger::new();
    let a = create_account(&mut ledger, "A", 0).unwrap();
    assert_eq!(delete_account(&mut ledger, "A", &a.pin), Ok(()));
    assert_eq!(fetch_account(&ledger, "A").unwrap_err(), LedgerError::NotFound);
    assert_eq!(show_balance(&ledger, "A"), Err(LedgerError::NotFound));
    assert_eq!(ledger.len(), 0);
}

#[test]
fn deposit_adds_to_balance() {
    let mut ledger = Ledger::new();
    open(&mut ledger, "A", "123456", 250);
    assert_eq!(deposit(&mut ledger, "750", "123456", "A"), Ok(1000));
    assert_eq!(deposit(&mut ledger, "0", "123456", "A"), Ok(1000));
    assert_eq!(deposit(&mut ledger, "+1", "123456", "A"), Ok(1001));
    assert_eq!(show_balance(&ledger, "A"), Ok(1001));
}

#[test]
fn deposit_errors_in_order() {
    let mut ledger = Ledger::new();
    open(&mut ledger, "A", "123456", u64::MAX - 10);
    assert_eq!(
        deposit(&mut ledger, "ten", "000000", "missing"),
        Err(LedgerError::InvalidAmount)
    );
    assert_eq!(
        deposit(&mut ledger, "-5", "123456", "A"),
        Err(LedgerError::InvalidAmount)
    );
    assert_eq!(
        deposit(&mut ledger, "5", "000000", "missing"),
        Err(LedgerError::NotFound)
    );
    assert_eq!(
        deposit(&mut ledger, "11", "000000", "A"),
        Err(LedgerError::InvalidCredentials)
    );
    assert_eq!(
        deposit(&mut ledger, "11", "123456", "A"),
        Err(LedgerError::Overflow)
    );
    assert_eq!(show_balance(&ledger, "A"), Ok(u64::MAX - 10));
    assert_eq!(deposit(&mut ledger, "10", "123456", "A"), Ok(u64::MAX));
}

#[test]
fn withdraw_takes_from_balance() {
    let mut ledger = Ledger::new();
    open(&mut ledger, "A", "123456", 500);
    assert_eq!(withdraw(&mut ledger, "200", "123456", "A"), Ok(300));
    assert_eq!(withdraw(&mut ledger, "0", "123456", "A"), Ok(300));
    assert_eq!(withdraw(&mut ledger, "300", "123456", "A"), Ok(0));
    assert_eq!(show_balance(&ledger, "A"), Ok(0));
}

#[test]
fn withdraw_errors_in_order() {
    let mut ledger = Ledger::new();
    open(&mut ledger, "A", "123456", 500);
    assert_eq!(
        withdraw(&mut ledger, "x", "000000", "missing"),
        Err(LedgerError::NotFound)
    );
    assert_eq!(
        withdraw(&mut ledger, "x", "000000", "A"),
        Err(LedgerError::InvalidCredentials)
    );
    assert_eq!(
        withdraw(&mut ledger, "x", "123456", "A"),
        Err(LedgerError::InvalidAmount)
    );
    assert_eq!(
        withdraw(&mut ledger, "501", "123456", "A"),
        Err(LedgerError::InsufficientFunds)
    );
    assert_eq!(show_balance(&ledger, "A"), Ok(500));
}

#[test]
fn transfer_errors_in_order() {
    let mut ledger = Ledger::new();
    open(&mut ledger, "A", "111111", 500);
    open(&mut ledger, "B", "222222", u64::MAX - 100);
    let error = |ledger: &mut Ledger, amount: &str, pin: &str, from: &str, to: &str| {
        transfer(ledger, amount, pin, from, to).unwrap_err()
    };
    assert_eq!(error(&mut ledger, "x", "0", "A", "A"), LedgerError::SameAccount);
    assert_eq!(error(&mut ledger, "x", "0", "A", "C"), LedgerError::NotFound);
    assert_eq!(error(&mut ledger, "x", "0", "C", "B"), LedgerError::NotFound);
    assert_eq!(
        error(&mut ledger, "x", "222222", "A", "B"),
        LedgerError::InvalidCredentials
    );
    assert_eq!(error(&mut ledger, "x", "111111", "A", "B"), LedgerError::InvalidAmount);
    assert_eq!(error(&mut ledger, "0", "111111", "A", "B"), LedgerError::InvalidAmount);
    assert_eq!(error(&mut ledger, "-1", "111111", "A", "B"), LedgerError::InvalidAmount);
    assert_eq!(
        error(&mut ledger, "501", "111111", "A", "B"),
        LedgerError::InsufficientFunds
    );
    assert_eq!(error(&mut ledger, "101", "111111", "A", "B"), LedgerError::Overflow);
    assert_eq!(show_balance(&ledger, "A"), Ok(500));
    assert_eq!(show_balance(&ledger, "B"), Ok(u64::MAX - 100));
}

#[test]
fn transfer_moves_part_of_balance() {
    let mut ledger = Ledger::new();
    open(&mut ledger, "A", "111111", 500);
    open(&mut ledger, "B", "222222", 40);
    open(&mut ledger, "C", "333333", 9);
    let (origin, target) = transfer(&mut ledger, "125", "111111", "A", "B").unwrap();
    assert_eq!((origin.id, origin.balance), (1, 375));
    assert_eq!((target.id, target.balance), (2, 165));
    assert_eq!(origin.pin, "111111");
    assert_eq!(target.pin, "222222");
    assert_eq!(show_balance(&ledger, "A"), Ok(375));
    assert_eq!(show_balance(&ledger, "B"), Ok(165));
    assert_eq!(show_balance(&ledger, "C"), Ok(9));
}

#[test]
fn transfer_fills_target_to_the_limit() {
    let mut ledger = Ledger::new();
    open(&mut ledger, "A", "111111", 100);
    open(&mut ledger, "B", "222222", u64::MAX - 100);
    let (origin, target) = transfer(&mut ledger, "100", "111111", "A", "B").unwrap();
    assert_eq!(origin.balance, 0);
    assert_eq!(target.balance, u64::MAX);
}

#[test]
fn delete_needs_the_pin() {
    let mut ledger = Ledger::new();
    open(&mut ledger, "A", "123456", 500);
    assert_eq!(
        delete_account(&mut ledger, "A", "654321"),
        Err(LedgerError::InvalidCredentials)
    );
    assert_eq!(
        delete_account(&mut ledger, "B", "123456"),
        Err(LedgerError::NotFound)
    );
    let kept = fetch_account(&ledger, "A").unwrap();
    assert_eq!(kept.balance, 500);
    assert_eq!(kept.pin, "123456");
    assert_eq!(delete_account(&mut ledger, "A", "123456"), Ok(()));
    assert_eq!(
        delete_account(&mut ledger, "A", "123456"),
        Err(LedgerError::NotFound)
    );
}

#[test]
fn delete_leaves_other_accounts() {
    let mut ledger = Ledger::new();
    open(&mut ledger, "A", "111111", 1);
    open(&mut ledger, "B", "222222", 2);
    open(&mut ledger, "C", "333333", 3);
    delete_account(&mut ledger, "B", "222222").unwrap();
    assert_eq!(ledger.len(), 2);
    assert_eq!(fetch_account(&ledger, "A").unwrap().id, 1);
    assert_eq!(fetch_account(&ledger, "C").unwrap().id, 3);
    assert_eq!(show_balance(&ledger, "C"), Ok(3));
}

#[test]
fn balance_needs_no_pin() {
    let mut ledger = Ledger::new();
    create_account(&mut ledger, "A", 4242).unwrap();
    assert_eq!(show_balance(&ledger, "A"), Ok(4242));
    assert_eq!(show_balance(&ledger, "B"), Err(LedgerError::NotFound));
}
