use tx_engine::account::{Account, BalanceError};
use tx_engine::amount::units_from_parts;
use tx_engine::engine::process_transactions;
use tx_engine::ledger::Reason;
use tx_engine::transaction::{classify, Transaction, TransactionKind};

fn record(kind: &str, client: u16, tx: u32, amount: u64) -> Transaction {
    Transaction::new(kind.to_string(), client, tx, amount)
}

#[test]
fn overdrawing_withdrawal_leaves_account_unchanged() {
    let (accounts, errors) = process_transactions(vec![
        record("deposit", 1, 1, 1_000_000),
        record("withdrawal", 1, 2, 1_500_000),
    ]);
    assert_eq!(accounts, vec![Account::new(1, 1_000_000, 0, false)]);
    assert_eq!(errors.len(), 1);
    assert_eq!(errors[0].tx, 2);
    assert!(matches!(errors[0].reason, Reason::WithdrawalRefused(BalanceError::InsufficientFunds)));
}

#[test]
fn each_reason_is_reported() {
    let (accounts, errors) = process_transactions(vec![
        record("dispute", 7, 10, 0),
        record("resolve", 7, 11, 0),
        record("chargeback", 7, 12, 0),
        record("deposit", 7, 1, 500),
        record("withdrawal", 7, 2, 500),
        record("dispute", 7, 1, 0),
        record("transfer", 7, 3, 5),
    ]);
    assert_eq!(accounts, vec![Account::new(7, 0, 0, false)]);
    assert_eq!(errors.len(), 5);
    assert!(matches!(errors[0].reason, Reason::UnknownToDispute));
    assert!(matches!(errors[1].reason, Reason::UnknownToResolve));
    assert!(matches!(errors[2].reason, Reason::UnknownToChargeBack));
    assert!(matches!(errors[3].reason, Reason::DisputeRefused(BalanceError::InsufficientFunds)));
    match &errors[4].reason {
        Reason::UnhandledType(t) => assert_eq!(t, "transfer"),
        other => panic!("unexpected reason {:?}", other),
    }
    assert_eq!(errors[4].tx, 3);
}

#[test]
fn second_dispute_is_refused_as_duplicate() {
    let (_, errors) = process_transactions(vec![
        record("deposit", 1, 1, 100),
        record("dispute", 1, 1, 0),
        record("dispute", 1, 1, 0),
    ]);
    assert_eq!(errors.len(), 1);
    assert!(matches!(errors[0].reason, Reason::DisputedTwice));
}

#[test]
fn resolve_after_funds_left_is_refused() {
    // The dispute is opened by client 2 against client 1's deposit, so the
    // held funds of client 1 do not cover the resolve.
    let (accounts, errors) = process_transactions(vec![
        record("deposit", 1, 1, 100),
        record("deposit", 2, 2, 100),
        record("dispute", 2, 1, 0),
        record("resolve", 1, 1, 0),
        record("chargeback", 1, 1, 0),
        record("resolve", 2, 1, 0),
    ]);
    assert_eq!(accounts, vec![Account::new(1, 100, 0, false), Account::new(2, 100, 0, false)]);
    assert_eq!(errors.len(), 2);
    assert!(matches!(errors[0].reason, Reason::ResolveRefused(BalanceError::InsufficientHeld)));
    assert!(matches!(errors[1].reason, Reason::ChargebackRefused(BalanceError::InsufficientHeld)));
}

#[test]
fn resolved_transaction_can_be_disputed_again() {
    let (accounts, errors) = process_transactions(vec![
        record("deposit", 3, 1, 250),
        record("dispute", 3, 1, 0),
        record("resolve", 3, 1, 0),
        record("dispute", 3, 1, 0),
    ]);
    assert_eq!(accounts, vec![Account::new(3, 0, 250, false)]);
    assert_eq!(errors.len(), 0);
}

#[test]
fn locked_account_still_takes_deposits() {
    let (accounts, errors) = process_transactions(vec![
        record("deposit", 4, 1, 100),
        record("dispute", 4, 1, 0),
        record("chargeback", 4, 1, 0),
        record("deposit", 4, 2, 40),
    ]);
    assert_eq!(accounts, vec![Account::new(4, 40, 0, true)]);
    assert_eq!(errors.len(), 0);
}

#[test]
fn accounts_come_out_once_per_client_in_first_seen_order() {
    let (accounts, errors) = process_transactions(vec![
        record("deposit", 9, 1, 10),
        record("withdrawal", 3, 2, 10),
        record("deposit", 9, 3, 5),
        record("deposit", 3, 4, 7),
    ]);
    assert_eq!(accounts, vec![Account::new(9, 15, 0, false), Account::new(3, 7, 0, false)]);
    assert_eq!(errors.len(), 1);
}

#[test]
fn account_new_derives_total() {
    let a = Account::new(5, 30_000, 1_234, true);
    assert_eq!(a.total, 31_234);
    assert_eq!(Account::empty(5), Account::new(5, 0, 0, false));
}

#[test]
fn account_transitions() {
    let mut a = Account::empty(1);
    assert_eq!(a.deposit(1_000), Ok(()));
    assert_eq!(a.withdraw(1_001), Err(BalanceError::InsufficientFunds));
    assert_eq!(a.withdraw(400), Ok(()));
    assert_eq!(a, Account::new(1, 600, 0, false));
    assert_eq!(a.dispute(601), Err(BalanceError::InsufficientFunds));
    assert_eq!(a.dispute(200), Ok(()));
    assert_eq!(a, Account::new(1, 400, 200, false));
    assert_eq!(a.resolve(201), Err(BalanceError::InsufficientHeld));
    assert_eq!(a.chargeback(201), Err(BalanceError::InsufficientHeld));
    assert_eq!(a, Account::new(1, 400, 200, false));
    assert_eq!(a.chargeback(150), Ok(()));
    assert_eq!(a, Account::new(1, 400, 50, true));
    assert_eq!(a.total, 450);
}

#[test]
fn dispute_then_resolve_restores_balances() {
    let mut a = Account::new(2, 31_234, 66, false);
    let before = a;
    assert_eq!(a.dispute(31_234), Ok(()));
    assert_eq!(a.resolve(31_234), Ok(()));
    assert_eq!(a, before);
}

#[test]
fn resolving_or_charging_back_twice_gives_one_diagnostic_each() {
    let (_, errors) = process_transactions(vec![
        record("deposit", 1, 1, 10),
        record("deposit", 1, 2, 10),
        record("dispute", 1, 1, 0),
        record("dispute", 1, 2, 0),
        record("resolve", 1, 1, 0),
        record("resolve", 1, 1, 0),
        record("chargeback", 1, 2, 0),
        record("chargeback", 1, 2, 0),
    ]);
    assert_eq!(errors.len(), 2);
    assert!(matches!(errors[0].reason, Reason::UnknownToResolve));
    assert!(matches!(errors[1].reason, Reason::UnknownToChargeBack));
}

#[test]
fn classify_reads_each_kind() {
    assert_eq!(classify(&"deposit".to_string()), TransactionKind::Deposit);
    assert_eq!(classify(&"withdrawal".to_string()), TransactionKind::Withdrawal);
    assert_eq!(classify(&"dispute".to_string()), TransactionKind::Dispute);
    assert_eq!(classify(&"resolve".to_string()), TransactionKind::Resolve);
    assert_eq!(classify(&"chargeback".to_string()), TransactionKind::Chargeback);
    assert_eq!(classify(&"Deposit".to_string()), TransactionKind::Unrecognized);
    assert_eq!(classify(&String::new()), TransactionKind::Unrecognized);
}

#[test]
fn large_amounts_add_up_exactly() {
    let (accounts, errors) = process_transactions(vec![
        record("deposit", 1, 1, u64::MAX),
        record("deposit", 1, 2, u64::MAX),
        record("withdrawal", 1, 3, 1),
    ]);
    let expected = 2 * (u64::MAX as u128) - 1;
    assert_eq!(accounts, vec![Account::new(1, expected, 0, false)]);
    assert_eq!(errors.len(), 0);
}

#[test]
fn decimal_parts_convert_to_units() {
    assert_eq!(units_from_parts(31234, 4), Some(31234));
    assert_eq!(units_from_parts(1000, 1), Some(1_000_000));
    assert_eq!(units_from_parts(7, 0), Some(70_000));
    assert_eq!(units_from_parts(0, 0), Some(0));
    assert_eq!(units_from_parts(-1, 2), None);
    assert_eq!(units_from_parts(12345, 5), None);
    assert_eq!(units_from_parts(u64::MAX as i128, 4), Some(u64::MAX));
    assert_eq!(units_from_parts(u64::MAX as i128, 3), None);
    assert_eq!(units_from_parts(1_844_674_407_370_955, 0), Some(18_446_744_073_709_550_000));
}
