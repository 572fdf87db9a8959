use payments_engine::amount::Amount;
use payments_engine::deposit_log::{DepositLogError, DepositStatus};
use payments_engine::wallet::{Wallet, WalletError};

fn units(u: i64) -> Amount {
    Amount::from_units(u)
}

#[test]
fn test_deposit_works_with_new_transaction_id() {
    let mut wallet = Wallet::default();
    wallet.deposit(1, units(100_000)).unwrap();

    assert_eq!(wallet.get_available(), units(100_000));
    assert_eq!(wallet.get_held(), units(0));
    assert_eq!(wallet.get_locked_status(), false);
    let deposit = wallet.get_deposit(1).unwrap();
    assert_eq!(deposit.get_amount(), units(100_000));
    assert_eq!(deposit.get_status(), DepositStatus::New);
}

#[test]
fn test_deposit_fails_with_duplicate_transaction_id() {
    let mut wallet = Wallet::default();
    wallet.deposit(1, units(10_000)).unwrap();

    let result = wallet.deposit(1, units(100_000));

    assert_eq!(result, Err(WalletError::DepositIdExists));
    assert_eq!(wallet.get_available(), units(10_000));
    assert_eq!(wallet.get_held(), units(0));
    let deposit = wallet.get_deposit(1).unwrap();
    assert_eq!(deposit.get_amount(), units(10_000));
    assert_eq!(deposit.get_status(), DepositStatus::New);
}

#[test]
fn test_withdraw_works_with_sufficient_funds() {
    let mut wallet = Wallet::default();
    wallet.deposit(1, units(100_000)).unwrap();

    wallet.withdraw(1, units(50_000)).unwrap();

    assert_eq!(wallet.get_available(), units(50_000));
    assert_eq!(wallet.get_held(), units(0));
    let deposit = wallet.get_deposit(1).unwrap();
    assert_eq!(deposit.get_amount(), units(100_000));
}

#[test]
fn test_withdraw_fails_with_insufficient_funds_and_balances_remain_the_same() {
    let mut wallet = Wallet::default();
    wallet.deposit(1, units(100_000)).unwrap();

    let result = wallet.withdraw(2, units(1_000_000));

    assert_eq!(result, Err(WalletError::InsufficientFunds));
    assert_eq!(wallet.get_available(), units(100_000));
    assert_eq!(wallet.get_held(), units(0));
}

#[test]
fn test_dispute_leaves_correct_balances_and_sets_disputed_on_deposit() {
    let mut wallet = Wallet::default();
    wallet.deposit(1, units(100_000)).unwrap();
    wallet.deposit(2, units(50_000)).unwrap();
    assert_eq!(wallet.get_available(), units(150_000));

    wallet.dispute(2).unwrap();

    assert_eq!(wallet.get_available(), units(100_000));
    assert_eq!(wallet.get_held(), units(50_000));
    assert_eq!(wallet.get_total(), units(150_000));
    assert_eq!(wallet.get_deposit(1).unwrap().get_status(), DepositStatus::New);
    let disputed = wallet.get_deposit(2).unwrap();
    assert_eq!(disputed.get_status(), DepositStatus::Disputed);
    assert_eq!(disputed.get_amount(), units(50_000));
}

#[test]
fn test_resolve_updates_balances_for_disputed_transaction() {
    let mut wallet = Wallet::default();
    wallet.deposit(1, units(100_000)).unwrap();
    wallet.dispute(1).unwrap();
    wallet.resolve(1).unwrap();

    assert_eq!(wallet.get_available(), units(100_000));
    assert_eq!(wallet.get_held(), units(0));
    assert_eq!(wallet.get_locked_status(), false);
    assert_eq!(wallet.get_deposit(1).unwrap().get_status(), DepositStatus::Resolved);
}

#[test]
fn test_chargeback_updates_balances_and_freezes_account() {
    let mut wallet = Wallet::default();
    wallet.deposit(1, units(100_000)).unwrap();
    wallet.dispute(1).unwrap();
    wallet.chargeback(1).unwrap();

    assert_eq!(wallet.get_available(), units(0));
    assert_eq!(wallet.get_held(), units(0));
    assert_eq!(wallet.get_locked_status(), true);
    assert_eq!(wallet.get_deposit(1).unwrap().get_status(), DepositStatus::Chargedback);
}

#[test]
fn test_replayed_dispute_fails_and_changes_nothing() {
    let mut wallet = Wallet::default();
    wallet.deposit(1, units(100_000)).unwrap();
    wallet.dispute(1).unwrap();

    let replay = wallet.dispute(1);

    assert_eq!(replay, Err(WalletError::DepositLogError(DepositLogError::CantDispute)));
    assert_eq!(wallet.get_available(), units(0));
    assert_eq!(wallet.get_held(), units(100_000));
}

#[test]
fn test_dispute_on_unknown_transaction_changes_nothing() {
    let mut wallet = Wallet::default();
    wallet.deposit(1, units(100_000)).unwrap();

    assert_eq!(wallet.dispute(9), Err(WalletError::InexistentTransaction));
    assert_eq!(wallet.resolve(9), Err(WalletError::InexistentTransaction));
    assert_eq!(wallet.chargeback(9), Err(WalletError::InexistentTransaction));
    assert_eq!(wallet.get_available(), units(100_000));
    assert_eq!(wallet.get_held(), units(0));
}

#[test]
fn test_withdrawal_never_brings_available_below_zero() {
    let mut wallet = Wallet::default();
    wallet.deposit(1, units(100_000)).unwrap();
    wallet.withdraw(2, units(100_000)).unwrap();

    assert_eq!(wallet.get_available(), units(0));
    assert_eq!(wallet.withdraw(3, units(1)), Err(WalletError::InsufficientFunds));
    assert_eq!(wallet.get_available(), units(0));
}

#[test]
fn test_four_decimal_exactness_is_preserved() {
    let mut wallet = Wallet::default();
    wallet.deposit(1, units(51_234)).unwrap();
    wallet.withdraw(2, units(3)).unwrap();

    assert_eq!(wallet.get_available(), units(51_231));
    assert_eq!(wallet.get_total(), units(51_231));
}
