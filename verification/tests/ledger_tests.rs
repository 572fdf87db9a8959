use payments_engine::amount::Amount;
use payments_engine::deposit_log::DepositLogError;
use payments_engine::ledger::{AccountSummary, Ledger, LedgerError};
use payments_engine::transaction::Transaction;
use payments_engine::wallet::WalletError;

fn units(u: i64) -> Amount {
    Amount::from_units(u)
}

fn deposit(client: u16, tx: u32, u: i64) -> Transaction {
    Transaction::Deposit { client, tx, amount: units(u) }
}

fn withdrawal(client: u16, tx: u32, u: i64) -> Transaction {
    Transaction::Withdrawal { client, tx, amount: units(u) }
}

fn summary_for(summaries: &[AccountSummary], client: u16) -> AccountSummary {
    *summaries.iter().find(|s| s.client == client).unwrap()
}

fn check_summary(s: AccountSummary, available: i64, held: i64, total: i64, locked: bool) {
    assert_eq!(s.available, units(available));
    assert_eq!(s.held, units(held));
    assert_eq!(s.total, units(total));
    assert_eq!(s.locked, locked);
}

#[test]
fn test_deposit_and_withdraw_work() {
    let mut ledger = Ledger::new();
    let outcomes = ledger.process_all(&vec![
        deposit(1, 1, 100_000),
        deposit(1, 2, 200_000),
        deposit(2, 3, 100_000),
        withdrawal(1, 4, 50_000),
    ]);
    assert!(outcomes.iter().all(|o| o.is_ok()));

    let summaries = ledger.summaries();
    assert_eq!(summaries.len(), 2);
    check_summary(summary_for(&summaries, 1), 250_000, 0, 250_000, false);
    check_summary(summary_for(&summaries, 2), 100_000, 0, 100_000, false);
}

#[test]
fn test_deposit_with_existing_tx_doesnt_change_balance() {
    let mut ledger = Ledger::new();
    let outcomes = ledger.process_all(&vec![deposit(1, 1, 100_000), deposit(1, 1, 200_000)]);

    assert_eq!(outcomes[0], Ok(()));
    assert_eq!(outcomes[1], Err(LedgerError::WalletError(WalletError::DepositIdExists)));
    let summaries = ledger.summaries();
    assert_eq!(summaries.len(), 1);
    check_summary(summary_for(&summaries, 1), 100_000, 0, 100_000, false);
}

#[test]
fn test_withdraw_with_insufficient_funds_doesnt_change_balance() {
    let mut ledger = Ledger::new();
    let outcomes = ledger.process_all(&vec![deposit(1, 1, 100_000), withdrawal(1, 2, 200_000)]);

    assert_eq!(outcomes[1], Err(LedgerError::WalletError(WalletError::InsufficientFunds)));
    check_summary(summary_for(&ledger.summaries(), 1), 100_000, 0, 100_000, false);
}

#[test]
fn test_dispute_moves_funds_from_available_to_held() {
    let mut ledger = Ledger::new();
    let outcomes = ledger.process_all(&vec![
        deposit(1, 1, 50_000),
        deposit(1, 2, 100_000),
        Transaction::Dispute { client: 1, tx: 1 },
    ]);
    assert!(outcomes.iter().all(|o| o.is_ok()));

    check_summary(summary_for(&ledger.summaries(), 1), 100_000, 50_000, 150_000, false);
}

#[test]
fn test_dispute_on_inexistent_tx_doesnt_change_ballance() {
    let mut ledger = Ledger::new();
    let outcomes = ledger.process_all(&vec![
        deposit(1, 1, 50_000),
        deposit(1, 2, 100_000),
        Transaction::Dispute { client: 1, tx: 3 },
    ]);

    assert_eq!(outcomes[2], Err(LedgerError::WalletError(WalletError::InexistentTransaction)));
    check_summary(summary_for(&ledger.summaries(), 1), 150_000, 0, 150_000, false);
}

#[test]
fn test_resolve_and_chargeback_dont_change_ballances_for_inexistent_tx() {
    let mut ledger = Ledger::new();
    let outcomes = ledger.process_all(&vec![
        deposit(1, 1, 50_000),
        deposit(2, 2, 100_000),
        Transaction::Resolve { client: 1, tx: 3 },
        Transaction::Chargeback { client: 2, tx: 4 },
    ]);

    assert_eq!(outcomes[2], Err(LedgerError::WalletError(WalletError::InexistentTransaction)));
    assert_eq!(outcomes[3], Err(LedgerError::WalletError(WalletError::InexistentTransaction)));
    let summaries = ledger.summaries();
    check_summary(summary_for(&summaries, 1), 50_000, 0, 50_000, false);
    check_summary(summary_for(&summaries, 2), 100_000, 0, 100_000, false);
}

#[test]
fn test_resolve_increases_available_and_total() {
    let mut ledger = Ledger::new();
    let outcomes = ledger.process_all(&vec![
        deposit(1, 1, 50_000),
        deposit(1, 2, 100_000),
        Transaction::Dispute { client: 1, tx: 1 },
        Transaction::Resolve { client: 1, tx: 1 },
    ]);
    assert!(outcomes.iter().all(|o| o.is_ok()));

    check_summary(summary_for(&ledger.summaries(), 1), 150_000, 0, 150_000, false);
}

#[test]
fn test_chargeback_decreases_held_and_total_and_sets_locked() {
    let mut ledger = Ledger::new();
    let outcomes = ledger.process_all(&vec![
        deposit(1, 1, 50_000),
        deposit(1, 2, 100_000),
        Transaction::Dispute { client: 1, tx: 1 },
        Transaction::Chargeback { client: 1, tx: 1 },
    ]);
    assert!(outcomes.iter().all(|o| o.is_ok()));

    check_summary(summary_for(&ledger.summaries(), 1), 100_000, 0, 100_000, true);
}

#[test]
fn test_deposit_dispute_chargeback_withdraw() {
    let mut ledger = Ledger::new();
    let outcomes = ledger.process_all(&vec![
        deposit(1, 1, 100_000),
        Transaction::Dispute { client: 1, tx: 1 },
        Transaction::Chargeback { client: 1, tx: 1 },
        withdrawal(1, 2, 50_000),
    ]);

    assert_eq!(outcomes[3], Err(LedgerError::WalletError(WalletError::InsufficientFunds)));
    check_summary(summary_for(&ledger.summaries(), 1), 0, 0, 0, true);
}

#[test]
fn test_decimals_up_to_4_places_are_accepted() {
    let mut ledger = Ledger::new();
    let outcomes = ledger.process_all(&vec![deposit(1, 1, 51_234), withdrawal(1, 2, 3)]);
    assert!(outcomes.iter().all(|o| o.is_ok()));

    check_summary(summary_for(&ledger.summaries(), 1), 51_231, 0, 51_231, false);
}

#[test]
fn test_non_deposits_never_create_an_account() {
    let mut ledger = Ledger::new();
    let outcomes = ledger.process_all(&vec![
        withdrawal(7, 1, 10_000),
        Transaction::Dispute { client: 7, tx: 1 },
        Transaction::Resolve { client: 7, tx: 1 },
        Transaction::Chargeback { client: 7, tx: 1 },
    ]);

    for outcome in &outcomes {
        assert_eq!(*outcome, Err(LedgerError::InexistentClient(7)));
    }
    assert_eq!(ledger.summaries().len(), 0);
}

#[test]
fn test_failures_dont_stop_later_transactions() {
    let mut ledger = Ledger::new();
    let outcomes = ledger.process_all(&vec![
        withdrawal(9, 1, 10_000),
        deposit(1, 1, 100_000),
        deposit(1, 1, 100_000),
        withdrawal(1, 2, 30_000),
    ]);

    assert_eq!(outcomes.len(), 4);
    assert_eq!(outcomes[0], Err(LedgerError::InexistentClient(9)));
    assert_eq!(outcomes[1], Ok(()));
    assert_eq!(outcomes[2], Err(LedgerError::WalletError(WalletError::DepositIdExists)));
    assert_eq!(outcomes[3], Ok(()));
    check_summary(summary_for(&ledger.summaries(), 1), 70_000, 0, 70_000, false);
}

#[test]
fn test_replaying_a_successful_dispute_fails_through_the_ledger() {
    let mut ledger = Ledger::new();
    let outcomes = ledger.process_all(&vec![
        deposit(1, 1, 100_000),
        Transaction::Dispute { client: 1, tx: 1 },
        Transaction::Dispute { client: 1, tx: 1 },
    ]);

    assert_eq!(
        outcomes[2],
        Err(LedgerError::WalletError(WalletError::DepositLogError(DepositLogError::CantDispute)))
    );
    check_summary(summary_for(&ledger.summaries(), 1), 0, 100_000, 100_000, false);
}

#[test]
fn test_summaries_come_in_account_creation_order() {
    let mut ledger = Ledger::new();
    ledger.process_all(&vec![deposit(3, 1, 10_000), deposit(1, 2, 20_000), deposit(2, 3, 30_000)]);

    let summaries = ledger.summaries();
    let clients: Vec<u16> = summaries.iter().map(|s| s.client).collect();
    assert_eq!(clients, vec![3, 1, 2]);
}

#[test]
fn test_deposit_overflowing_the_balance_range_is_refused() {
    let mut ledger = Ledger::new();
    let outcomes =
        ledger.process_all(&vec![deposit(1, 1, i64::MAX), deposit(1, 2, 1), withdrawal(1, 3, 1)]);

    assert_eq!(outcomes[0], Ok(()));
    assert_eq!(outcomes[1], Err(LedgerError::BalanceOutOfRange));
    assert_eq!(outcomes[2], Ok(()));
    check_summary(summary_for(&ledger.summaries(), 1), i64::MAX - 1, 0, i64::MAX - 1, false);
}
