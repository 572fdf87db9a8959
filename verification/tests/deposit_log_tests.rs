use payments_engine::amount::Amount;
use payments_engine::deposit_log::{DepositLog, DepositLogError, DepositStatus};

#[test]
fn test_set_resolve_fails_for_undisputed_deposit() {
    let mut deposit_log = DepositLog::new(Amount::from_units(10_000));
    let result = deposit_log.set_resolved();
    assert_eq!(Err(DepositLogError::CantResolveUndisputed), result);
}

#[test]
fn test_set_chargeback_fails_for_undisputed_deposit() {
    let mut deposit_log = DepositLog::new(Amount::from_units(10_000));
    let result = deposit_log.set_chargedback();
    assert_eq!(Err(DepositLogError::CantChargebackUndisputed), result);
}

#[test]
fn test_new_deposit_starts_in_new_status_with_its_amount() {
    let deposit_log = DepositLog::new(Amount::from_units(51_234));
    assert_eq!(deposit_log.get_status(), DepositStatus::New);
    assert_eq!(deposit_log.get_amount(), Amount::from_units(51_234));
}

#[test]
fn test_dispute_then_resolve_walks_the_lifecycle() {
    let mut deposit_log = DepositLog::new(Amount::from_units(10_000));
    assert_eq!(deposit_log.set_disputed(), Ok(()));
    assert_eq!(deposit_log.get_status(), DepositStatus::Disputed);
    assert_eq!(deposit_log.set_resolved(), Ok(()));
    assert_eq!(deposit_log.get_status(), DepositStatus::Resolved);
    assert_eq!(deposit_log.get_amount(), Amount::from_units(10_000));
}

#[test]
fn test_resolved_deposit_is_terminal() {
    let mut deposit_log = DepositLog::new(Amount::from_units(10_000));
    deposit_log.set_disputed().unwrap();
    deposit_log.set_resolved().unwrap();
    assert_eq!(deposit_log.set_disputed(), Err(DepositLogError::CantDispute));
    assert_eq!(deposit_log.set_chargedback(), Err(DepositLogError::CantChargebackUndisputed));
    assert_eq!(deposit_log.get_status(), DepositStatus::Resolved);
}

#[test]
fn test_chargedback_deposit_is_terminal() {
    let mut deposit_log = DepositLog::new(Amount::from_units(10_000));
    deposit_log.set_disputed().unwrap();
    deposit_log.set_chargedback().unwrap();
    assert_eq!(deposit_log.set_disputed(), Err(DepositLogError::CantDispute));
    assert_eq!(deposit_log.set_resolved(), Err(DepositLogError::CantResolveUndisputed));
    assert_eq!(deposit_log.get_status(), DepositStatus::Chargedback);
}

#[test]
fn test_disputed_deposit_cannot_be_disputed_again() {
    let mut deposit_log = DepositLog::new(Amount::from_units(10_000));
    deposit_log.set_disputed().unwrap();
    assert_eq!(deposit_log.set_disputed(), Err(DepositLogError::CantDispute));
    assert_eq!(deposit_log.get_status(), DepositStatus::Disputed);
}
