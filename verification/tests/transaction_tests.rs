use payments_engine::amount::Amount;
use payments_engine::transaction::Transaction;
use payments_engine::transaction_record::{
    TransactionRecord, TransactionRecordError, TransactionType,
};

fn record(kind: TransactionType, client: u16, tx: u32, amount: Option<i64>) -> TransactionRecord {
    TransactionRecord { kind, client, tx, amount: amount.map(Amount::from_units) }
}

#[test]
fn test_transaction_getters_cover_every_kind() {
    let amount = Amount::from_units(10_000);
    let transactions = vec![
        Transaction::Deposit { client: 1, tx: 11, amount },
        Transaction::Withdrawal { client: 2, tx: 12, amount },
        Transaction::Dispute { client: 3, tx: 13 },
        Transaction::Resolve { client: 4, tx: 14 },
        Transaction::Chargeback { client: 5, tx: 15 },
    ];
    for (i, t) in transactions.iter().enumerate() {
        assert_eq!(t.get_client_id(), (i + 1) as u16);
        assert_eq!(t.get_transaction_id(), (i + 11) as u32);
    }
}

#[test]
fn test_deposit_record_with_amount_converts() {
    let converted = record(TransactionType::Deposit, 1, 1, Some(10_000)).into_transaction();
    assert_eq!(
        converted,
        Ok(Transaction::Deposit { client: 1, tx: 1, amount: Amount::from_units(10_000) })
    );
}

#[test]
fn test_withdrawal_record_with_amount_converts() {
    let converted = record(TransactionType::Withdrawal, 1, 2, Some(15_000)).into_transaction();
    assert_eq!(
        converted,
        Ok(Transaction::Withdrawal { client: 1, tx: 2, amount: Amount::from_units(15_000) })
    );
}

#[test]
fn test_deposit_or_withdrawal_without_amount_is_refused() {
    let deposit = record(TransactionType::Deposit, 1, 2, None).into_transaction();
    assert_eq!(deposit, Err(TransactionRecordError::MissingAmountError));
    let withdrawal = record(TransactionType::Withdrawal, 1, 2, None).into_transaction();
    assert_eq!(withdrawal, Err(TransactionRecordError::MissingAmountError));
}

#[test]
fn test_dispute_resolve_chargeback_records_ignore_the_amount() {
    let dispute = record(TransactionType::Dispute, 1, 1, Some(99)).into_transaction();
    assert_eq!(dispute, Ok(Transaction::Dispute { client: 1, tx: 1 }));
    let resolve = record(TransactionType::Resolve, 1, 2, None).into_transaction();
    assert_eq!(resolve, Ok(Transaction::Resolve { client: 1, tx: 2 }));
    let chargeback = record(TransactionType::Chargeback, 2, 2, None).into_transaction();
    assert_eq!(chargeback, Ok(Transaction::Chargeback { client: 2, tx: 2 }));
}

#[test]
fn test_amount_units_are_ten_thousandths() {
    assert_eq!(Amount::from_units(51_234).units, 51_234);
    assert_eq!(Amount::zero().units, 0);
    assert_eq!(Amount::zero(), Amount::from_units(0));
}
