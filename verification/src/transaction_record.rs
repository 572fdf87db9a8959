use vstd::prelude::*;

verus! {

use crate::amount::{Amount, ClientId, TransactionId};
use crate::transaction::Transaction;

/// Why an input record could not be turned into a transaction.
#[derive(Clone, Copy, Debug, PartialEq, Eq, Structural)]
pub enum TransactionRecordError {
    /// A deposit or withdrawal record came without an amount.
    MissingAmountError,
}

/// The kind discriminator of an input record.
#[derive(Clone, Copy, Debug, PartialEq, Eq, Structural)]
pub enum TransactionType {
    Deposit,
    Withdrawal,
    Dispute,
    Resolve,
    Chargeback,
}

/// One already-tokenized input record, as the tabular-input adapter hands it
/// over: a kind, a client id, a transaction id, and an optional amount.
#[derive(Clone, Copy, Debug, PartialEq, Eq, Structural)]
pub struct TransactionRecord {
    pub kind: TransactionType,
    pub client: ClientId,
    pub tx: TransactionId,
    pub amount: Option<Amount>,
}

/// What converting a record into a transaction yields: deposits and
/// withdrawals demand an amount; the three dispute kinds ignore one.
pub open spec fn spec_into_transaction(rec: TransactionRecord) -> Result<
    Transaction,
    TransactionRecordError,
> {
    match rec.kind {
        TransactionType::Deposit => match rec.amount {
            Some(amount) => Ok(
                Transaction::Deposit { client: rec.client, tx: rec.tx, amount },
            ),
            None => Err(TransactionRecordError::MissingAmountError),
        },
        TransactionType::Withdrawal => match rec.amount {
            Some(amount) => Ok(
                Transaction::Withdrawal { client: rec.client, tx: rec.tx, amount },
            ),
            None => Err(TransactionRecordError::MissingAmountError),
        },
        TransactionType::Dispute => Ok(Transaction::Dispute { client: rec.client, tx: rec.tx }),
        TransactionType::Resolve => Ok(Transaction::Resolve { client: rec.client, tx: rec.tx }),
        TransactionType::Chargeback => Ok(
            Transaction::Chargeback { client: rec.client, tx: rec.tx },
        ),
    }
}

impl TransactionRecord {
    /// Turns the record into a structured transaction. A missing amount on a
    /// deposit or withdrawal is a per-record error, never a stream error.
    pub fn into_transaction(self) -> (r: Result<Transaction, TransactionRecordError>)
        ensures
            r == spec_into_transaction(self),
    {
        let client = self.client;
        let tx = self.tx;
        match self.kind {
            TransactionType::Deposit => match self.amount {
                Some(amount) => Ok(Transaction::Deposit { client, tx, amount }),
                None => Err(TransactionRecordError::MissingAmountError),
            },
            TransactionType::Withdrawal => match self.amount {
                Some(amount) => Ok(Transaction::Withdrawal { client, tx, amount }),
                None => Err(TransactionRecordError::MissingAmountError),
            },
            TransactionType::Dispute => Ok(Transaction::Dispute { client, tx }),
            TransactionType::Resolve => Ok(Transaction::Resolve { client, tx }),
            TransactionType::Chargeback => Ok(Transaction::Chargeback { client, tx }),
        }
    }
}

} // verus!
