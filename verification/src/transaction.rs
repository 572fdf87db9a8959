use vstd::prelude::*;

verus! {

use crate::amount::{Amount, ClientId, TransactionId};

/// The five transaction kinds of the input stream. Every transaction carries
/// one client id and one transaction id; deposits and withdrawals also carry
/// an amount.
#[derive(Clone, Copy, Debug, PartialEq, Eq, Structural)]
pub enum Transaction {
    Deposit { client: ClientId, tx: TransactionId, amount: Amount },
    Withdrawal { client: ClientId, tx: TransactionId, amount: Amount },
    Dispute { client: ClientId, tx: TransactionId },
    Resolve { client: ClientId, tx: TransactionId },
    Chargeback { client: ClientId, tx: TransactionId },
}

impl Transaction {
    /// The transaction id the transaction carries, whatever its kind.
    pub open spec fn spec_transaction_id(self) -> TransactionId {
        match self {
            Transaction::Deposit { tx, .. } => tx,
            Transaction::Withdrawal { tx, .. } => tx,
            Transaction::Dispute { tx, .. } => tx,
            Transaction::Resolve { tx, .. } => tx,
            Transaction::Chargeback { tx, .. } => tx,
        }
    }

    /// The client id the transaction carries, whatever its kind.
    pub open spec fn spec_client_id(self) -> ClientId {
        match self {
            Transaction::Deposit { client, .. } => client,
            Transaction::Withdrawal { client, .. } => client,
            Transaction::Dispute { client, .. } => client,
            Transaction::Resolve { client, .. } => client,
            Transaction::Chargeback { client, .. } => client,
        }
    }

    pub fn get_transaction_id(&self) -> (r: TransactionId)
        ensures
            r == self.spec_transaction_id(),
    {
        match self {
            Transaction::Deposit { tx, .. } => *tx,
            Transaction::Withdrawal { tx, .. } => *tx,
            Transaction::Dispute { tx, .. } => *tx,
            Transaction::Resolve { tx, .. } => *tx,
            Transaction::Chargeback { tx, .. } => *tx,
        }
    }

    pub fn get_client_id(&self) -> (r: ClientId)
        ensures
            r == self.spec_client_id(),
    {
        match self {
            Transaction::Deposit { client, .. } => *client,
            Transaction::Withdrawal { client, .. } => *client,
            Transaction::Dispute { client, .. } => *client,
            Transaction::Resolve { client, .. } => *client,
            Transaction::Chargeback { client, .. } => *client,
        }
    }
}

} // verus!
