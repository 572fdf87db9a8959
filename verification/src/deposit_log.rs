use vstd::prelude::*;

verus! {

use crate::amount::Amount;

/// Why a status transition of a deposit record was refused.
#[derive(Clone, Copy, Debug, PartialEq, Eq, Structural)]
pub enum DepositLogError {
    CantDispute,
    CantResolveUndisputed,
    CantChargebackUndisputed,
}

/// The dispute lifecycle of a single deposit. `New` is the initial status;
/// `Resolved` and `Chargedback` are terminal.
#[derive(Clone, Copy, Debug, PartialEq, Eq, Structural)]
pub enum DepositStatus {
    New,
    Disputed,
    Resolved,
    Chargedback,
}

/// One recorded deposit: its amount, fixed at creation, and its dispute status.
#[derive(Clone, Copy, Debug, PartialEq, Eq, Structural)]
pub struct DepositLog {
    amount: Amount,
    status: DepositStatus,
}

/// The mathematical content of a `DepositLog`: the amount in ten-thousandths
/// and the current dispute status.
pub struct DepositLogView {
    pub amount: int,
    pub status: DepositStatus,
}

impl View for DepositLog {
    type V = DepositLogView;

    closed spec fn view(&self) -> DepositLogView {
        DepositLogView { amount: self.amount@, status: self.status }
    }
}

/// What marking a record disputed does: `New` goes to `Disputed`; any other
/// status is refused and the record is unchanged.
pub open spec fn spec_set_disputed(d: DepositLogView) -> (DepositLogView, Result<
    (),
    DepositLogError,
>) {
    if d.status == DepositStatus::New {
        (DepositLogView { status: DepositStatus::Disputed, ..d }, Ok(()))
    } else {
        (d, Err(DepositLogError::CantDispute))
    }
}

/// What marking a record resolved does: `Disputed` goes to `Resolved`; any
/// other status is refused and the record is unchanged.
pub open spec fn spec_set_resolved(d: DepositLogView) -> (DepositLogView, Result<
    (),
    DepositLogError,
>) {
    if d.status == DepositStatus::Disputed {
        (DepositLogView { status: DepositStatus::Resolved, ..d }, Ok(()))
    } else {
        (d, Err(DepositLogError::CantResolveUndisputed))
    }
}

/// What marking a record charged back does: `Disputed` goes to `Chargedback`;
/// any other status is refused and the record is unchanged.
pub open spec fn spec_set_chargedback(d: DepositLogView) -> (DepositLogView, Result<
    (),
    DepositLogError,
>) {
    if d.status == DepositStatus::Disputed {
        (DepositLogView { status: DepositStatus::Chargedback, ..d }, Ok(()))
    } else {
        (d, Err(DepositLogError::CantChargebackUndisputed))
    }
}

impl DepositLog {
    /// A fresh record for a just-applied deposit, in status `New`.
    pub fn new(amount: Amount) -> (r: DepositLog)
        ensures
            r@ == (DepositLogView { amount: amount@, status: DepositStatus::New }),
    {
        DepositLog { amount, status: DepositStatus::New }
    }

    /// The deposit's amount; constant for the record's lifetime.
    pub fn get_amount(&self) -> (r: Amount)
        ensures
            r@ == self@.amount,
    {
        self.amount
    }

    /// The record's current dispute status.
    pub fn get_status(&self) -> (r: DepositStatus)
        ensures
            r == self@.status,
    {
        self.status
    }

    /// Marks the deposit disputed, if it is in status `New`.
    pub fn set_disputed(&mut self) -> (r: Result<(), DepositLogError>)
        ensures
            final(self)@ == spec_set_disputed(old(self)@).0,
            r == spec_set_disputed(old(self)@).1,
    {
        match self.status {
            DepositStatus::New => {
                self.status = DepositStatus::Disputed;
                Ok(())
            },
            _ => Err(DepositLogError::CantDispute),
        }
    }

    /// Marks the disputed deposit resolved.
    pub fn set_resolved(&mut self) -> (r: Result<(), DepositLogError>)
        ensures
            final(self)@ == spec_set_resolved(old(self)@).0,
            r == spec_set_resolved(old(self)@).1,
    {
        match self.status {
            DepositStatus::Disputed => {
                self.status = DepositStatus::Resolved;
                Ok(())
            },
            _ => Err(DepositLogError::CantResolveUndisputed),
        }
    }

    /// Marks the disputed deposit charged back.
    pub fn set_chargedback(&mut self) -> (r: Result<(), DepositLogError>)
        ensures
            final(self)@ == spec_set_chargedback(old(self)@).0,
            r == spec_set_chargedback(old(self)@).1,
    {
        match self.status {
            DepositStatus::Disputed => {
                self.status = DepositStatus::Chargedback;
                Ok(())
            },
            _ => Err(DepositLogError::CantChargebackUndisputed),
        }
    }
}

/// A record's amount never changes after creation: no status transition
/// touches it.
pub proof fn lemma_amount_constant_over_transitions(d: DepositLogView)
    ensures
        spec_set_disputed(d).0.amount == d.amount,
        spec_set_resolved(d).0.amount == d.amount,
        spec_set_chargedback(d).0.amount == d.amount,
{
}

/// `Resolved` and `Chargedback` are terminal: every transition attempted on a
/// record in one of these statuses fails and leaves the record unchanged.
pub proof fn lemma_terminal_status_is_final(d: DepositLogView)
    requires
        d.status == DepositStatus::Resolved || d.status == DepositStatus::Chargedback,
    ensures
        spec_set_disputed(d).0 == d,
        spec_set_disputed(d).1 == Result::<(), DepositLogError>::Err(DepositLogError::CantDispute),
        spec_set_resolved(d).0 == d,
        spec_set_resolved(d).1 == Result::<(), DepositLogError>::Err(
            DepositLogError::CantResolveUndisputed,
        ),
        spec_set_chargedback(d).0 == d,
        spec_set_chargedback(d).1 == Result::<(), DepositLogError>::Err(
            DepositLogError::CantChargebackUndisputed,
        ),
{
}

} // verus!
