use vstd::prelude::*;

verus! {

use std::collections::HashMap;

use crate::amount::{in_range, Amount, TransactionId};
use crate::deposit_log::{
    spec_set_chargedback, spec_set_disputed, spec_set_resolved, DepositLog, DepositLogError,
    DepositLogView, DepositStatus,
};
use crate::sums::{
    lemma_sum_over_congruence, lemma_sum_over_empty, lemma_sum_over_insert, lemma_sum_over_remove,
    sum_over,
};

/// Why a wallet refused to apply a transaction.
#[derive(Clone, Copy, Debug, PartialEq, Eq, Structural)]
pub enum WalletError {
    DepositIdExists,
    InexistentTransaction,
    InsufficientFunds,
    DepositLogError(DepositLogError),
}

/// One client account: its available and held balances, its frozen flag, and
/// the record of every deposit it ever accepted, keyed by transaction id.
/// Withdrawals are deliberately not recorded: they are not disputable.
#[derive(Debug)]
pub struct Wallet {
    available: Amount,
    held: Amount,
    locked: bool,
    deposit_log: HashMap<TransactionId, DepositLog>,
}

/// The mathematical content of a `Wallet`: balances in ten-thousandths, the
/// frozen flag, and the deposit records.
#[verifier::ext_equal]
pub struct WalletView {
    pub available: int,
    pub held: int,
    pub locked: bool,
    pub log: Map<TransactionId, DepositLogView>,
}

impl View for Wallet {
    type V = WalletView;

    closed spec fn view(&self) -> WalletView {
        WalletView {
            available: self.available@,
            held: self.held@,
            locked: self.locked,
            log: Map::new(
                |tx: TransactionId| self.deposit_log@.contains_key(tx),
                |tx: TransactionId| self.deposit_log@[tx]@,
            ),
        }
    }
}

/// The state of a wallet no transaction has touched yet.
pub open spec fn empty_wallet() -> WalletView {
    WalletView { available: 0, held: 0, locked: false, log: Map::empty() }
}

/// A wallet is well formed when its total balance is representable. Both
/// balances are representable on their own by construction; the operations
/// below guard the total as well, so it can always be reported exactly.
pub open spec fn wallet_wf(w: WalletView) -> bool {
    in_range(w.available + w.held)
}

/// Machine-range guard for a deposit: on the path that changes state, the new
/// available balance and the new total must stay representable.
pub open spec fn deposit_fits(w: WalletView, tx: TransactionId, amount: int) -> bool {
    !w.log.contains_key(tx) ==> in_range(w.available + amount) && in_range(
        w.available + w.held + amount,
    )
}

/// Machine-range guard for a withdrawal, on the path that changes state.
pub open spec fn withdraw_fits(w: WalletView, amount: int) -> bool {
    w.available >= amount ==> in_range(w.available - amount) && in_range(
        w.available + w.held - amount,
    )
}

/// Machine-range guard for a dispute, on the path that changes state.
pub open spec fn dispute_fits(w: WalletView, tx: TransactionId) -> bool {
    (w.log.contains_key(tx) && w.log[tx].status == DepositStatus::New) ==> in_range(
        w.available - w.log[tx].amount,
    ) && in_range(w.held + w.log[tx].amount)
}

/// Machine-range guard for a resolve, on the path that changes state.
pub open spec fn resolve_fits(w: WalletView, tx: TransactionId) -> bool {
    (w.log.contains_key(tx) && w.log[tx].status == DepositStatus::Disputed) ==> in_range(
        w.available + w.log[tx].amount,
    ) && in_range(w.held - w.log[tx].amount)
}

/// Machine-range guard for a chargeback, on the path that changes state.
pub open spec fn chargeback_fits(w: WalletView, tx: TransactionId) -> bool {
    (w.log.contains_key(tx) && w.log[tx].status == DepositStatus::Disputed) ==> in_range(
        w.held - w.log[tx].amount,
    ) && in_range(w.available + w.held - w.log[tx].amount)
}

/// What a deposit does: a transaction id already on record is refused with no
/// state change; otherwise a `New` record is created and `available` grows by
/// the amount.
pub open spec fn spec_deposit(w: WalletView, tx: TransactionId, amount: int) -> (WalletView, Result<
    (),
    WalletError,
>) {
    if w.log.contains_key(tx) {
        (w, Err(WalletError::DepositIdExists))
    } else {
        (
            WalletView {
                available: w.available + amount,
                log: w.log.insert(tx, DepositLogView { amount, status: DepositStatus::New }),
                ..w
            },
            Ok(()),
        )
    }
}

/// What a withdrawal does: with sufficient available funds, `available`
/// shrinks by the amount; otherwise it is refused with no state change.
pub open spec fn spec_withdraw(w: WalletView, amount: int) -> (WalletView, Result<
    (),
    WalletError,
>) {
    if w.available >= amount {
        (WalletView { available: w.available - amount, ..w }, Ok(()))
    } else {
        (w, Err(WalletError::InsufficientFunds))
    }
}

/// What a dispute does: an unknown transaction id is refused; a record not in
/// status `New` propagates the record's refusal; otherwise the deposit's
/// amount moves from `available` to `held` and the record becomes `Disputed`.
pub open spec fn spec_dispute(w: WalletView, tx: TransactionId) -> (WalletView, Result<
    (),
    WalletError,
>) {
    if !w.log.contains_key(tx) {
        (w, Err(WalletError::InexistentTransaction))
    } else {
        let stepped = spec_set_disputed(w.log[tx]);
        match stepped.1 {
            Ok(u) => (
                WalletView {
                    available: w.available - stepped.0.amount,
                    held: w.held + stepped.0.amount,
                    log: w.log.insert(tx, stepped.0),
                    ..w
                },
                Ok(()),
            ),
            Err(e) => (w, Err(WalletError::DepositLogError(e))),
        }
    }
}

/// What a resolve does: the disputed amount moves back from `held` to
/// `available` and the record becomes `Resolved`; failures change nothing.
pub open spec fn spec_resolve(w: WalletView, tx: TransactionId) -> (WalletView, Result<
    (),
    WalletError,
>) {
    if !w.log.contains_key(tx) {
        (w, Err(WalletError::InexistentTransaction))
    } else {
        let stepped = spec_set_resolved(w.log[tx]);
        match stepped.1 {
            Ok(u) => (
                WalletView {
                    available: w.available + stepped.0.amount,
                    held: w.held - stepped.0.amount,
                    log: w.log.insert(tx, stepped.0),
                    ..w
                },
                Ok(()),
            ),
            Err(e) => (w, Err(WalletError::DepositLogError(e))),
        }
    }
}

/// What a chargeback does: the disputed amount leaves `held` for good, the
/// account is frozen, and the record becomes `Chargedback`; failures change
/// nothing.
pub open spec fn spec_chargeback(w: WalletView, tx: TransactionId) -> (WalletView, Result<
    (),
    WalletError,
>) {
    if !w.log.contains_key(tx) {
        (w, Err(WalletError::InexistentTransaction))
    } else {
        let stepped = spec_set_chargedback(w.log[tx]);
        match stepped.1 {
            Ok(u) => (
                WalletView {
                    held: w.held - stepped.0.amount,
                    locked: true,
                    log: w.log.insert(tx, stepped.0),
                    ..w
                },
                Ok(()),
            ),
            Err(e) => (w, Err(WalletError::DepositLogError(e))),
        }
    }
}

impl Default for Wallet {
    /// The empty, unlocked wallet with no recorded deposit.
    fn default() -> (r: Wallet)
        ensures
            r@ == empty_wallet(),
    {
        let r = Wallet {
            available: Amount::zero(),
            held: Amount::zero(),
            locked: false,
            deposit_log: HashMap::new(),
        };
        proof {
            assert(r@ =~~= empty_wallet());
        }
        r
    }
}

impl Wallet {
    /// Total balance stays representable under every operation below.
    pub open spec fn wf(self) -> bool {
        wallet_wf(self@)
    }

    /// Applies a deposit: refused if `tx` is already on record, otherwise
    /// `available` grows by `amount` and a `New` record is created.
    pub fn deposit(&mut self, tx: TransactionId, amount: Amount) -> (r: Result<(), WalletError>)
        requires
            deposit_fits(old(self)@, tx, amount@),
        ensures
            final(self)@ == spec_deposit(old(self)@, tx, amount@).0,
            r == spec_deposit(old(self)@, tx, amount@).1,
    {
        if self.deposit_log.contains_key(&tx) {
            Err(WalletError::DepositIdExists)
        } else {
            self.deposit_log.insert(tx, DepositLog::new(amount));
            self.available = Amount { units: self.available.units + amount.units };
            proof {
                assert(self@ =~~= spec_deposit(old(self)@, tx, amount@).0);
            }
            Ok(())
        }
    }

    /// Applies a withdrawal: refused when available funds are insufficient,
    /// otherwise `available` shrinks by `amount`. The withdrawal's own id is
    /// not recorded: withdrawals are not disputable.
    pub fn withdraw(&mut self, _tx: TransactionId, amount: Amount) -> (r: Result<(), WalletError>)
        requires
            withdraw_fits(old(self)@, amount@),
        ensures
            final(self)@ == spec_withdraw(old(self)@, amount@).0,
            r == spec_withdraw(old(self)@, amount@).1,
    {
        if self.available.units >= amount.units {
            self.available = Amount { units: self.available.units - amount.units };
            proof {
                assert(self@ =~~= spec_withdraw(old(self)@, amount@).0);
            }
            Ok(())
        } else {
            Err(WalletError::InsufficientFunds)
        }
    }

    /// Applies a dispute: moves the referenced deposit's amount from
    /// `available` to `held` when the record lets itself be marked disputed.
    pub fn dispute(&mut self, tx: TransactionId) -> (r: Result<(), WalletError>)
        requires
            dispute_fits(old(self)@, tx),
        ensures
            final(self)@ == spec_dispute(old(self)@, tx).0,
            r == spec_dispute(old(self)@, tx).1,
    {
        match self.deposit_log.get(&tx) {
            None => Err(WalletError::InexistentTransaction),
            Some(found) => {
                let mut entry = *found;
                match entry.set_disputed() {
                    Ok(()) => {
                        let amount = entry.get_amount();
                        self.deposit_log.insert(tx, entry);
                        self.available = Amount { units: self.available.units - amount.units };
                        self.held = Amount { units: self.held.units + amount.units };
                        proof {
                            assert(self@ =~~= spec_dispute(old(self)@, tx).0);
                        }
                        Ok(())
                    },
                    Err(e) => Err(WalletError::DepositLogError(e)),
                }
            },
        }
    }

    /// Applies a resolve: moves the disputed amount back from `held` to
    /// `available` when the record lets itself be marked resolved.
    pub fn resolve(&mut self, tx: TransactionId) -> (r: Result<(), WalletError>)
        requires
            resolve_fits(old(self)@, tx),
        ensures
            final(self)@ == spec_resolve(old(self)@, tx).0,
            r == spec_resolve(old(self)@, tx).1,
    {
        match self.deposit_log.get(&tx) {
            None => Err(WalletError::InexistentTransaction),
            Some(found) => {
                let mut entry = *found;
                match entry.set_resolved() {
                    Ok(()) => {
                        let amount = entry.get_amount();
                        self.deposit_log.insert(tx, entry);
                        self.available = Amount { units: self.available.units + amount.units };
                        self.held = Amount { units: self.held.units - amount.units };
                        proof {
                            assert(self@ =~~= spec_resolve(old(self)@, tx).0);
                        }
                        Ok(())
                    },
                    Err(e) => Err(WalletError::DepositLogError(e)),
                }
            },
        }
    }

    /// Applies a chargeback: removes the disputed amount from `held` for good
    /// and freezes the account when the record lets itself be marked charged
    /// back.
    pub fn chargeback(&mut self, tx: TransactionId) -> (r: Result<(), WalletError>)
        requires
            chargeback_fits(old(self)@, tx),
        ensures
            final(self)@ == spec_chargeback(old(self)@, tx).0,
            r == spec_chargeback(old(self)@, tx).1,
    {
        match self.deposit_log.get(&tx) {
            None => Err(WalletError::InexistentTransaction),
            Some(found) => {
                let mut entry = *found;
                match entry.set_chargedback() {
                    Ok(()) => {
                        let amount = entry.get_amount();
                        self.deposit_log.insert(tx, entry);
                        self.held = Amount { units: self.held.units - amount.units };
                        self.locked = true;
                        proof {
                            assert(self@ =~~= spec_chargeback(old(self)@, tx).0);
                        }
                        Ok(())
                    },
                    Err(e) => Err(WalletError::DepositLogError(e)),
                }
            },
        }
    }

    /// Funds usable for withdrawal.
    pub fn get_available(&self) -> (r: Amount)
        ensures
            r@ == self@.available,
    {
        self.available
    }

    /// Funds frozen under active dispute.
    pub fn get_held(&self) -> (r: Amount)
        ensures
            r@ == self@.held,
    {
        self.held
    }

    /// The externally reported balance: exactly `available + held`.
    pub fn get_total(&self) -> (r: Amount)
        requires
            self.wf(),
        ensures
            r@ == self@.available + self@.held,
    {
        Amount { units: self.available.units + self.held.units }
    }

    /// Whether a chargeback has frozen this account.
    pub fn get_locked_status(&self) -> (r: bool)
        ensures
            r == self@.locked,
    {
        self.locked
    }

    /// The recorded deposit for `tx`, if there is one.
    pub fn get_deposit(&self, tx: TransactionId) -> (r: Option<DepositLog>)
        ensures
            match r {
                Some(d) => self@.log.contains_key(tx) && d@ == self@.log[tx],
                None => !self@.log.contains_key(tx),
            },
    {
        match self.deposit_log.get(&tx) {
            Some(found) => Some(*found),
            None => None,
        }
    }
}

/// Re-applying a deposit whose transaction id was already used fails and
/// changes nothing, whatever amount the replay carries.
pub proof fn lemma_duplicate_deposit_changes_nothing(w: WalletView, tx: TransactionId, amount: int)
    requires
        w.log.contains_key(tx),
    ensures
        spec_deposit(w, tx, amount).0 == w,
        spec_deposit(w, tx, amount).1 == Result::<(), WalletError>::Err(
            WalletError::DepositIdExists,
        ),
{
}

/// A withdrawal never brings `available` below zero: whenever it succeeds,
/// the remaining available balance is at least zero.
pub proof fn lemma_withdraw_never_overdraws(w: WalletView, amount: int)
    ensures
        spec_withdraw(w, amount).1 == Result::<(), WalletError>::Ok(()) ==> spec_withdraw(
            w,
            amount,
        ).0.available >= 0,
{
}

/// A dispute, resolve or chargeback that references an unknown transaction id
/// fails and changes nothing.
pub proof fn lemma_unknown_transaction_changes_nothing(w: WalletView, tx: TransactionId)
    requires
        !w.log.contains_key(tx),
    ensures
        spec_dispute(w, tx).0 == w,
        spec_dispute(w, tx).1 == Result::<(), WalletError>::Err(WalletError::InexistentTransaction),
        spec_resolve(w, tx).0 == w,
        spec_resolve(w, tx).1 == Result::<(), WalletError>::Err(WalletError::InexistentTransaction),
        spec_chargeback(w, tx).0 == w,
        spec_chargeback(w, tx).1 == Result::<(), WalletError>::Err(
            WalletError::InexistentTransaction,
        ),
{
}

/// The amount of a deposit already on record is never changed by any wallet
/// operation: records only ever gain a new entry or change status.
pub proof fn lemma_recorded_amounts_never_change(
    w: WalletView,
    tx: TransactionId,
    amount: int,
    t: TransactionId,
)
    requires
        w.log.contains_key(t),
    ensures
        spec_deposit(w, tx, amount).0.log.contains_key(t),
        spec_deposit(w, tx, amount).0.log[t].amount == w.log[t].amount,
        spec_withdraw(w, amount).0.log.contains_key(t),
        spec_withdraw(w, amount).0.log[t].amount == w.log[t].amount,
        spec_dispute(w, tx).0.log.contains_key(t),
        spec_dispute(w, tx).0.log[t].amount == w.log[t].amount,
        spec_resolve(w, tx).0.log.contains_key(t),
        spec_resolve(w, tx).0.log[t].amount == w.log[t].amount,
        spec_chargeback(w, tx).0.log.contains_key(t),
        spec_chargeback(w, tx).0.log[t].amount == w.log[t].amount,
{
}

/// Replaying an identical dispute after it succeeded once fails, because the
/// record is no longer `New`, and leaves the wallet unchanged.
pub proof fn lemma_replayed_dispute_fails(w: WalletView, tx: TransactionId)
    requires
        spec_dispute(w, tx).1 == Result::<(), WalletError>::Ok(()),
    ensures
        spec_dispute(spec_dispute(w, tx).0, tx).0 == spec_dispute(w, tx).0,
        spec_dispute(spec_dispute(w, tx).0, tx).1 == Result::<(), WalletError>::Err(
            WalletError::DepositLogError(DepositLogError::CantDispute),
        ),
{
}

/// Applying the same failing operation twice has the effect of applying it
/// once: a failing operation leaves the wallet exactly as it was, so the
/// replay fails the same way.
pub proof fn lemma_failed_operations_change_nothing(w: WalletView, tx: TransactionId, amount: int)
    ensures
        spec_deposit(w, tx, amount).1 != Result::<(), WalletError>::Ok(()) ==> spec_deposit(
            w,
            tx,
            amount,
        ).0 == w,
        spec_withdraw(w, amount).1 != Result::<(), WalletError>::Ok(()) ==> spec_withdraw(
            w,
            amount,
        ).0 == w,
        spec_dispute(w, tx).1 != Result::<(), WalletError>::Ok(()) ==> spec_dispute(w, tx).0 == w,
        spec_resolve(w, tx).1 != Result::<(), WalletError>::Ok(()) ==> spec_resolve(w, tx).0 == w,
        spec_chargeback(w, tx).1 != Result::<(), WalletError>::Ok(()) ==> spec_chargeback(
            w,
            tx,
        ).0 == w,
{
}

/// The contribution of each record of `log` to the disputed total: its
/// amount while it is `Disputed`, nothing otherwise.
pub open spec fn disputed_amount_of(log: Map<TransactionId, DepositLogView>) -> spec_fn(
    TransactionId,
) -> int {
    |tx: TransactionId|
        if log[tx].status == DepositStatus::Disputed {
            log[tx].amount
        } else {
            0
        }
}

/// The sum of the amounts of the currently disputed deposits in `log`.
pub open spec fn disputed_total(log: Map<TransactionId, DepositLogView>) -> int {
    sum_over(log.dom(), disputed_amount_of(log))
}

/// The `held` balance tracks exactly the sum of the currently disputed
/// deposit amounts of the account.
pub open spec fn held_tracks_disputes(w: WalletView) -> bool {
    &&& w.log.dom().finite()
    &&& w.held == disputed_total(w.log)
}

/// The tracking invariant holds of a wallet no transaction has touched.
pub proof fn lemma_empty_wallet_tracks_disputes()
    ensures
        held_tracks_disputes(empty_wallet()),
{
    let log = Map::<TransactionId, DepositLogView>::empty();
    assert(log.dom() =~= Set::<TransactionId>::empty());
    lemma_sum_over_empty(disputed_amount_of(log));
}

/// Overwriting one record with one of the same amount shifts the disputed
/// total by exactly the difference of the two records' contributions.
proof fn lemma_status_update_shifts_disputed_total(
    log: Map<TransactionId, DepositLogView>,
    tx: TransactionId,
    d2: DepositLogView,
)
    requires
        log.dom().finite(),
        log.contains_key(tx),
    ensures
        disputed_total(log.insert(tx, d2)) == disputed_total(log) - disputed_amount_of(log)(tx)
            + disputed_amount_of(log.insert(tx, d2))(tx),
{
    let log2 = log.insert(tx, d2);
    assert(log2.dom() =~= log.dom());
    lemma_sum_over_remove(log.dom(), disputed_amount_of(log), tx);
    lemma_sum_over_remove(log.dom(), disputed_amount_of(log2), tx);
    assert forall|a: TransactionId| #[trigger] log.dom().remove(tx).contains(a) implies
        disputed_amount_of(log2)(a) == disputed_amount_of(log)(a) by {
        assert(log2[a] == log[a]);
    }
    lemma_sum_over_congruence(
        log.dom().remove(tx),
        disputed_amount_of(log2),
        disputed_amount_of(log),
    );
}

/// Every operation keeps the tracking invariant: `held` still equals the sum
/// of the disputed amounts afterwards, however the operation turned out.
pub proof fn lemma_operations_keep_held_tracking(w: WalletView, tx: TransactionId, amount: int)
    requires
        held_tracks_disputes(w),
    ensures
        held_tracks_disputes(spec_deposit(w, tx, amount).0),
        held_tracks_disputes(spec_withdraw(w, amount).0),
        held_tracks_disputes(spec_dispute(w, tx).0),
        held_tracks_disputes(spec_resolve(w, tx).0),
        held_tracks_disputes(spec_chargeback(w, tx).0),
{
    if !w.log.contains_key(tx) {
        // the deposit records a fresh entry whose status is `New`: it
        // contributes nothing to the disputed total
        let log2 = w.log.insert(tx, DepositLogView { amount, status: DepositStatus::New });
        assert(log2.dom() =~= w.log.dom().insert(tx));
        lemma_sum_over_insert(w.log.dom(), disputed_amount_of(log2), tx);
        assert forall|a: TransactionId| #[trigger] w.log.dom().contains(a) implies
            disputed_amount_of(log2)(a) == disputed_amount_of(w.log)(a) by {
            assert(log2[a] == w.log[a]);
        }
        lemma_sum_over_congruence(w.log.dom(), disputed_amount_of(log2), disputed_amount_of(w.log));
    } else {
        // a dispute, resolve or chargeback rewrites one record, keeping its
        // amount; the disputed total shifts by that record's contribution
        lemma_status_update_shifts_disputed_total(w.log, tx, spec_set_disputed(w.log[tx]).0);
        lemma_status_update_shifts_disputed_total(w.log, tx, spec_set_resolved(w.log[tx]).0);
        lemma_status_update_shifts_disputed_total(w.log, tx, spec_set_chargedback(w.log[tx]).0);
    }
}

/// Every operation keeps the wallet well formed, granted its machine-range
/// guard: the total balance stays representable.
pub proof fn lemma_operations_preserve_wf(w: WalletView, tx: TransactionId, amount: int)
    requires
        wallet_wf(w),
    ensures
        deposit_fits(w, tx, amount) ==> wallet_wf(spec_deposit(w, tx, amount).0),
        withdraw_fits(w, amount) ==> wallet_wf(spec_withdraw(w, amount).0),
        dispute_fits(w, tx) ==> wallet_wf(spec_dispute(w, tx).0),
        resolve_fits(w, tx) ==> wallet_wf(spec_resolve(w, tx).0),
        chargeback_fits(w, tx) ==> wallet_wf(spec_chargeback(w, tx).0),
{
}

} // verus!
