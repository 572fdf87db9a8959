use vstd::prelude::*;

verus! {

use std::collections::HashMap;

use crate::amount::{Amount, ClientId, TransactionId};
use crate::transaction::Transaction;
use crate::wallet::{
    chargeback_fits, deposit_fits, dispute_fits, empty_wallet, held_tracks_disputes,
    lemma_empty_wallet_tracks_disputes, lemma_operations_keep_held_tracking,
    lemma_operations_preserve_wf, resolve_fits, spec_chargeback, spec_deposit, spec_dispute,
    spec_resolve, spec_withdraw, wallet_wf, withdraw_fits, Wallet, WalletError, WalletView,
};
use crate::deposit_log::DepositStatus;

/// Why the ledger refused to apply a transaction.
#[derive(Clone, Copy, Debug, PartialEq, Eq, Structural)]
pub enum LedgerError {
    /// A non-deposit transaction named a client that has no account; only
    /// deposits may create one.
    InexistentClient(ClientId),
    /// The target account refused the transaction.
    WalletError(WalletError),
    /// Applying the transaction would take a balance outside the machine
    /// range of an `Amount`; the transaction is refused, nothing changes.
    BalanceOutOfRange,
}

/// The full set of accounts: every client's wallet, keyed by client id, plus
/// the order in which accounts were created, for reporting. Accounts are
/// created lazily by deposits and never removed.
#[derive(Debug)]
pub struct Ledger {
    clients: HashMap<ClientId, Wallet>,
    order: Vec<ClientId>,
}

/// The mathematical content of a `Ledger`: the account map and the creation
/// order of the client ids.
#[verifier::ext_equal]
pub struct LedgerView {
    pub accounts: Map<ClientId, WalletView>,
    pub order: Seq<ClientId>,
}

impl View for Ledger {
    type V = LedgerView;

    closed spec fn view(&self) -> LedgerView {
        LedgerView {
            accounts: Map::new(
                |c: ClientId| self.clients@.contains_key(c),
                |c: ClientId| self.clients@[c]@,
            ),
            order: self.order@,
        }
    }
}

/// The state of a ledger before any transaction.
pub open spec fn empty_ledger() -> LedgerView {
    LedgerView { accounts: Map::empty(), order: Seq::empty() }
}

/// A ledger is well formed when the creation order lists exactly the clients
/// that have an account, each once, and every wallet is well formed.
pub open spec fn ledger_wf(l: LedgerView) -> bool {
    &&& l.order.no_duplicates()
    &&& l.order.to_set() == l.accounts.dom()
    &&& forall|c: ClientId| #[trigger] l.accounts.contains_key(c) ==> wallet_wf(l.accounts[c])
}

/// The registry after making sure `client` has an account: untouched if one
/// already exists, else a fresh empty account is appended.
pub open spec fn spec_ensure_client(l: LedgerView, client: ClientId) -> LedgerView {
    if l.accounts.contains_key(client) {
        l
    } else {
        LedgerView {
            accounts: l.accounts.insert(client, empty_wallet()),
            order: l.order.push(client),
        }
    }
}

/// Lifts a wallet's answer to the ledger's.
pub open spec fn spec_wallet_outcome(r: Result<(), WalletError>) -> Result<(), LedgerError> {
    match r {
        Ok(u) => Ok(()),
        Err(e) => Err(LedgerError::WalletError(e)),
    }
}

/// What processing one transaction does to the whole ledger. A deposit
/// creates the target account first if it is missing; every other kind
/// demands an existing account. A transaction whose arithmetic would leave
/// the machine range of balances is refused and changes nothing.
pub open spec fn spec_process(l: LedgerView, t: Transaction) -> (LedgerView, Result<
    (),
    LedgerError,
>) {
    match t {
        Transaction::Deposit { client, tx, amount } => {
            let l1 = spec_ensure_client(l, client);
            let w = l1.accounts[client];
            if !deposit_fits(w, tx, amount@) {
                (l1, Err(LedgerError::BalanceOutOfRange))
            } else {
                let stepped = spec_deposit(w, tx, amount@);
                (
                    LedgerView { accounts: l1.accounts.insert(client, stepped.0), ..l1 },
                    spec_wallet_outcome(stepped.1),
                )
            }
        },
        Transaction::Withdrawal { client, tx, amount } => {
            if !l.accounts.contains_key(client) {
                (l, Err(LedgerError::InexistentClient(client)))
            } else {
                let w = l.accounts[client];
                if !withdraw_fits(w, amount@) {
                    (l, Err(LedgerError::BalanceOutOfRange))
                } else {
                    let stepped = spec_withdraw(w, amount@);
                    (
                        LedgerView { accounts: l.accounts.insert(client, stepped.0), ..l },
                        spec_wallet_outcome(stepped.1),
                    )
                }
            }
        },
        Transaction::Dispute { client, tx } => {
            if !l.accounts.contains_key(client) {
                (l, Err(LedgerError::InexistentClient(client)))
            } else {
                let w = l.accounts[client];
                if !dispute_fits(w, tx) {
                    (l, Err(LedgerError::BalanceOutOfRange))
                } else {
                    let stepped = spec_dispute(w, tx);
                    (
                        LedgerView { accounts: l.accounts.insert(client, stepped.0), ..l },
                        spec_wallet_outcome(stepped.1),
                    )
                }
            }
        },
        Transaction::Resolve { client, tx } => {
            if !l.accounts.contains_key(client) {
                (l, Err(LedgerError::InexistentClient(client)))
            } else {
                let w = l.accounts[client];
                if !resolve_fits(w, tx) {
                    (l, Err(LedgerError::BalanceOutOfRange))
                } else {
                    let stepped = spec_resolve(w, tx);
                    (
                        LedgerView { accounts: l.accounts.insert(client, stepped.0), ..l },
                        spec_wallet_outcome(stepped.1),
                    )
                }
            }
        },
        Transaction::Chargeback { client, tx } => {
            if !l.accounts.contains_key(client) {
                (l, Err(LedgerError::InexistentClient(client)))
            } else {
                let w = l.accounts[client];
                if !chargeback_fits(w, tx) {
                    (l, Err(LedgerError::BalanceOutOfRange))
                } else {
                    let stepped = spec_chargeback(w, tx);
                    (
                        LedgerView { accounts: l.accounts.insert(client, stepped.0), ..l },
                        spec_wallet_outcome(stepped.1),
                    )
                }
            }
        },
    }
}

/// What processing the first `n` transactions of a stream does, in stream
/// order: the ledger after them and the per-transaction outcomes so far.
pub open spec fn spec_process_prefix(l: LedgerView, ts: Seq<Transaction>, n: int) -> (LedgerView,
    Seq<Result<(), LedgerError>>)
    decreases n,
{
    if n <= 0 {
        (l, Seq::empty())
    } else {
        let prev = spec_process_prefix(l, ts, n - 1);
        let stepped = spec_process(prev.0, ts[n - 1]);
        (stepped.0, prev.1.push(stepped.1))
    }
}

/// What processing a whole transaction stream does, in stream order.
pub open spec fn spec_process_all(l: LedgerView, ts: Seq<Transaction>) -> (LedgerView, Seq<
    Result<(), LedgerError>,
>) {
    spec_process_prefix(l, ts, ts.len() as int)
}

/// One line of the final snapshot: a client's balances and frozen flag.
#[derive(Clone, Copy, Debug, PartialEq, Eq, Structural)]
pub struct AccountSummary {
    pub client: ClientId,
    pub available: Amount,
    pub held: Amount,
    pub total: Amount,
    pub locked: bool,
}

/// Whether `s` reports the account of `c` in ledger `l` exactly; the total
/// reported is exactly `available + held`.
pub open spec fn summary_matches(l: LedgerView, c: ClientId, s: AccountSummary) -> bool {
    &&& s.client == c
    &&& l.accounts.contains_key(c)
    &&& s.available@ == l.accounts[c].available
    &&& s.held@ == l.accounts[c].held
    &&& s.total@ == l.accounts[c].available + l.accounts[c].held
    &&& s.locked == l.accounts[c].locked
}

/// A refused transaction leaves the whole ledger exactly as it was, whatever
/// the refusal: failures are visible in the final snapshot only through their
/// absence of effect. In particular a deposit replaying a used transaction
/// id, and a dispute, resolve or chargeback naming an unknown one, change no
/// balance of any account.
pub proof fn lemma_failed_transaction_changes_nothing(l: LedgerView, t: Transaction)
    ensures
        spec_process(l, t).1 != Result::<(), LedgerError>::Ok(()) ==> spec_process(l, t).0 == l,
{
    if spec_process(l, t).1 != Result::<(), LedgerError>::Ok(()) {
        match t {
            Transaction::Deposit { client, tx, amount } => {
                // A first deposit lands in a fresh empty wallet, always fits
                // the machine range and always succeeds; so a failing deposit
                // found an existing account, which it leaves as it was.
                if !l.accounts.contains_key(client) {
                    assert(spec_ensure_client(l, client).accounts[client] == empty_wallet());
                    assert(spec_process(l, t).1 == Result::<(), LedgerError>::Ok(()));
                } else {
                    assert(spec_ensure_client(l, client) == l);
                    if deposit_fits(l.accounts[client], tx, amount@) {
                        assert(l.accounts.insert(
                            client,
                            spec_deposit(l.accounts[client], tx, amount@).0,
                        ) =~= l.accounts);
                        assert(spec_process(l, t).0 =~~= l);
                    }
                }
            },
            Transaction::Withdrawal { client, tx, amount } => {
                if l.accounts.contains_key(client) && withdraw_fits(l.accounts[client], amount@) {
                    assert(l.accounts.insert(client, spec_withdraw(l.accounts[client], amount@).0)
                        =~= l.accounts);
                    assert(spec_process(l, t).0 =~~= l);
                }
            },
            Transaction::Dispute { client, tx } => {
                if l.accounts.contains_key(client) && dispute_fits(l.accounts[client], tx) {
                    assert(l.accounts.insert(client, spec_dispute(l.accounts[client], tx).0)
                        =~= l.accounts);
                    assert(spec_process(l, t).0 =~~= l);
                }
            },
            Transaction::Resolve { client, tx } => {
                if l.accounts.contains_key(client) && resolve_fits(l.accounts[client], tx) {
                    assert(l.accounts.insert(client, spec_resolve(l.accounts[client], tx).0)
                        =~= l.accounts);
                    assert(spec_process(l, t).0 =~~= l);
                }
            },
            Transaction::Chargeback { client, tx } => {
                if l.accounts.contains_key(client) && chargeback_fits(l.accounts[client], tx) {
                    assert(l.accounts.insert(client, spec_chargeback(l.accounts[client], tx).0)
                        =~= l.accounts);
                    assert(spec_process(l, t).0 =~~= l);
                }
            },
        }
    }
}

/// In every reachable ledger, each account's `held` balance is exactly the
/// sum of its currently disputed deposit amounts: the tracking property
/// holds of a fresh account, and processing any transaction preserves it for
/// every account. Together with `lemma_empty_wallet_tracks_disputes` this
/// closes the induction over any transaction stream.
pub proof fn lemma_process_keeps_held_tracking(l: LedgerView, t: Transaction)
    requires
        forall|c: ClientId| #[trigger] l.accounts.contains_key(c) ==> held_tracks_disputes(
            l.accounts[c],
        ),
    ensures
        forall|c: ClientId| #[trigger] spec_process(l, t).0.accounts.contains_key(c)
            ==> held_tracks_disputes(spec_process(l, t).0.accounts[c]),
{
    lemma_empty_wallet_tracks_disputes();
    match t {
        Transaction::Deposit { client, tx, amount } => {
            let l1 = spec_ensure_client(l, client);
            lemma_operations_keep_held_tracking(l1.accounts[client], tx, amount@);
        },
        Transaction::Withdrawal { client, tx, amount } => {
            if l.accounts.contains_key(client) {
                lemma_operations_keep_held_tracking(l.accounts[client], tx, amount@);
            }
        },
        Transaction::Dispute { client, tx } => {
            if l.accounts.contains_key(client) {
                lemma_operations_keep_held_tracking(l.accounts[client], tx, 0);
            }
        },
        Transaction::Resolve { client, tx } => {
            if l.accounts.contains_key(client) {
                lemma_operations_keep_held_tracking(l.accounts[client], tx, 0);
            }
        },
        Transaction::Chargeback { client, tx } => {
            if l.accounts.contains_key(client) {
                lemma_operations_keep_held_tracking(l.accounts[client], tx, 0);
            }
        },
    }
}

/// Creating a missing account keeps the ledger well formed.
proof fn lemma_wf_after_create(l: LedgerView, client: ClientId)
    requires
        ledger_wf(l),
        !l.accounts.contains_key(client),
    ensures
        ledger_wf(spec_ensure_client(l, client)),
{
    broadcast use vstd::seq_lib::group_seq_properties;

    let l2 = spec_ensure_client(l, client);
    assert(!l.order.contains(client)) by {
        if l.order.contains(client) {
            assert(l.order.to_set().contains(client));
        }
    }
    assert(l2.order.no_duplicates()) by {
        assert forall|i: int, j: int|
            0 <= i < l2.order.len() && 0 <= j < l2.order.len() && i != j implies l2.order[i]
            != l2.order[j] by {
            if i < l.order.len() && j < l.order.len() {
            } else if i == l.order.len() {
                assert(l2.order[i] == client);
                if l2.order[j] == client {
                    assert(l.order[j] == client);
                    assert(l.order.contains(client));
                }
            } else {
                assert(l2.order[j] == client);
                if l2.order[i] == client {
                    assert(l.order[i] == client);
                    assert(l.order.contains(client));
                }
            }
        }
    }
    assert(l2.order.to_set() =~= l2.accounts.dom());
}

/// Updating an existing account's wallet to a well-formed one keeps the
/// ledger well formed.
proof fn lemma_wf_after_update(l: LedgerView, client: ClientId, w: WalletView)
    requires
        ledger_wf(l),
        l.accounts.contains_key(client),
        wallet_wf(w),
    ensures
        ledger_wf(LedgerView { accounts: l.accounts.insert(client, w), ..l }),
{
    assert(l.accounts.insert(client, w).dom() =~= l.accounts.dom());
}

impl Ledger {
    /// The order list names exactly the accounts, each once, and every
    /// wallet's total stays representable.
    pub open spec fn wf(self) -> bool {
        ledger_wf(self@)
    }

    /// An empty registry: no client has an account yet.
    pub fn new() -> (r: Ledger)
        ensures
            r@ == empty_ledger(),
            r.wf(),
    {
        let r = Ledger { clients: HashMap::new(), order: Vec::new() };
        proof {
            assert(r@.accounts =~= empty_ledger().accounts);
            assert(r@ =~~= empty_ledger());
            assert(r@.order.to_set() =~= r@.accounts.dom());
        }
        r
    }

    /// Makes sure `client` has an account, creating an empty one if needed.
    /// Only deposits ever call this: the registry's single creation path.
    fn ensure_client_exists(&mut self, client: ClientId)
        requires
            old(self).wf(),
        ensures
            final(self).wf(),
            final(self)@ == spec_ensure_client(old(self)@, client),
            final(self)@.accounts.contains_key(client),
    {
        if !self.clients.contains_key(&client) {
            self.clients.insert(client, Wallet::default());
            self.order.push(client);
            proof {
                assert(self@.accounts =~= old(self)@.accounts.insert(client, empty_wallet()));
                assert(self@ =~~= spec_ensure_client(old(self)@, client));
                lemma_wf_after_create(old(self)@, client);
            }
        }
    }

    /// Whether applying a deposit would keep every balance representable.
    fn deposit_in_range(wallet: &Wallet, tx: TransactionId, amount: Amount) -> (b: bool)
        ensures
            b == deposit_fits(wallet@, tx, amount@),
    {
        if wallet.get_deposit(tx).is_some() {
            true
        } else {
            let avail = wallet.get_available().units as i128;
            let held = wallet.get_held().units as i128;
            let a = amount.units as i128;
            let lo = i64::MIN as i128;
            let hi = i64::MAX as i128;
            lo <= avail + a && avail + a <= hi && lo <= avail + held + a && avail + held + a <= hi
        }
    }

    /// Whether applying a withdrawal would keep every balance representable.
    fn withdraw_in_range(wallet: &Wallet, amount: Amount) -> (b: bool)
        ensures
            b == withdraw_fits(wallet@, amount@),
    {
        if wallet.get_available().units >= amount.units {
            let avail = wallet.get_available().units as i128;
            let held = wallet.get_held().units as i128;
            let a = amount.units as i128;
            let lo = i64::MIN as i128;
            let hi = i64::MAX as i128;
            lo <= avail - a && avail - a <= hi && lo <= avail + held - a && avail + held - a <= hi
        } else {
            true
        }
    }

    /// Whether applying a dispute would keep every balance representable.
    fn dispute_in_range(wallet: &Wallet, tx: TransactionId) -> (b: bool)
        ensures
            b == dispute_fits(wallet@, tx),
    {
        match wallet.get_deposit(tx) {
            None => true,
            Some(d) => {
                if d.get_status() == DepositStatus::New {
                    let avail = wallet.get_available().units as i128;
                    let held = wallet.get_held().units as i128;
                    let a = d.get_amount().units as i128;
                    let lo = i64::MIN as i128;
                    let hi = i64::MAX as i128;
                    lo <= avail - a && avail - a <= hi && lo <= held + a && held + a <= hi
                } else {
                    true
                }
            },
        }
    }

    /// Whether applying a resolve would keep every balance representable.
    fn resolve_in_range(wallet: &Wallet, tx: TransactionId) -> (b: bool)
        ensures
            b == resolve_fits(wallet@, tx),
    {
        match wallet.get_deposit(tx) {
            None => true,
            Some(d) => {
                if d.get_status() == DepositStatus::Disputed {
                    let avail = wallet.get_available().units as i128;
                    let held = wallet.get_held().units as i128;
                    let a = d.get_amount().units as i128;
                    let lo = i64::MIN as i128;
                    let hi = i64::MAX as i128;
                    lo <= avail + a && avail + a <= hi && lo <= held - a && held - a <= hi
                } else {
                    true
                }
            },
        }
    }

    /// Whether applying a chargeback would keep every balance representable.
    fn chargeback_in_range(wallet: &Wallet, tx: TransactionId) -> (b: bool)
        ensures
            b == chargeback_fits(wallet@, tx),
    {
        match wallet.get_deposit(tx) {
            None => true,
            Some(d) => {
                if d.get_status() == DepositStatus::Disputed {
                    let avail = wallet.get_available().units as i128;
                    let held = wallet.get_held().units as i128;
                    let a = d.get_amount().units as i128;
                    let lo = i64::MIN as i128;
                    let hi = i64::MAX as i128;
                    lo <= held - a && held - a <= hi && lo <= avail + held - a && avail + held - a
                        <= hi
                } else {
                    true
                }
            },
        }
    }

    /// Routes one transaction to the target account and applies it. A deposit
    /// creates the account if missing; any other kind fails on an unknown
    /// client. Failures change nothing and never stop the stream.
    pub fn process_transaction(&mut self, transaction: Transaction) -> (r: Result<
        (),
        LedgerError,
    >)
        requires
            old(self).wf(),
        ensures
            final(self).wf(),
            final(self)@ == spec_process(old(self)@, transaction).0,
            r == spec_process(old(self)@, transaction).1,
    {
        match transaction {
            Transaction::Deposit { client, tx, amount } => {
                self.ensure_client_exists(client);
                let ghost l1 = self@;
                let mut wallet = self.clients.remove(&client).unwrap();
                if !Self::deposit_in_range(&wallet, tx, amount) {
                    self.clients.insert(client, wallet);
                    proof {
                        assert(self@.accounts =~= l1.accounts);
                        assert(self@ =~~= l1);
                    }
                    Err(LedgerError::BalanceOutOfRange)
                } else {
                    let res = wallet.deposit(tx, amount);
                    self.clients.insert(client, wallet);
                    proof {
                        let stepped = spec_deposit(l1.accounts[client], tx, amount@);
                        assert(self@.accounts =~= l1.accounts.insert(client, stepped.0));
                        assert(self@ =~~= spec_process(old(self)@, transaction).0);
                        lemma_operations_preserve_wf(l1.accounts[client], tx, amount@);
                        lemma_wf_after_update(l1, client, stepped.0);
                    }
                    match res {
                        Ok(u) => Ok(()),
                        Err(e) => Err(LedgerError::WalletError(e)),
                    }
                }
            },
            Transaction::Withdrawal { client, tx, amount } => {
                if !self.clients.contains_key(&client) {
                    return Err(LedgerError::InexistentClient(client));
                }
                let ghost l1 = self@;
                let mut wallet = self.clients.remove(&client).unwrap();
                if !Self::withdraw_in_range(&wallet, amount) {
                    self.clients.insert(client, wallet);
                    proof {
                        assert(self@.accounts =~= l1.accounts);
                        assert(self@ =~~= l1);
                    }
                    Err(LedgerError::BalanceOutOfRange)
                } else {
                    let res = wallet.withdraw(tx, amount);
                    self.clients.insert(client, wallet);
                    proof {
                        let stepped = spec_withdraw(l1.accounts[client], amount@);
                        assert(self@.accounts =~= l1.accounts.insert(client, stepped.0));
                        assert(self@ =~~= spec_process(old(self)@, transaction).0);
                        lemma_operations_preserve_wf(l1.accounts[client], tx, amount@);
                        lemma_wf_after_update(l1, client, stepped.0);
                    }
                    match res {
                        Ok(u) => Ok(()),
                        Err(e) => Err(LedgerError::WalletError(e)),
                    }
                }
            },
            Transaction::Dispute { client, tx } => {
                if !self.clients.contains_key(&client) {
                    return Err(LedgerError::InexistentClient(client));
                }
                let ghost l1 = self@;
                let mut wallet = self.clients.remove(&client).unwrap();
                if !Self::dispute_in_range(&wallet, tx) {
                    self.clients.insert(client, wallet);
                    proof {
                        assert(self@.accounts =~= l1.accounts);
                        assert(self@ =~~= l1);
                    }
                    Err(LedgerError::BalanceOutOfRange)
                } else {
                    let res = wallet.dispute(tx);
                    self.clients.insert(client, wallet);
                    proof {
                        let stepped = spec_dispute(l1.accounts[client], tx);
                        assert(self@.accounts =~= l1.accounts.insert(client, stepped.0));
                        assert(self@ =~~= spec_process(old(self)@, transaction).0);
                        lemma_operations_preserve_wf(l1.accounts[client], tx, 0);
                        lemma_wf_after_update(l1, client, stepped.0);
                    }
                    match res {
                        Ok(u) => Ok(()),
                        Err(e) => Err(LedgerError::WalletError(e)),
                    }
                }
            },
            Transaction::Resolve { client, tx } => {
                if !self.clients.contains_key(&client) {
                    return Err(LedgerError::InexistentClient(client));
                }
                let ghost l1 = self@;
                let mut wallet = self.clients.remove(&client).unwrap();
                if !Self::resolve_in_range(&wallet, tx) {
                    self.clients.insert(client, wallet);
                    proof {
                        assert(self@.accounts =~= l1.accounts);
                        assert(self@ =~~= l1);
                    }
                    Err(LedgerError::BalanceOutOfRange)
                } else {
                    let res = wallet.resolve(tx);
                    self.clients.insert(client, wallet);
                    proof {
                        let stepped = spec_resolve(l1.accounts[client], tx);
                        assert(self@.accounts =~= l1.accounts.insert(client, stepped.0));
                        assert(self@ =~~= spec_process(old(self)@, transaction).0);
                        lemma_operations_preserve_wf(l1.accounts[client], tx, 0);
                        lemma_wf_after_update(l1, client, stepped.0);
                    }
                    match res {
                        Ok(u) => Ok(()),
                        Err(e) => Err(LedgerError::WalletError(e)),
                    }
                }
            },
            Transaction::Chargeback { client, tx } => {
                if !self.clients.contains_key(&client) {
                    return Err(LedgerError::InexistentClient(client));
                }
                let ghost l1 = self@;
                let mut wallet = self.clients.remove(&client).unwrap();
                if !Self::chargeback_in_range(&wallet, tx) {
                    self.clients.insert(client, wallet);
                    proof {
                        assert(self@.accounts =~= l1.accounts);
                        assert(self@ =~~= l1);
                    }
                    Err(LedgerError::BalanceOutOfRange)
                } else {
                    let res = wallet.chargeback(tx);
                    self.clients.insert(client, wallet);
                    proof {
                        let stepped = spec_chargeback(l1.accounts[client], tx);
                        assert(self@.accounts =~= l1.accounts.insert(client, stepped.0));
                        assert(self@ =~~= spec_process(old(self)@, transaction).0);
                        lemma_operations_preserve_wf(l1.accounts[client], tx, 0);
                        lemma_wf_after_update(l1, client, stepped.0);
                    }
                    match res {
                        Ok(u) => Ok(()),
                        Err(e) => Err(LedgerError::WalletError(e)),
                    }
                }
            },
        }
    }

    /// Consumes a whole transaction stream in strict arrival order. Every
    /// failure is reported in the matching outcome slot and never stops the
    /// processing of later transactions.
    pub fn process_all(&mut self, transactions: &Vec<Transaction>) -> (outcomes: Vec<
        Result<(), LedgerError>,
    >)
        requires
            old(self).wf(),
        ensures
            final(self).wf(),
            final(self)@ == spec_process_all(old(self)@, transactions@).0,
            outcomes@ == spec_process_all(old(self)@, transactions@).1,
    {
        let mut outcomes: Vec<Result<(), LedgerError>> = Vec::new();
        let mut i: usize = 0;
        while i < transactions.len()
            invariant
                self.wf(),
                i <= transactions.len(),
                self@ == spec_process_prefix(old(self)@, transactions@, i as int).0,
                outcomes@ == spec_process_prefix(old(self)@, transactions@, i as int).1,
            decreases transactions.len() - i,
        {
            let outcome = self.process_transaction(transactions[i]);
            outcomes.push(outcome);
            i = i + 1;
        }
        outcomes
    }

    /// The final snapshot: one summary per account ever created, in creation
    /// order, each reporting `available`, `held`, their exact sum as the
    /// total, and the frozen flag.
    pub fn summaries(&self) -> (r: Vec<AccountSummary>)
        requires
            self.wf(),
        ensures
            r@.len() == self@.order.len(),
            forall|i: int|
                0 <= i < r@.len() ==> summary_matches(self@, self@.order[i], #[trigger] r@[i]),
    {
        let mut r: Vec<AccountSummary> = Vec::new();
        let mut i: usize = 0;
        while i < self.order.len()
            invariant
                self.wf(),
                i <= self.order.len(),
                r@.len() == i,
                forall|j: int|
                    0 <= j < i ==> summary_matches(self@, self@.order[j], #[trigger] r@[j]),
            decreases self.order.len() - i,
        {
            let c = self.order[i];
            proof {
                assert(self@.order[i as int] == c);
                assert(self@.order.contains(c));
                assert(self@.order.to_set().contains(c));
                assert(self@.accounts.dom().contains(c));
            }
            let wallet = self.clients.get(&c).unwrap();
            let s = AccountSummary {
                client: c,
                available: wallet.get_available(),
                held: wallet.get_held(),
                total: wallet.get_total(),
                locked: wallet.get_locked_status(),
            };
            r.push(s);
            i = i + 1;
        }
        r
    }
}

impl Default for Ledger {
    /// Same as `Ledger::new`: the empty registry.
    fn default() -> (r: Ledger)
        ensures
            r@ == empty_ledger(),
            r.wf(),
    {
        Ledger::new()
    }
}

} // verus!
