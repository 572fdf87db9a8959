//! A verified transaction-application engine for per-client account ledgers:
//! exact fixed-point money, the dispute lifecycle of deposits, per-account
//! balance rules, and a registry that applies an ordered transaction stream
//! and reports every account's balances.

pub mod amount;
pub mod sums;
pub mod deposit_log;
pub mod transaction;
pub mod transaction_record;
pub mod wallet;
pub mod ledger;
