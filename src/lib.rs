//! A custodial balance vault: per-user deposit addresses, a cached balance per
//! user, reconciliation against an external token ledger and withdrawals that
//! debit first and compensate when the ledger transfer fails.
pub mod error;
pub mod identity;
pub mod registry;
pub mod vault;

pub use error::VaultError;
pub use identity::{principal_to_subaccount, Address, UserId};
pub use registry::{query_detail, register, BalanceDetail, State, FEE};
pub use vault::{begin_deposit, deposit, settle_withdraw, withdraw, TransferOutcome, TransferRequest};
