use vstd::prelude::*;

verus! {

/// Every way a vault request can end without effect (or, for the two transfer
/// failures, with its debit already compensated).
#[derive(Debug, Clone, Copy, PartialEq, Eq, Structural)]
pub enum VaultError {
    /// The caller is the anonymous identity, which may not hold an account.
    AnonymousCaller,
    /// The caller already has an account.
    AlreadyRegistered,
    /// The caller has no account.
    NotRegistered,
    /// The requested withdrawal exceeds the cached balance.
    InsufficientBalance,
    /// The identifier does not fit in a 32-byte subaccount.
    MalformedIdentifier,
    /// The requested withdrawal does not cover the ledger fee.
    AmountBelowFee,
    /// Crediting the cached balance would exceed the largest representable amount.
    BalanceOverflow,
    /// The transfer request never got a definitive answer from the ledger.
    TransferFailed,
    /// The ledger answered the transfer request with an error; nothing moved.
    LedgerRejected,
}

} // verus!
