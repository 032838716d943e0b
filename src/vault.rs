use vstd::prelude::*;

use crate::error::VaultError;
use crate::identity::{anonymous_bytes, Address, AddressView, UserId};
use crate::registry::{credit_error, credited, debit_error, debited, DetailView, State};

verus! {

/// A transfer the ledger is asked to make on a user's behalf.
#[derive(Debug)]
pub struct TransferRequest {
    /// The vault subaccount the funds leave from: the user's deposit subaccount.
    pub from_subaccount: [u8; 32],
    /// Where the funds go.
    pub to: Address,
    /// What arrives at `to`: the withdrawn amount less the fee.
    pub amount: u128,
    /// What the ledger keeps.
    pub fee: u128,
}

/// The mathematical content of a transfer request.
pub struct TransferRequestView {
    pub from_subaccount: Seq<u8>,
    pub to: AddressView,
    pub amount: u128,
    pub fee: u128,
}

impl View for TransferRequest {
    type V = TransferRequestView;

    open spec fn view(&self) -> TransferRequestView {
        TransferRequestView {
            from_subaccount: self.from_subaccount@,
            to: self.to@,
            amount: self.amount,
            fee: self.fee,
        }
    }
}

/// How a transfer request ended.
#[derive(Debug, Clone, Copy, PartialEq, Eq, Structural)]
pub enum TransferOutcome {
    /// The ledger made the transfer.
    Completed,
    /// The request got no definitive answer (the ledger was unreachable, or
    /// its reply could not be read).
    Unreachable,
    /// The ledger refused the transfer; nothing moved.
    Rejected,
}

/// Why the deposit step for `u` fails, if it does, when the ledger reports
/// `observed` at the deposit address.
pub open spec fn deposit_error(m: Map<Seq<u8>, DetailView>, u: Seq<u8>, observed: u128) -> Option<VaultError> {
    if u == anonymous_bytes() {
        Some(VaultError::AnonymousCaller)
    } else {
        credit_error(m, u, observed)
    }
}

/// Why a withdrawal of `amount` by `u` is refused before anything is sent, if it is.
pub open spec fn withdraw_error(m: Map<Seq<u8>, DetailView>, u: Seq<u8>, amount: u128, fee: u128) -> Option<VaultError> {
    if u == anonymous_bytes() {
        Some(VaultError::AnonymousCaller)
    } else if debit_error(m, u, amount) is Some {
        debit_error(m, u, amount)
    } else if amount < fee {
        Some(VaultError::AmountBelowFee)
    } else {
        None
    }
}

/// The transfer that a withdrawal of `amount` by `u` asks of the ledger.
pub open spec fn withdraw_request(
    m: Map<Seq<u8>, DetailView>,
    u: Seq<u8>,
    amount: u128,
    to: AddressView,
    fee: u128,
) -> TransferRequestView {
    TransferRequestView {
        from_subaccount: m[u].deposit_address.subaccount,
        to,
        amount: (amount - fee) as u128,
        fee,
    }
}

/// A user without an account can neither deposit nor withdraw: both fail with
/// `NotRegistered` (the anonymous identity is refused earlier, as
/// `AnonymousCaller`).
pub proof fn lemma_unregistered_refused(
    m: Map<Seq<u8>, DetailView>,
    u: Seq<u8>,
    observed: u128,
    amount: u128,
    fee: u128,
)
    requires
        !m.contains_key(u),
        u != anonymous_bytes(),
    ensures
        deposit_error(m, u, observed) == Some(VaultError::NotRegistered),
        withdraw_error(m, u, amount, fee) == Some(VaultError::NotRegistered),
{
}

/// A withdrawal of more than the cached balance fails with
/// `InsufficientBalance`; one that passes leaves a balance that is the old one
/// less the amount, never below zero.
pub proof fn lemma_no_overdraft(m: Map<Seq<u8>, DetailView>, u: Seq<u8>, amount: u128, fee: u128)
    requires
        m.contains_key(u),
        u != anonymous_bytes(),
    ensures
        amount > m[u].amount ==> withdraw_error(m, u, amount, fee) == Some(VaultError::InsufficientBalance),
        withdraw_error(m, u, amount, fee) is None ==> debited(m, u, amount)[u].amount == m[u].amount - amount
            >= 0,
{
}

/// Compensation undoes the debit: right after a withdrawal is started, crediting
/// the amount back cannot fail and restores every account exactly.
pub proof fn lemma_compensation_restores(m: Map<Seq<u8>, DetailView>, u: Seq<u8>, amount: u128, fee: u128)
    requires
        withdraw_error(m, u, amount, fee) is None,
    ensures
        credit_error(debited(m, u, amount), u, amount) is None,
        credited(debited(m, u, amount), u, amount) == m,
{
    assert(credited(debited(m, u, amount), u, amount) =~= m);
}

/// Two withdrawals for one user whose amounts together exceed the cached
/// balance cannot both be started: whichever comes second sees the balance
/// already debited by the first and fails with `InsufficientBalance`.
pub proof fn lemma_no_double_spend(m: Map<Seq<u8>, DetailView>, u: Seq<u8>, x: u128, y: u128, fee: u128)
    requires
        m.contains_key(u),
        x + y > m[u].amount,
    ensures
        withdraw_error(m, u, x, fee) is None ==> withdraw_error(debited(m, u, x), u, y, fee)
            == Some(VaultError::InsufficientBalance),
        withdraw_error(m, u, y, fee) is None ==> withdraw_error(debited(m, u, y), u, x, fee)
            == Some(VaultError::InsufficientBalance),
{
}

/// The address whose ledger balance the deposit step needs: the caller's
/// deposit address.
pub fn begin_deposit(state: &State, caller: &UserId) -> (r: Result<Address, VaultError>)
    requires
        state.wf(),
    ensures
        caller@ == anonymous_bytes() ==> r == Err::<Address, VaultError>(VaultError::AnonymousCaller),
        caller@ != anonymous_bytes() && !state@.contains_key(caller@)
            ==> r == Err::<Address, VaultError>(VaultError::NotRegistered),
        caller@ != anonymous_bytes() && state@.contains_key(caller@)
            ==> (r matches Ok(a) && a@ == state@[caller@].deposit_address),
{
    if caller.is_anonymous() {
        return Err(VaultError::AnonymousCaller);
    }
    match state.get(caller) {
        None => Err(VaultError::NotRegistered),
        Some(d) => Ok(d.deposit_address),
    }
}

/// Folds the balance that the ledger reports at the caller's deposit address
/// into the cached balance, and returns it.
pub fn deposit(state: &mut State, caller: &UserId, observed: u128) -> (r: Result<u128, VaultError>)
    requires
        old(state).wf(),
    ensures
        final(state).wf(),
        final(state).spec_fee() == old(state).spec_fee(),
        match deposit_error(old(state)@, caller@, observed) {
            Some(e) => r == Err::<u128, VaultError>(e) && final(state)@ == old(state)@,
            None => r == Ok::<u128, VaultError>(observed)
                && final(state)@ == credited(old(state)@, caller@, observed),
        },
{
    if caller.is_anonymous() {
        return Err(VaultError::AnonymousCaller);
    }
    match state.credit(caller, observed) {
        Ok(_) => Ok(observed),
        Err(e) => Err(e),
    }
}

/// Starts a withdrawal: checks it, debits the cached balance at once (so that
/// a concurrent withdrawal sees the reduced balance) and returns the transfer
/// to ask of the ledger. The fee comes out of `amount`.
pub fn withdraw(state: &mut State, caller: &UserId, amount: u128, to: Address) -> (r: Result<TransferRequest, VaultError>)
    requires
        old(state).wf(),
    ensures
        final(state).wf(),
        final(state).spec_fee() == old(state).spec_fee(),
        match withdraw_error(old(state)@, caller@, amount, old(state).spec_fee()) {
            Some(e) => r == Err::<TransferRequest, VaultError>(e) && final(state)@ == old(state)@,
            None => (r matches Ok(req)
                && req@ == withdraw_request(old(state)@, caller@, amount, to@, old(state).spec_fee()))
                && final(state)@ == debited(old(state)@, caller@, amount),
        },
{
    if caller.is_anonymous() {
        return Err(VaultError::AnonymousCaller);
    }
    let fee = state.fee();
    let detail = match state.get(caller) {
        None => return Err(VaultError::NotRegistered),
        Some(d) => d,
    };
    if amount > detail.amount {
        return Err(VaultError::InsufficientBalance);
    }
    if amount < fee {
        return Err(VaultError::AmountBelowFee);
    }
    match state.debit(caller, amount) {
        Ok(_) => {},
        Err(e) => return Err(e),
    }
    Ok(TransferRequest {
        from_subaccount: detail.deposit_address.subaccount,
        to,
        amount: amount - fee,
        fee,
    })
}

/// Ends a withdrawal of `amount` once the ledger has answered. A completed
/// transfer leaves the debit in place; a failed one is compensated by
/// crediting `amount` back, exactly once, before the failure is reported.
pub fn settle_withdraw(state: &mut State, caller: &UserId, amount: u128, outcome: TransferOutcome) -> (r: Result<bool, VaultError>)
    requires
        old(state).wf(),
        outcome != TransferOutcome::Completed ==> credit_error(old(state)@, caller@, amount) is None,
    ensures
        final(state).wf(),
        final(state).spec_fee() == old(state).spec_fee(),
        outcome == TransferOutcome::Completed ==> r == Ok::<bool, VaultError>(true)
            && final(state)@ == old(state)@,
        outcome == TransferOutcome::Unreachable ==> r == Err::<bool, VaultError>(VaultError::TransferFailed)
            && final(state)@ == credited(old(state)@, caller@, amount),
        outcome == TransferOutcome::Rejected ==> r == Err::<bool, VaultError>(VaultError::LedgerRejected)
            && final(state)@ == credited(old(state)@, caller@, amount),
{
    match outcome {
        TransferOutcome::Completed => Ok(true),
        TransferOutcome::Unreachable => {
            let _ = state.credit(caller, amount);
            Err(VaultError::TransferFailed)
        },
        TransferOutcome::Rejected => {
            let _ = state.credit(caller, amount);
            Err(VaultError::LedgerRejected)
        },
    }
}

} // verus!
