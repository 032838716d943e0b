use icvault::{
    begin_deposit, deposit, principal_to_subaccount, query_detail, register, settle_withdraw,
    withdraw, Address, State, TransferOutcome, UserId, VaultError, FEE,
};

fn user(bytes: &[u8]) -> UserId {
    UserId { bytes: bytes.to_vec() }
}

fn anonymous() -> UserId {
    user(&[4])
}

fn dest() -> Address {
    Address { owner: user(&[9, 9, 1]), subaccount: [0u8; 32] }
}

fn amount_of(state: &State, u: &UserId) -> u128 {
    query_detail(state, u).unwrap().amount
}

#[test]
fn subaccount_pads_with_zeros() {
    let s = principal_to_subaccount(&user(&[1, 2, 3])).unwrap();
    let mut expected = [0u8; 32];
    expected[0] = 1;
    expected[1] = 2;
    expected[2] = 3;
    assert_eq!(s, expected);
}

#[test]
fn subaccount_is_deterministic() {
    let u = user(&[10, 20, 30, 1]);
    assert_eq!(principal_to_subaccount(&u).unwrap(), principal_to_subaccount(&u).unwrap());
}

#[test]
fn subaccounts_of_distinct_users_differ() {
    let a = principal_to_subaccount(&user(&[5, 1])).unwrap();
    let b = principal_to_subaccount(&user(&[5, 2])).unwrap();
    let c = principal_to_subaccount(&user(&[5, 0, 1])).unwrap();
    assert_ne!(a, b);
    assert_ne!(a, c);
}

#[test]
fn subaccount_of_full_length_identifier() {
    let bytes: Vec<u8> = (1..=32).collect();
    let s = principal_to_subaccount(&user(&bytes)).unwrap();
    assert_eq!(s.to_vec(), bytes);
}

#[test]
fn oversized_identifier_is_malformed() {
    let bytes = vec![7u8; 33];
    assert_eq!(principal_to_subaccount(&user(&bytes)), Err(VaultError::MalformedIdentifier));
    let mut state = State::new();
    assert_eq!(register(&mut state, &user(&bytes)), Err(VaultError::MalformedIdentifier));
    assert!(query_detail(&state, &user(&bytes)).is_none());
}

#[test]
fn unregistered_user_is_refused() {
    let mut state = State::new();
    let u = user(&[1, 1]);
    assert!(query_detail(&state, &u).is_none());
    assert_eq!(begin_deposit(&state, &u).unwrap_err(), VaultError::NotRegistered);
    assert_eq!(deposit(&mut state, &u, 50), Err(VaultError::NotRegistered));
    assert_eq!(withdraw(&mut state, &u, 20_000, dest()).unwrap_err(), VaultError::NotRegistered);
    assert!(query_detail(&state, &u).is_none());
}

#[test]
fn anonymous_caller_is_refused() {
    let mut state = State::new();
    let anon = anonymous();
    assert_eq!(register(&mut state, &anon), Err(VaultError::AnonymousCaller));
    assert_eq!(begin_deposit(&state, &anon).unwrap_err(), VaultError::AnonymousCaller);
    assert_eq!(deposit(&mut state, &anon, 5), Err(VaultError::AnonymousCaller));
    assert_eq!(withdraw(&mut state, &anon, 5, dest()).unwrap_err(), VaultError::AnonymousCaller);
    assert!(query_detail(&state, &anon).is_none());
}

#[test]
fn tag_four_with_more_bytes_is_not_anonymous() {
    let mut state = State::new();
    assert_eq!(register(&mut state, &user(&[4, 4])), Ok(true));
}

#[test]
fn register_once_then_already_registered() {
    let mut state = State::new();
    let u = user(&[3, 1]);
    assert_eq!(register(&mut state, &u), Ok(true));
    assert_eq!(amount_of(&state, &u), 0);
    assert_eq!(deposit(&mut state, &u, 40), Ok(40));
    assert_eq!(register(&mut state, &u), Err(VaultError::AlreadyRegistered));
    assert_eq!(amount_of(&state, &u), 40);
}

#[test]
fn registered_record_holds_derived_address() {
    let mut state = State::new();
    let u = user(&[8, 6, 1]);
    register(&mut state, &u).unwrap();
    let d = query_detail(&state, &u).unwrap();
    assert_eq!(d.deposit_address.owner.bytes, vec![8, 6, 1]);
    assert_eq!(d.deposit_address.subaccount, principal_to_subaccount(&u).unwrap());
    let a = begin_deposit(&state, &u).unwrap();
    assert_eq!(a.subaccount, d.deposit_address.subaccount);
    assert_eq!(a.owner.bytes, u.bytes);
}

#[test]
fn users_do_not_interfere() {
    let mut state = State::with_fee(1);
    let a = user(&[1, 1]);
    let b = user(&[2, 1]);
    register(&mut state, &a).unwrap();
    register(&mut state, &b).unwrap();
    deposit(&mut state, &a, 70).unwrap();
    deposit(&mut state, &b, 30).unwrap();
    withdraw(&mut state, &a, 20, dest()).unwrap();
    assert_eq!(amount_of(&state, &a), 50);
    assert_eq!(amount_of(&state, &b), 30);
    assert_ne!(
        query_detail(&state, &a).unwrap().deposit_address.subaccount,
        query_detail(&state, &b).unwrap().deposit_address.subaccount
    );
}

#[test]
fn deposits_add_up() {
    let mut state = State::new();
    let u = user(&[6, 1]);
    register(&mut state, &u).unwrap();
    assert_eq!(deposit(&mut state, &u, 500), Ok(500));
    assert_eq!(deposit(&mut state, &u, 0), Ok(0));
    assert_eq!(deposit(&mut state, &u, 25), Ok(25));
    assert_eq!(amount_of(&state, &u), 525);
}

#[test]
fn deposit_overflow_is_refused() {
    let mut state = State::new();
    let u = user(&[6, 2]);
    register(&mut state, &u).unwrap();
    assert_eq!(deposit(&mut state, &u, u128::MAX), Ok(u128::MAX));
    assert_eq!(deposit(&mut state, &u, 1), Err(VaultError::BalanceOverflow));
    assert_eq!(amount_of(&state, &u), u128::MAX);
}

#[test]
fn default_fee_is_ledger_fee() {
    let state = State::new();
    assert_eq!(state.fee(), FEE);
    assert_eq!(FEE, 10_000);
    assert_eq!(State::with_fee(10).fee(), 10);
}

#[test]
fn withdraw_below_fee_is_refused() {
    let mut state = State::with_fee(10);
    let u = user(&[2, 2]);
    register(&mut state, &u).unwrap();
    deposit(&mut state, &u, 100).unwrap();
    assert_eq!(withdraw(&mut state, &u, 9, dest()).unwrap_err(), VaultError::AmountBelowFee);
    assert_eq!(amount_of(&state, &u), 100);
    let req = withdraw(&mut state, &u, 10, dest()).unwrap();
    assert_eq!(req.amount, 0);
    assert_eq!(req.fee, 10);
    assert_eq!(amount_of(&state, &u), 90);
}

#[test]
fn withdraw_more_than_balance_is_refused() {
    let mut state = State::with_fee(10);
    let u = user(&[2, 3]);
    register(&mut state, &u).unwrap();
    deposit(&mut state, &u, 100).unwrap();
    assert_eq!(withdraw(&mut state, &u, 101, dest()).unwrap_err(), VaultError::InsufficientBalance);
    assert_eq!(amount_of(&state, &u), 100);
    let req = withdraw(&mut state, &u, 100, dest()).unwrap();
    assert_eq!(req.amount, 90);
    assert_eq!(amount_of(&state, &u), 0);
    assert_eq!(withdraw(&mut state, &u, 10, dest()).unwrap_err(), VaultError::InsufficientBalance);
    assert_eq!(amount_of(&state, &u), 0);
}

#[test]
fn transport_failure_is_compensated() {
    let mut state = State::with_fee(10);
    let u = user(&[2, 4]);
    register(&mut state, &u).unwrap();
    deposit(&mut state, &u, 100).unwrap();
    withdraw(&mut state, &u, 60, dest()).unwrap();
    assert_eq!(amount_of(&state, &u), 40);
    assert_eq!(
        settle_withdraw(&mut state, &u, 60, TransferOutcome::Unreachable),
        Err(VaultError::TransferFailed)
    );
    assert_eq!(amount_of(&state, &u), 100);
}

#[test]
fn completed_transfer_keeps_debit() {
    let mut state = State::with_fee(10);
    let u = user(&[2, 5]);
    register(&mut state, &u).unwrap();
    deposit(&mut state, &u, 100).unwrap();
    withdraw(&mut state, &u, 60, dest()).unwrap();
    assert_eq!(settle_withdraw(&mut state, &u, 60, TransferOutcome::Completed), Ok(true));
    assert_eq!(amount_of(&state, &u), 40);
}

#[test]
fn concurrent_withdrawals_cannot_both_start() {
    let mut state = State::with_fee(10);
    let u = user(&[2, 6]);
    register(&mut state, &u).unwrap();
    deposit(&mut state, &u, 100).unwrap();
    // Both requests are started before either transfer is answered.
    let first = withdraw(&mut state, &u, 70, dest());
    let second = withdraw(&mut state, &u, 40, dest());
    assert!(first.is_ok());
    assert_eq!(second.unwrap_err(), VaultError::InsufficientBalance);
    assert_eq!(amount_of(&state, &u), 30);
    assert_eq!(settle_withdraw(&mut state, &u, 70, TransferOutcome::Completed), Ok(true));
    assert_eq!(amount_of(&state, &u), 30);
}

#[test]
fn deposit_withdraw_scenario() {
    let mut state = State::with_fee(10);
    let a = user(&[12, 34, 56, 1]);
    assert_eq!(register(&mut state, &a), Ok(true));
    assert_eq!(amount_of(&state, &a), 0);

    let source = begin_deposit(&state, &a).unwrap();
    assert_eq!(source.subaccount, principal_to_subaccount(&a).unwrap());
    assert_eq!(deposit(&mut state, &a, 500), Ok(500));
    assert_eq!(amount_of(&state, &a), 500);

    let req = withdraw(&mut state, &a, 300, dest()).unwrap();
    assert_eq!(req.amount, 290);
    assert_eq!(req.fee, 10);
    assert_eq!(req.to.owner.bytes, dest().owner.bytes);
    assert_eq!(req.to.subaccount, dest().subaccount);
    assert_eq!(req.from_subaccount, principal_to_subaccount(&a).unwrap());
    assert_eq!(settle_withdraw(&mut state, &a, 300, TransferOutcome::Completed), Ok(true));
    assert_eq!(amount_of(&state, &a), 200);

    assert_eq!(withdraw(&mut state, &a, 250, dest()).unwrap_err(), VaultError::InsufficientBalance);
    assert_eq!(amount_of(&state, &a), 200);
}

#[test]
fn ledger_rejection_restores_balance() {
    let mut state = State::with_fee(10);
    let a = user(&[12, 34, 56, 2]);
    register(&mut state, &a).unwrap();
    deposit(&mut state, &a, 500).unwrap();
    let before = amount_of(&state, &a);
    let req = withdraw(&mut state, &a, 100, dest()).unwrap();
    assert_eq!(req.amount, 90);
    assert_eq!(amount_of(&state, &a), before - 100);
    assert_eq!(
        settle_withdraw(&mut state, &a, 100, TransferOutcome::Rejected),
        Err(VaultError::LedgerRejected)
    );
    assert_eq!(amount_of(&state, &a), before);
}
