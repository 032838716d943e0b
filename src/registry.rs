use vstd::prelude::*;

use crate::error::VaultError;
use crate::identity::{
    anonymous_bytes, fits_subaccount, principal_to_subaccount, subaccount_of, Address,
    AddressView, UserId,
};

verus! {

/// The fee the ledger charges for one transfer, in its smallest unit.
pub const FEE: u128 = 10_000;

/// One user's record: where deposits arrive and the cached balance.
#[derive(Debug)]
pub struct BalanceDetail {
    pub deposit_address: Address,
    pub amount: u128,
}

/// The mathematical content of a record.
pub struct DetailView {
    pub deposit_address: AddressView,
    pub amount: u128,
}

impl View for BalanceDetail {
    type V = DetailView;

    open spec fn view(&self) -> DetailView {
        DetailView { deposit_address: self.deposit_address@, amount: self.amount }
    }
}

impl Clone for BalanceDetail {
    fn clone(&self) -> (r: Self)
        ensures
            r@ == self@,
    {
        BalanceDetail { deposit_address: self.deposit_address.clone(), amount: self.amount }
    }
}

/// The address derived for a user: the user owns it, under the user's subaccount.
pub open spec fn derived_address(id: Seq<u8>) -> AddressView {
    AddressView { owner: id, subaccount: subaccount_of(id) }
}

/// The record a user has right after registration.
pub open spec fn fresh_detail(id: Seq<u8>) -> DetailView {
    DetailView { deposit_address: derived_address(id), amount: 0 }
}

/// The accounts after a user's cached balance is set to `amount`, the rest unchanged.
pub open spec fn set_amount(m: Map<Seq<u8>, DetailView>, u: Seq<u8>, amount: u128) -> Map<Seq<u8>, DetailView> {
    m.insert(u, DetailView { deposit_address: m[u].deposit_address, amount })
}

/// Why registering `u` fails, if it does.
pub open spec fn register_error(m: Map<Seq<u8>, DetailView>, u: Seq<u8>) -> Option<VaultError> {
    if u == anonymous_bytes() {
        Some(VaultError::AnonymousCaller)
    } else if !fits_subaccount(u) {
        Some(VaultError::MalformedIdentifier)
    } else if m.contains_key(u) {
        Some(VaultError::AlreadyRegistered)
    } else {
        None
    }
}

/// Why adding `amount` to the balance of `u` fails, if it does.
pub open spec fn credit_error(m: Map<Seq<u8>, DetailView>, u: Seq<u8>, amount: u128) -> Option<VaultError> {
    if !m.contains_key(u) {
        Some(VaultError::NotRegistered)
    } else if m[u].amount + amount > u128::MAX {
        Some(VaultError::BalanceOverflow)
    } else {
        None
    }
}

/// The accounts after `amount` is added to the balance of `u`.
pub open spec fn credited(m: Map<Seq<u8>, DetailView>, u: Seq<u8>, amount: u128) -> Map<Seq<u8>, DetailView> {
    set_amount(m, u, (m[u].amount + amount) as u128)
}

/// Why taking `amount` from the balance of `u` fails, if it does.
pub open spec fn debit_error(m: Map<Seq<u8>, DetailView>, u: Seq<u8>, amount: u128) -> Option<VaultError> {
    if !m.contains_key(u) {
        Some(VaultError::NotRegistered)
    } else if amount > m[u].amount {
        Some(VaultError::InsufficientBalance)
    } else {
        None
    }
}

/// The accounts after `amount` is taken from the balance of `u`.
pub open spec fn debited(m: Map<Seq<u8>, DetailView>, u: Seq<u8>, amount: u128) -> Map<Seq<u8>, DetailView> {
    set_amount(m, u, (m[u].amount - amount) as u128)
}

/// Distinct users get distinct deposit addresses, and each user always gets
/// the same one.
pub proof fn lemma_derived_address_distinct(a: Seq<u8>, b: Seq<u8>)
    ensures
        a != b ==> derived_address(a) != derived_address(b),
        a == b ==> derived_address(a) == derived_address(b),
{
}

/// Registration happens once per user: after a successful registration the
/// user holds a zero balance, and registering again fails with
/// `AlreadyRegistered` without changing anything.
pub proof fn lemma_register_once(m: Map<Seq<u8>, DetailView>, u: Seq<u8>)
    requires
        register_error(m, u) is None,
    ensures
        m.insert(u, fresh_detail(u))[u].amount == 0,
        register_error(m.insert(u, fresh_detail(u)), u) == Some(VaultError::AlreadyRegistered),
{
}

/// One slot of the registry.
struct Entry {
    user: UserId,
    detail: BalanceDetail,
}

/// The registry of accounts, one per user, and the ledger fee of withdrawals.
pub struct State {
    balance_state: Vec<Entry>,
    fee: u128,
}

impl View for State {
    type V = Map<Seq<u8>, DetailView>;

    /// The accounts, keyed by the bytes of their user.
    closed spec fn view(&self) -> Map<Seq<u8>, DetailView> {
        Map::new(
            |k: Seq<u8>| self.slot_of(k) >= 0,
            |k: Seq<u8>| self.balance_state@[self.slot_of(k)].detail@,
        )
    }
}

impl State {
    /// The position of a user's entry, or -1 if there is none.
    closed spec fn slot_of(&self, k: Seq<u8>) -> int {
        if exists|i: int| 0 <= i < self.balance_state@.len() && self.balance_state@[i].user@ == k {
            choose|i: int| 0 <= i < self.balance_state@.len() && self.balance_state@[i].user@ == k
        } else {
            -1
        }
    }

    /// The fee that each withdrawal pays to the ledger.
    pub closed spec fn spec_fee(&self) -> u128 {
        self.fee
    }

    /// Users are unique; every stored user may hold an account and owns its
    /// derived address.
    pub closed spec fn wf(&self) -> bool {
        &&& forall|i: int, j: int|
            0 <= i < self.balance_state@.len() && 0 <= j < self.balance_state@.len() && i != j
                ==> self.balance_state@[i].user@ != self.balance_state@[j].user@
        &&& forall|i: int|
            0 <= i < self.balance_state@.len() ==> {
                let e = #[trigger] self.balance_state@[i];
                &&& fits_subaccount(e.user@)
                &&& e.user@ != anonymous_bytes()
                &&& e.detail.deposit_address@ == derived_address(e.user@)
            }
    }

    proof fn lemma_slot(&self, i: int)
        requires
            self.wf(),
            0 <= i < self.balance_state@.len(),
        ensures
            self.slot_of(self.balance_state@[i].user@) == i,
            self@.contains_key(self.balance_state@[i].user@),
            self@[self.balance_state@[i].user@] == self.balance_state@[i].detail@,
    {
        let k = self.balance_state@[i].user@;
        let j = self.slot_of(k);
        assert(self.balance_state@[j].user@ == k);
    }

    /// Every stored account belongs to a user that may hold one, at its derived address.
    pub proof fn lemma_accounts_valid(&self, k: Seq<u8>)
        requires
            self.wf(),
            self@.contains_key(k),
        ensures
            fits_subaccount(k),
            k != anonymous_bytes(),
            self@[k].deposit_address == derived_address(k),
    {
        let i = self.slot_of(k);
        assert(self.balance_state@[i].user@ == k);
    }

    proof fn lemma_replace(pre: State, post: State, i: int)
        requires
            pre.wf(),
            0 <= i < pre.balance_state@.len(),
            post.balance_state@.len() == pre.balance_state@.len(),
            forall|j: int| 0 <= j < pre.balance_state@.len() ==> #[trigger] post.balance_state@[j].user@ == pre.balance_state@[j].user@,
            forall|j: int| 0 <= j < pre.balance_state@.len() && j != i ==> #[trigger] post.balance_state@[j].detail@ == pre.balance_state@[j].detail@,
            post.balance_state@[i].detail.deposit_address@ == pre.balance_state@[i].detail.deposit_address@,
        ensures
            post.wf(),
            post@ == pre@.insert(pre.balance_state@[i].user@, post.balance_state@[i].detail@),
    {
        let ki = pre.balance_state@[i].user@;
        let target = pre@.insert(ki, post.balance_state@[i].detail@);
        assert(post.wf()) by {
            assert forall|a: int| 0 <= a < post.balance_state@.len() implies {
                let e = #[trigger] post.balance_state@[a];
                &&& fits_subaccount(e.user@)
                &&& e.user@ != anonymous_bytes()
                &&& e.detail.deposit_address@ == derived_address(e.user@)
            } by {
                assert(post.balance_state@[a].user@ == pre.balance_state@[a].user@);
                if a != i {
                    assert(post.balance_state@[a].detail@ == pre.balance_state@[a].detail@);
                }
            }
        }
        assert forall|k: Seq<u8>| #[trigger] post@.contains_key(k) == target.contains_key(k) && (post@.contains_key(k) ==> post@[k] == target[k]) by {
            if exists|j: int| 0 <= j < pre.balance_state@.len() && pre.balance_state@[j].user@ == k {
                let j = choose|j: int| 0 <= j < pre.balance_state@.len() && pre.balance_state@[j].user@ == k;
                pre.lemma_slot(j);
                post.lemma_slot(j);
            } else {
                assert(!pre@.contains_key(k)) by {
                    if pre@.contains_key(k) {
                        let j = pre.slot_of(k);
                    }
                }
                assert(!post@.contains_key(k)) by {
                    if post@.contains_key(k) {
                        let j = post.slot_of(k);
                        assert(pre.balance_state@[j].user@ == k);
                    }
                }
            }
        }
        assert(post@ =~= target);
    }

    proof fn lemma_push(pre: State, post: State, e: Entry)
        requires
            pre.wf(),
            !pre@.contains_key(e.user@),
            fits_subaccount(e.user@),
            e.user@ != anonymous_bytes(),
            e.detail.deposit_address@ == derived_address(e.user@),
            post.balance_state@.len() == pre.balance_state@.len() + 1,
            forall|j: int| 0 <= j < pre.balance_state@.len() ==> #[trigger] post.balance_state@[j] == pre.balance_state@[j],
            post.balance_state@.last() == e,
        ensures
            post.wf(),
            post@ == pre@.insert(e.user@, e.detail@),
    {
        let n = pre.balance_state@.len() as int;
        let target = pre@.insert(e.user@, e.detail@);
        assert forall|j: int| 0 <= j < n implies pre.balance_state@[j].user@ != e.user@ by {
            pre.lemma_slot(j);
        }
        assert(post.wf()) by {
            assert forall|a: int, b: int|
                0 <= a < post.balance_state@.len() && 0 <= b < post.balance_state@.len() && a != b
                implies post.balance_state@[a].user@ != post.balance_state@[b].user@ by {
                if a < n && b < n {
                    assert(post.balance_state@[a] == pre.balance_state@[a]);
                    assert(post.balance_state@[b] == pre.balance_state@[b]);
                } else if a < n {
                    assert(post.balance_state@[a] == pre.balance_state@[a]);
                } else {
                    assert(post.balance_state@[b] == pre.balance_state@[b]);
                }
            }
            assert forall|a: int| 0 <= a < post.balance_state@.len() implies {
                let x = #[trigger] post.balance_state@[a];
                &&& fits_subaccount(x.user@)
                &&& x.user@ != anonymous_bytes()
                &&& x.detail.deposit_address@ == derived_address(x.user@)
            } by {
                if a < n {
                    assert(post.balance_state@[a] == pre.balance_state@[a]);
                }
            }
        }
        assert forall|k: Seq<u8>| #[trigger] post@.contains_key(k) == target.contains_key(k) && (post@.contains_key(k) ==> post@[k] == target[k]) by {
            if k == e.user@ {
                post.lemma_slot(n);
            } else if exists|j: int| 0 <= j < n && pre.balance_state@[j].user@ == k {
                let j = choose|j: int| 0 <= j < n && pre.balance_state@[j].user@ == k;
                pre.lemma_slot(j);
                assert(post.balance_state@[j] == pre.balance_state@[j]);
                post.lemma_slot(j);
            } else {
                assert(!pre@.contains_key(k)) by {
                    if pre@.contains_key(k) {
                        let j = pre.slot_of(k);
                    }
                }
                assert(!post@.contains_key(k)) by {
                    if post@.contains_key(k) {
                        let j = post.slot_of(k);
                        if j < n {
                            assert(post.balance_state@[j] == pre.balance_state@[j]);
                        }
                    }
                }
            }
        }
        assert(post@ =~= target);
    }

    /// An empty registry whose withdrawals pay the given fee.
    pub fn with_fee(fee: u128) -> (r: State)
        ensures
            r.wf(),
            r@ == Map::<Seq<u8>, DetailView>::empty(),
            r.spec_fee() == fee,
    {
        let r = State { balance_state: Vec::new(), fee };
        assert(r@ =~= Map::<Seq<u8>, DetailView>::empty());
        r
    }

    /// An empty registry whose withdrawals pay the ledger's standard fee.
    pub fn new() -> (r: State)
        ensures
            r.wf(),
            r@ == Map::<Seq<u8>, DetailView>::empty(),
            r.spec_fee() == FEE,
    {
        State::with_fee(FEE)
    }

    /// The fee that each withdrawal pays to the ledger.
    pub fn fee(&self) -> (r: u128)
        ensures
            r == self.spec_fee(),
    {
        self.fee
    }

    /// The position of a user's entry.
    fn find(&self, user: &UserId) -> (r: Option<usize>)
        requires
            self.wf(),
        ensures
            r matches Some(i) ==> i < self.balance_state@.len() && self.balance_state@[i as int].user@ == user@,
            r is None <==> !self@.contains_key(user@),
    {
        let mut i: usize = 0;
        while i < self.balance_state.len()
            invariant
                self.wf(),
                0 <= i <= self.balance_state@.len(),
                forall|j: int| 0 <= j < i ==> self.balance_state@[j].user@ != user@,
            decreases self.balance_state@.len() - i,
        {
            if self.balance_state[i].user.same(user) {
                proof { self.lemma_slot(i as int); }
                return Some(i);
            }
            i = i + 1;
        }
        None
    }

    /// The account of a user, if the user has one.
    pub fn get(&self, user: &UserId) -> (r: Option<BalanceDetail>)
        requires
            self.wf(),
        ensures
            r is None <==> !self@.contains_key(user@),
            r matches Some(d) ==> d@ == self@[user@],
    {
        match self.find(user) {
            None => None,
            Some(i) => {
                proof { self.lemma_slot(i as int); }
                Some(self.balance_state[i].detail.clone())
            }
        }
    }

    /// Adds `amount` to a user's cached balance.
    pub fn credit(&mut self, user: &UserId, amount: u128) -> (r: Result<BalanceDetail, VaultError>)
        requires
            old(self).wf(),
        ensures
            final(self).wf(),
            final(self).spec_fee() == old(self).spec_fee(),
            match credit_error(old(self)@, user@, amount) {
                Some(e) => r == Err::<BalanceDetail, VaultError>(e) && final(self)@ == old(self)@,
                None => (r matches Ok(d) && d@ == final(self)@[user@])
                    && final(self)@ == credited(old(self)@, user@, amount),
            },
    {
        match self.find(user) {
            None => Err(VaultError::NotRegistered),
            Some(i) => {
                proof { self.lemma_slot(i as int); }
                let cur = self.balance_state[i].detail.amount;
                if amount > u128::MAX - cur {
                    return Err(VaultError::BalanceOverflow);
                }
                let ghost pre = *self;
                self.balance_state[i].detail.amount = cur + amount;
                proof { State::lemma_replace(pre, *self, i as int); }
                Ok(self.balance_state[i].detail.clone())
            },
        }
    }

    /// Takes `amount` from a user's cached balance; the balance never goes below zero.
    pub fn debit(&mut self, user: &UserId, amount: u128) -> (r: Result<BalanceDetail, VaultError>)
        requires
            old(self).wf(),
        ensures
            final(self).wf(),
            final(self).spec_fee() == old(self).spec_fee(),
            match debit_error(old(self)@, user@, amount) {
                Some(e) => r == Err::<BalanceDetail, VaultError>(e) && final(self)@ == old(self)@,
                None => (r matches Ok(d) && d@ == final(self)@[user@])
                    && final(self)@ == debited(old(self)@, user@, amount),
            },
    {
        match self.find(user) {
            None => Err(VaultError::NotRegistered),
            Some(i) => {
                proof { self.lemma_slot(i as int); }
                let cur = self.balance_state[i].detail.amount;
                if amount > cur {
                    return Err(VaultError::InsufficientBalance);
                }
                let ghost pre = *self;
                self.balance_state[i].detail.amount = cur - amount;
                proof { State::lemma_replace(pre, *self, i as int); }
                Ok(self.balance_state[i].detail.clone())
            },
        }
    }
}

/// Opens an account for `caller`: its derived deposit address and a zero
/// balance. Registering twice, or as the anonymous identity, fails.
pub fn register(state: &mut State, caller: &UserId) -> (r: Result<bool, VaultError>)
    requires
        old(state).wf(),
    ensures
        final(state).wf(),
        final(state).spec_fee() == old(state).spec_fee(),
        match register_error(old(state)@, caller@) {
            Some(e) => r == Err::<bool, VaultError>(e) && final(state)@ == old(state)@,
            None => r == Ok::<bool, VaultError>(true)
                && final(state)@ == old(state)@.insert(caller@, fresh_detail(caller@)),
        },
{
    if caller.is_anonymous() {
        return Err(VaultError::AnonymousCaller);
    }
    let subaccount = match principal_to_subaccount(caller) {
        Ok(s) => s,
        Err(e) => return Err(e),
    };
    if state.find(caller).is_some() {
        return Err(VaultError::AlreadyRegistered);
    }
    let account = Address { owner: caller.clone(), subaccount };
    let entry = Entry { user: caller.clone(), detail: BalanceDetail { deposit_address: account, amount: 0 } };
    let ghost pre = *state;
    let ghost e = entry;
    state.balance_state.push(entry);
    proof { State::lemma_push(pre, *state, e); }
    Ok(true)
}

/// The caller's record as the registry holds it now, if the caller has one.
pub fn query_detail(state: &State, caller: &UserId) -> (r: Option<BalanceDetail>)
    requires
        state.wf(),
    ensures
        r is None <==> !state@.contains_key(caller@),
        r matches Some(d) ==> d@ == state@[caller@],
{
    state.get(caller)
}

} // verus!
