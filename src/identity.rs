use vstd::prelude::*;

use crate::error::VaultError;

verus! {

/// Length of a ledger subaccount in bytes.
pub const SUBACCOUNT_LEN: usize = 32;

/// The identity of a caller, as the canonical bytes of its principal.
#[derive(Debug)]
pub struct UserId {
    pub bytes: Vec<u8>,
}

impl View for UserId {
    type V = Seq<u8>;

    open spec fn view(&self) -> Seq<u8> {
        self.bytes@
    }
}

impl Clone for UserId {
    fn clone(&self) -> (r: Self)
        ensures
            r@ == self@,
    {
        UserId { bytes: self.bytes.clone() }
    }
}

/// The bytes of the anonymous principal: its single tag byte.
pub open spec fn anonymous_bytes() -> Seq<u8> {
    seq![4u8]
}

/// Relies on candid's `Principal::anonymous` and `Principal::as_slice`: the
/// anonymous principal has length one and holds the tag byte 4.
#[verifier::external_body]
fn anonymous_principal_bytes() -> (r: Vec<u8>)
    ensures
        r@ == anonymous_bytes(),
{
    candid::Principal::anonymous().as_slice().to_vec()
}

/// Byte-wise equality of two byte vectors.
fn bytes_equal(a: &Vec<u8>, b: &Vec<u8>) -> (r: bool)
    ensures
        r == (a@ == b@),
{
    if a.len() != b.len() {
        return false;
    }
    let mut i: usize = 0;
    while i < a.len()
        invariant
            a@.len() == b@.len(),
            0 <= i <= a@.len(),
            forall|j: int| 0 <= j < i ==> a@[j] == b@[j],
        decreases a@.len() - i,
    {
        if a[i] != b[i] {
            return false;
        }
        i = i + 1;
    }
    assert(a@ =~= b@);
    true
}

impl UserId {
    /// Whether this is the anonymous identity.
    pub open spec fn spec_is_anonymous(&self) -> bool {
        self@ == anonymous_bytes()
    }

    /// Whether this is the anonymous identity.
    pub fn is_anonymous(&self) -> (r: bool)
        ensures
            r == self.spec_is_anonymous(),
    {
        let anon = anonymous_principal_bytes();
        bytes_equal(&self.bytes, &anon)
    }

    /// Whether the two identities are the same.
    pub fn same(&self, other: &UserId) -> (r: bool)
        ensures
            r == (self@ == other@),
    {
        bytes_equal(&self.bytes, &other.bytes)
    }
}

/// The subaccount derived from an identifier: its bytes, then zeros up to 32.
pub open spec fn subaccount_of(id: Seq<u8>) -> Seq<u8> {
    Seq::new(SUBACCOUNT_LEN as nat, |i: int| if i < id.len() { id[i] } else { 0u8 })
}

/// Whether an identifier fits in a subaccount.
pub open spec fn fits_subaccount(id: Seq<u8>) -> bool {
    id.len() <= SUBACCOUNT_LEN
}

/// Derives the 32-byte subaccount of a user: a zero-filled buffer whose low
/// bytes hold the user's bytes. An identifier longer than the buffer is
/// refused rather than truncated.
pub fn principal_to_subaccount(user: &UserId) -> (r: Result<[u8; 32], VaultError>)
    ensures
        fits_subaccount(user@) ==> (r matches Ok(s) && s@ == subaccount_of(user@)),
        !fits_subaccount(user@) ==> r == Err::<[u8; 32], VaultError>(VaultError::MalformedIdentifier),
{
    let n = user.bytes.len();
    if n > SUBACCOUNT_LEN {
        return Err(VaultError::MalformedIdentifier);
    }
    let mut sub: [u8; 32] = [0u8; 32];
    let mut i: usize = 0;
    while i < n
        invariant
            n == user@.len(),
            n <= SUBACCOUNT_LEN,
            0 <= i <= n,
            sub@.len() == SUBACCOUNT_LEN,
            forall|j: int| 0 <= j < i ==> sub@[j] == user@[j],
            forall|j: int| i <= j < SUBACCOUNT_LEN ==> sub@[j] == 0u8,
        decreases n - i,
    {
        sub[i] = user.bytes[i];
        i = i + 1;
    }
    assert(sub@ =~= subaccount_of(user@));
    Ok(sub)
}

/// Whether an identifier ends in a nonzero byte, as every principal but the
/// empty management identity does (its last byte is a nonzero class tag).
pub open spec fn ends_in_tag(id: Seq<u8>) -> bool {
    id.len() > 0 && id.last() != 0u8
}

/// Distinct identifiers that fit and end in a nonzero tag byte get distinct
/// subaccounts: the zero padding cannot make two of them collide.
pub proof fn lemma_subaccount_injective(a: Seq<u8>, b: Seq<u8>)
    requires
        fits_subaccount(a),
        fits_subaccount(b),
        ends_in_tag(a),
        ends_in_tag(b),
        a != b,
    ensures
        subaccount_of(a) != subaccount_of(b),
{
    if a.len() == b.len() {
        assert(!(a =~= b));
        let i = choose|i: int| 0 <= i < a.len() && a[i] != b[i];
        assert(subaccount_of(a)[i] != subaccount_of(b)[i]);
    } else if a.len() < b.len() {
        assert(subaccount_of(a)[b.len() - 1] != subaccount_of(b)[b.len() - 1]);
    } else {
        assert(subaccount_of(a)[a.len() - 1] != subaccount_of(b)[a.len() - 1]);
    }
}

/// A spendable location on the ledger: an owner and a 32-byte subaccount.
#[derive(Debug)]
pub struct Address {
    pub owner: UserId,
    pub subaccount: [u8; 32],
}

/// The mathematical content of an address.
pub struct AddressView {
    pub owner: Seq<u8>,
    pub subaccount: Seq<u8>,
}

impl View for Address {
    type V = AddressView;

    open spec fn view(&self) -> AddressView {
        AddressView { owner: self.owner@, subaccount: self.subaccount@ }
    }
}

impl Clone for Address {
    fn clone(&self) -> (r: Self)
        ensures
            r@ == self@,
    {
        Address { owner: self.owner.clone(), subaccount: self.subaccount }
    }
}

} // verus!
