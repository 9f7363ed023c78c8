//! Addresses on the ledger and the deterministic storage-address derivation.
//!
//! An application is identified by a 32-byte public key.  The storage slot
//! for its registration record lives at the address obtained by prefixing the
//! key with the fixed domain separator `"OApp"`; the derivation is injective,
//! so distinct applications can never collide on a storage slot.

use vstd::prelude::*;

verus! {

/// A 32-byte account address, as used for applications, delegates and
/// funding signers.
#[derive(Clone, Copy)]
pub struct Pubkey {
    pub bytes: [u8; 32],
}

impl View for Pubkey {
    type V = Seq<u8>;

    open spec fn view(&self) -> Seq<u8> {
        self.bytes@
    }
}

impl Pubkey {
    pub fn new(bytes: [u8; 32]) -> (r: Pubkey)
        ensures
            r@ == bytes@,
    {
        Pubkey { bytes }
    }
}

/// Decides whether two account addresses are byte-for-byte equal.
pub fn pubkey_eq(a: &Pubkey, b: &Pubkey) -> (r: bool)
    ensures
        r == (a@ == b@),
{
    let mut i: usize = 0;
    while i < 32
        invariant
            i <= 32,
            forall|j: int| 0 <= j < i ==> a@[j] == b@[j],
        decreases 32 - i,
    {
        if a.bytes[i] != b.bytes[i] {
            return false;
        }
        i = i + 1;
    }
    proof {
        assert(a@ =~= b@);
    }
    true
}

/// The address of a storage slot: the domain separator followed by the
/// owning application's address.
pub struct StorageAddress {
    pub bytes: Vec<u8>,
}

impl View for StorageAddress {
    type V = Seq<u8>;

    open spec fn view(&self) -> Seq<u8> {
        self.bytes@
    }
}

impl StorageAddress {
    pub fn from_bytes(bytes: Vec<u8>) -> (r: StorageAddress)
        ensures
            r@ == bytes@,
    {
        StorageAddress { bytes }
    }
}

/// Decides whether two storage addresses are byte-for-byte equal.
pub fn storage_address_eq(a: &StorageAddress, b: &StorageAddress) -> (r: bool)
    ensures
        r == (a@ == b@),
{
    if a.bytes.len() != b.bytes.len() {
        return false;
    }
    let n = a.bytes.len();
    let mut i: usize = 0;
    while i < n
        invariant
            n == a@.len(),
            a@.len() == b@.len(),
            i <= n,
            forall|j: int| 0 <= j < i ==> a@[j] == b@[j],
        decreases n - i,
    {
        if a.bytes[i] != b.bytes[i] {
            return false;
        }
        i = i + 1;
    }
    proof {
        assert(a@ =~= b@);
    }
    true
}

/// The fixed domain separator `"OApp"` that begins every derived storage
/// address.
pub open spec fn oapp_seed() -> Seq<u8> {
    seq![79u8, 65u8, 112u8, 112u8]
}

/// The storage address that belongs to the application with address `app`:
/// the domain separator followed by the application's own bytes.
pub open spec fn derive_spec(app: Seq<u8>) -> Seq<u8> {
    oapp_seed() + app
}

/// Returns the four seed bytes, spelling `"OApp"`.
pub fn oapp_seed_bytes() -> (r: Vec<u8>)
    ensures
        r@ == oapp_seed(),
{
    let mut bytes: Vec<u8> = Vec::new();
    bytes.push(79u8);
    bytes.push(65u8);
    bytes.push(112u8);
    bytes.push(112u8);
    proof {
        assert(bytes@ =~= oapp_seed());
    }
    bytes
}

/// Derives the storage address for the application with address `app`.
/// Any caller can reproduce this without consulting the registry.
pub fn derive(app: &Pubkey) -> (r: StorageAddress)
    ensures
        r@ == derive_spec(app@),
{
    let mut bytes = oapp_seed_bytes();
    let mut i: usize = 0;
    while i < 32
        invariant
            i <= 32,
            bytes@ == oapp_seed() + app@.subrange(0, i as int),
        decreases 32 - i,
    {
        bytes.push(app.bytes[i]);
        proof {
            assert(bytes@ =~= oapp_seed() + app@.subrange(0, i + 1 as int));
        }
        i = i + 1;
    }
    proof {
        assert(app@.subrange(0, 32) =~= app@);
    }
    StorageAddress { bytes }
}

/// The derivation never collides: distinct application addresses always get
/// distinct storage addresses.
pub proof fn lemma_derive_injective(a1: Seq<u8>, a2: Seq<u8>)
    requires
        a1 != a2,
    ensures
        derive_spec(a1) != derive_spec(a2),
{
    if derive_spec(a1) == derive_spec(a2) {
        assert(derive_spec(a1).len() == 4 + a1.len());
        assert(derive_spec(a2).len() == 4 + a2.len());
        assert(a1.len() == a2.len());
        assert forall|i: int| 0 <= i < a1.len() implies a1[i] == a2[i] by {
            assert(derive_spec(a1)[i + 4] == a1[i]);
            assert(derive_spec(a2)[i + 4] == a2[i]);
        }
        assert(a1 =~= a2);
    }
}

} // verus!
