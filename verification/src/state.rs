//! The data stored by the registry and the inputs and errors of the
//! registration operation.

use vstd::prelude::*;
use crate::addresses::Pubkey;

verus! {

/// The registration record kept for one application: the application's own
/// address (for reverse lookup) and its delegate authority.
#[derive(Clone, Copy)]
pub struct OAppRecord {
    pub app: Pubkey,
    pub delegate: Pubkey,
}

/// The mathematical content of an [`OAppRecord`]: the two addresses as byte
/// sequences.
#[verifier::ext_equal]
pub ghost struct RecordView {
    pub app: Seq<u8>,
    pub delegate: Seq<u8>,
}

impl View for OAppRecord {
    type V = RecordView;

    open spec fn view(&self) -> RecordView {
        RecordView { app: self.app@, delegate: self.delegate@ }
    }
}

/// The caller-supplied parameters of a registration: the application being
/// registered and the delegate authority to store for it.
#[derive(Clone, Copy)]
pub struct RegisterOAppParams {
    pub oapp: Pubkey,
    pub delegate: Pubkey,
}

/// The distinct ways a registration attempt can fail.
#[derive(Clone, Copy, Debug, PartialEq, Eq, Structural)]
pub enum RegisterError {
    /// The supplied storage address does not equal the derivation for the
    /// application being registered.
    AddressMismatch,
    /// A record already exists at the derived storage address.
    AlreadyRegistered,
    /// The funding account cannot cover the allocation cost of the record.
    InsufficientFunds,
}

} // verus!
