//! The guarantees the registration operation gives its callers, proved once
//! and for all over the ledger transition [`crate::registry::register_outcome`].

use vstd::prelude::*;
use crate::addresses::{derive_spec, lemma_derive_injective};
use crate::registry::{
    balance_in, register_outcome, LedgerView, OAPP_ALLOCATION_COST,
};
use crate::state::{RecordView, RegisterError};

verus! {

/// Registering the same application twice: once the first call has
/// succeeded, a second call for the same application fails with
/// `AlreadyRegistered`, changes nothing, and the stored delegate remains
/// whatever the first call set — whatever delegate and funder the second
/// call supplies.
pub proof fn lemma_register_twice(
    l: LedgerView,
    app: Seq<u8>,
    d1: Seq<u8>,
    f1: Seq<u8>,
    d2: Seq<u8>,
    f2: Seq<u8>,
)
    requires
        register_outcome(l, app, d1, derive_spec(app), f1).1 == Ok::<(), RegisterError>(()),
    ensures
        register_outcome(
            register_outcome(l, app, d1, derive_spec(app), f1).0,
            app,
            d2,
            derive_spec(app),
            f2,
        ).1 == Err::<(), RegisterError>(RegisterError::AlreadyRegistered),
        register_outcome(
            register_outcome(l, app, d1, derive_spec(app), f1).0,
            app,
            d2,
            derive_spec(app),
            f2,
        ).0 == register_outcome(l, app, d1, derive_spec(app), f1).0,
        register_outcome(l, app, d1, derive_spec(app), f1)
            .0.records[derive_spec(app)].delegate == d1,
{
}

/// A storage address that does not equal the derivation for the application
/// is rejected with `AddressMismatch`, and the ledger — in particular the
/// set of records — is left exactly as it was.
pub proof fn lemma_mismatch_rejected(
    l: LedgerView,
    app: Seq<u8>,
    delegate: Seq<u8>,
    supplied: Seq<u8>,
    funder: Seq<u8>,
)
    requires
        supplied != derive_spec(app),
    ensures
        register_outcome(l, app, delegate, supplied, funder).1
            == Err::<(), RegisterError>(RegisterError::AddressMismatch),
        register_outcome(l, app, delegate, supplied, funder).0 == l,
{
}

/// After a successful registration of application `app` with delegate
/// `delegate`, the record at the derived address is exactly
/// {application = `app`, delegate = `delegate`}.
pub proof fn lemma_success_record(
    l: LedgerView,
    app: Seq<u8>,
    delegate: Seq<u8>,
    supplied: Seq<u8>,
    funder: Seq<u8>,
)
    requires
        register_outcome(l, app, delegate, supplied, funder).1 == Ok::<(), RegisterError>(()),
    ensures
        register_outcome(l, app, delegate, supplied, funder)
            .0.records.dom().contains(derive_spec(app)),
        register_outcome(l, app, delegate, supplied, funder)
            .0.records[derive_spec(app)] == (RecordView { app, delegate }),
{
}

/// Registrations of two distinct applications are independent: when each is
/// unregistered and its funder covers the cost (one shared funder must
/// cover both), registering the first leaves the second still able to
/// succeed, and the two records end up at two distinct addresses, each with
/// its own content.
pub proof fn lemma_independent_registrations(
    l: LedgerView,
    a1: Seq<u8>,
    d1: Seq<u8>,
    f1: Seq<u8>,
    a2: Seq<u8>,
    d2: Seq<u8>,
    f2: Seq<u8>,
)
    requires
        a1 != a2,
        register_outcome(l, a1, d1, derive_spec(a1), f1).1 == Ok::<(), RegisterError>(()),
        !l.records.dom().contains(derive_spec(a2)),
        f1 == f2 ==> balance_in(l, f2) >= 2 * (OAPP_ALLOCATION_COST as int),
        f1 != f2 ==> balance_in(l, f2) >= OAPP_ALLOCATION_COST,
    ensures
        derive_spec(a1) != derive_spec(a2),
        register_outcome(
            register_outcome(l, a1, d1, derive_spec(a1), f1).0,
            a2,
            d2,
            derive_spec(a2),
            f2,
        ).1 == Ok::<(), RegisterError>(()),
        register_outcome(
            register_outcome(l, a1, d1, derive_spec(a1), f1).0,
            a2,
            d2,
            derive_spec(a2),
            f2,
        ).0.records[derive_spec(a1)] == (RecordView { app: a1, delegate: d1 }),
        register_outcome(
            register_outcome(l, a1, d1, derive_spec(a1), f1).0,
            a2,
            d2,
            derive_spec(a2),
            f2,
        ).0.records[derive_spec(a2)] == (RecordView { app: a2, delegate: d2 }),
{
    lemma_derive_injective(a1, a2);
}

/// A registration attempt whose funder holds nothing fails with
/// `InsufficientFunds`, and the derived slot stays empty.
pub proof fn lemma_zero_balance_rejected(
    l: LedgerView,
    app: Seq<u8>,
    delegate: Seq<u8>,
    funder: Seq<u8>,
)
    requires
        balance_in(l, funder) == 0,
        !l.records.dom().contains(derive_spec(app)),
    ensures
        register_outcome(l, app, delegate, derive_spec(app), funder).1
            == Err::<(), RegisterError>(RegisterError::InsufficientFunds),
        register_outcome(l, app, delegate, derive_spec(app), funder).0 == l,
        !register_outcome(l, app, delegate, derive_spec(app), funder)
            .0.records.dom().contains(derive_spec(app)),
{
}

} // verus!
