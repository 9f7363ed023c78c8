//! The account registry and the `register_oapp` operation.
//!
//! The ledger owns one storage slot per registered application, addressed by
//! the deterministic derivation of [`crate::addresses::derive`], together
//! with the balances of funding accounts.  `register_oapp` is the sole write
//! path into the registry: it verifies the caller-supplied storage address,
//! refuses to overwrite an existing record, debits the funder for the
//! allocation cost, and creates the record — all as one atomic step.

use vstd::prelude::*;
use crate::addresses::{Pubkey, StorageAddress, derive_spec, storage_address_eq};
use crate::state::{OAppRecord, RecordView, RegisterOAppParams, RegisterError};

verus! {

/// The cost, in the ledger's base units, of allocating one registration
/// record.  It is debited from the funding account on success.
pub const OAPP_ALLOCATION_COST: u64 = 1000000;

/// The mathematical content of the ledger: the registered records keyed by
/// storage address, and the account balances keyed by account address.
#[verifier::ext_equal]
pub ghost struct LedgerView {
    pub records: Map<Seq<u8>, RecordView>,
    pub balances: Map<Seq<u8>, u64>,
}

/// The balance the ledger holds for account `who`; an account with no entry
/// holds nothing.
pub open spec fn balance_in(l: LedgerView, who: Seq<u8>) -> u64 {
    if l.balances.dom().contains(who) {
        l.balances[who]
    } else {
        0
    }
}

/// What one invocation of `register_oapp` does to the ledger, and what it
/// returns, as a function of the ledger's state and the call's inputs.
///
/// The supplied storage address must equal the derivation for `app`; the
/// derived slot must be free; the funder must cover the allocation cost.
/// The first violated condition, in that order, names the error and leaves
/// the ledger untouched.  Otherwise the record is created at the derived
/// address and the cost is debited from the funder, atomically.
pub open spec fn register_outcome(
    l: LedgerView,
    app: Seq<u8>,
    delegate: Seq<u8>,
    supplied: Seq<u8>,
    funder: Seq<u8>,
) -> (LedgerView, Result<(), RegisterError>) {
    if supplied != derive_spec(app) {
        (l, Err(RegisterError::AddressMismatch))
    } else if l.records.dom().contains(derive_spec(app)) {
        (l, Err(RegisterError::AlreadyRegistered))
    } else if balance_in(l, funder) < OAPP_ALLOCATION_COST {
        (l, Err(RegisterError::InsufficientFunds))
    } else {
        (
            LedgerView {
                records: l.records.insert(derive_spec(app), RecordView { app, delegate }),
                balances: l.balances.insert(
                    funder,
                    (balance_in(l, funder) - OAPP_ALLOCATION_COST) as u64,
                ),
            },
            Ok(()),
        )
    }
}

/// The persistent state of the mock ledger: registration records and
/// funding-account balances.
pub struct Ledger {
    records: Vec<(StorageAddress, OAppRecord)>,
    balances: Vec<(Pubkey, u64)>,
}

impl View for Ledger {
    type V = LedgerView;

    closed spec fn view(&self) -> LedgerView {
        LedgerView {
            records: Map::new(
                |k: Seq<u8>| exists|i: int|
                    0 <= i < self.records@.len() && (#[trigger] self.records@[i]).0@ == k,
                |k: Seq<u8>| self.records@[choose|i: int|
                    0 <= i < self.records@.len() && (#[trigger] self.records@[i]).0@ == k].1@,
            ),
            balances: Map::new(
                |k: Seq<u8>| exists|i: int|
                    0 <= i < self.balances@.len() && (#[trigger] self.balances@[i]).0@ == k,
                |k: Seq<u8>| self.balances@[choose|i: int|
                    0 <= i < self.balances@.len() && (#[trigger] self.balances@[i]).0@ == k].1,
            ),
        }
    }
}

impl Ledger {
    /// The registry's internal invariant: storage addresses and account
    /// addresses each occur at most once, and every record sits at the
    /// storage address derived from the application it stores.
    pub closed spec fn wf(&self) -> bool {
        &&& forall|i: int, j: int|
            0 <= i < j < self.records@.len()
                ==> (#[trigger] self.records@[i]).0@ != (#[trigger] self.records@[j]).0@
        &&& forall|i: int, j: int|
            0 <= i < j < self.balances@.len()
                ==> (#[trigger] self.balances@[i]).0@ != (#[trigger] self.balances@[j]).0@
        &&& forall|i: int|
            0 <= i < self.records@.len()
                ==> (#[trigger] self.records@[i]).0@ == derive_spec(self.records@[i].1.app@)
    }

    /// An empty ledger: nothing registered, no account funded.
    pub fn new() -> (r: Ledger)
        ensures
            r.wf(),
            r@.records == Map::<Seq<u8>, RecordView>::empty(),
            r@.balances == Map::<Seq<u8>, u64>::empty(),
    {
        let l = Ledger { records: Vec::new(), balances: Vec::new() };
        proof {
            assert(l@.records =~= Map::<Seq<u8>, RecordView>::empty());
            assert(l@.balances =~= Map::<Seq<u8>, u64>::empty());
        }
        l
    }

    /// Every stored record is visible in the view at its own address, with
    /// its own content.
    proof fn lemma_records_view(&self)
        requires
            self.wf(),
        ensures
            forall|i: int| 0 <= i < self.records@.len()
                ==> self@.records.dom().contains((#[trigger] self.records@[i]).0@)
                    && self@.records[self.records@[i].0@] == self.records@[i].1@,
    {
        assert forall|i: int| 0 <= i < self.records@.len()
            implies self@.records.dom().contains((#[trigger] self.records@[i]).0@)
                && self@.records[self.records@[i].0@] == self.records@[i].1@ by {
            let k = self.records@[i].0@;
            assert(0 <= i < self.records@.len() && self.records@[i].0@ == k);
            let j = choose|j: int|
                0 <= j < self.records@.len() && (#[trigger] self.records@[j]).0@ == k;
            if j < i {
                assert(self.records@[j].0@ != self.records@[i].0@);
            } else if i < j {
                assert(self.records@[i].0@ != self.records@[j].0@);
            }
            assert(j == i);
        }
    }

    /// Every stored balance entry is visible in the view at its own account
    /// address, with its own amount.
    proof fn lemma_balances_view(&self)
        requires
            self.wf(),
        ensures
            forall|i: int| 0 <= i < self.balances@.len()
                ==> self@.balances.dom().contains((#[trigger] self.balances@[i]).0@)
                    && self@.balances[self.balances@[i].0@] == self.balances@[i].1,
    {
        assert forall|i: int| 0 <= i < self.balances@.len()
            implies self@.balances.dom().contains((#[trigger] self.balances@[i]).0@)
                && self@.balances[self.balances@[i].0@] == self.balances@[i].1 by {
            let k = self.balances@[i].0@;
            assert(0 <= i < self.balances@.len() && self.balances@[i].0@ == k);
            let j = choose|j: int|
                0 <= j < self.balances@.len() && (#[trigger] self.balances@[j]).0@ == k;
            if j < i {
                assert(self.balances@[j].0@ != self.balances@[i].0@);
            } else if i < j {
                assert(self.balances@[i].0@ != self.balances@[j].0@);
            }
            assert(j == i);
        }
    }

    /// The registry's data-model invariant, visible at the view: every
    /// record sits at the storage address derived from the application it
    /// stores, so "a record exists at the derivation for `app`" and "`app`
    /// is registered" coincide, and each application has at most one record.
    pub proof fn lemma_records_at_derived_address(&self)
        requires
            self.wf(),
        ensures
            forall|k: Seq<u8>| #[trigger] self@.records.dom().contains(k)
                ==> k == derive_spec(self@.records[k].app),
    {
        assert forall|k: Seq<u8>| #[trigger] self@.records.dom().contains(k)
            implies k == derive_spec(self@.records[k].app) by {
            let i = choose|i: int|
                0 <= i < self.records@.len() && (#[trigger] self.records@[i]).0@ == k;
            assert(self.records@[i].0@ == derive_spec(self.records@[i].1.app@));
        }
    }

    /// Finds the index of the record stored at `addr`, if any.
    fn find_record(&self, addr: &StorageAddress) -> (r: Option<usize>)
        ensures
            match r {
                Some(i) => i < self.records@.len() && self.records@[i as int].0@ == addr@,
                None => forall|i: int|
                    0 <= i < self.records@.len() ==> (#[trigger] self.records@[i]).0@ != addr@,
            },
    {
        let n = self.records.len();
        let mut i: usize = 0;
        while i < n
            invariant
                n == self.records@.len(),
                i <= n,
                forall|j: int| 0 <= j < i ==> (#[trigger] self.records@[j]).0@ != addr@,
            decreases n - i,
        {
            if storage_address_eq(&self.records[i].0, addr) {
                return Some(i);
            }
            i = i + 1;
        }
        None
    }

    /// Finds the index of the balance entry for account `who`, if any.
    fn find_balance(&self, who: &Pubkey) -> (r: Option<usize>)
        ensures
            match r {
                Some(i) => i < self.balances@.len() && self.balances@[i as int].0@ == who@,
                None => forall|i: int|
                    0 <= i < self.balances@.len() ==> (#[trigger] self.balances@[i]).0@ != who@,
            },
    {
        let n = self.balances.len();
        let mut i: usize = 0;
        while i < n
            invariant
                n == self.balances@.len(),
                i <= n,
                forall|j: int| 0 <= j < i ==> (#[trigger] self.balances@[j]).0@ != who@,
            decreases n - i,
        {
            if crate::addresses::pubkey_eq(&self.balances[i].0, who) {
                return Some(i);
            }
            i = i + 1;
        }
        None
    }

    /// True iff a registration record has been allocated at `addr`.
    pub fn record_exists(&self, addr: &StorageAddress) -> (r: bool)
        requires
            self.wf(),
        ensures
            r == self@.records.dom().contains(addr@),
    {
        proof {
            self.lemma_records_view();
        }
        match self.find_record(addr) {
            Some(_) => true,
            None => false,
        }
    }

    /// Reads the record stored at `addr`: `Some` exactly when the slot is
    /// allocated, and then with the stored content.
    pub fn read_record(&self, addr: &StorageAddress) -> (r: Option<OAppRecord>)
        requires
            self.wf(),
        ensures
            match r {
                Some(rec) => self@.records.dom().contains(addr@)
                    && rec@ == self@.records[addr@],
                None => !self@.records.dom().contains(addr@),
            },
    {
        proof {
            self.lemma_records_view();
        }
        match self.find_record(addr) {
            Some(i) => Some(self.records[i].1),
            None => None,
        }
    }

    /// The balance held for account `who`; an account with no entry holds
    /// nothing.
    pub fn balance_of(&self, who: &Pubkey) -> (r: u64)
        requires
            self.wf(),
        ensures
            r == balance_in(self@, who@),
    {
        proof {
            self.lemma_balances_view();
        }
        match self.find_balance(who) {
            Some(i) => self.balances[i].1,
            None => 0,
        }
    }

    /// Overwriting the amount of one balance entry in place keeps the ledger
    /// well-formed and rebinds exactly that entry's account in the view.
    proof fn lemma_balance_entry_update(pre: Ledger, post: Ledger, i: int, v: u64)
        requires
            pre.wf(),
            0 <= i < pre.balances@.len(),
            post.records@ == pre.records@,
            post.balances@ == pre.balances@.update(i, (pre.balances@[i].0, v)),
        ensures
            post.wf(),
            post@.records == pre@.records,
            post@.balances == pre@.balances.insert(pre.balances@[i].0@, v),
    {
        let who = pre.balances@[i].0@;
        assert forall|p: int, q: int| 0 <= p < q < post.balances@.len()
            implies (#[trigger] post.balances@[p]).0@
                != (#[trigger] post.balances@[q]).0@ by {
            assert(pre.balances@[p].0@ != pre.balances@[q].0@);
        }
        post.lemma_balances_view();
        assert(post.balances@[i].1 == v);
        assert(post@.balances[who] == v);
        assert forall|k: Seq<u8>|
            post@.balances.dom().contains(k)
                == #[trigger] pre@.balances.insert(who, v).dom().contains(k) by {
            if post@.balances.dom().contains(k) {
                let p = choose|p: int|
                    0 <= p < post.balances@.len()
                        && (#[trigger] post.balances@[p]).0@ == k;
                assert(pre.balances@[p].0@ == k);
            }
            if pre@.balances.dom().contains(k) {
                let p = choose|p: int|
                    0 <= p < pre.balances@.len()
                        && (#[trigger] pre.balances@[p]).0@ == k;
                assert(post.balances@[p].0@ == k);
            }
        }
        assert forall|k: Seq<u8>|
            post@.balances.dom().contains(k) && k != who
                implies post@.balances[k] == #[trigger] pre@.balances[k] by {
            let p = choose|p: int|
                0 <= p < post.balances@.len()
                    && (#[trigger] post.balances@[p]).0@ == k;
            assert(p != i);
            assert(post.balances@[p] == pre.balances@[p]);
            pre.lemma_balances_view();
            assert(pre@.balances[k] == pre.balances@[p].1);
            assert(post@.balances[k] == post.balances@[p].1);
        }
        assert(post@.balances =~= pre@.balances.insert(who, v));
        assert(post@.records =~= pre@.records);
    }

    /// Adds `amount` to the balance of account `who`, leaving every other
    /// account and every record as it was.
    pub fn credit(&mut self, who: &Pubkey, amount: u64)
        requires
            old(self).wf(),
            balance_in(old(self)@, who@) + amount <= u64::MAX,
        ensures
            final(self).wf(),
            final(self)@.records == old(self)@.records,
            final(self)@.balances == old(self)@.balances.insert(
                who@,
                (balance_in(old(self)@, who@) + amount) as u64,
            ),
    {
        proof {
            self.lemma_balances_view();
        }
        let ghost pre = *self;
        let ghost v = (balance_in(pre@, who@) + amount) as u64;
        match self.find_balance(who) {
            Some(i) => {
                let key = self.balances[i].0;
                let cur = self.balances[i].1;
                self.balances[i] = (key, cur + amount);
                proof {
                    Self::lemma_balance_entry_update(pre, *self, i as int, v);
                }
            },
            None => {
                self.balances.push((*who, amount));
                proof {
                    assert(!pre@.balances.dom().contains(who@));
                    assert(v == amount);
                    Self::lemma_balance_append(pre, *self);
                }
            },
        }
    }

    /// Appending a balance entry for an account that has none keeps the
    /// ledger well-formed and adds exactly that binding to the view.
    proof fn lemma_balance_append(pre: Ledger, post: Ledger)
        requires
            pre.wf(),
            post.records@ == pre.records@,
            post.balances@.len() == pre.balances@.len() + 1,
            post.balances@ == pre.balances@.push(post.balances@.last()),
            !pre@.balances.dom().contains(post.balances@.last().0@),
        ensures
            post.wf(),
            post@.records == pre@.records,
            post@.balances == pre@.balances.insert(
                post.balances@.last().0@,
                post.balances@.last().1,
            ),
    {
        let n = pre.balances@.len() as int;
        let who = post.balances@.last().0@;
        let v = post.balances@.last().1;
        assert forall|p: int, q: int| 0 <= p < q < post.balances@.len()
            implies (#[trigger] post.balances@[p]).0@
                != (#[trigger] post.balances@[q]).0@ by {
            if q < n {
                assert(pre.balances@[p].0@ != pre.balances@[q].0@);
            } else {
                assert(post.balances@[q].0@ == who);
                if pre.balances@[p].0@ == who {
                    assert(pre@.balances.dom().contains(who));
                }
            }
        }
        post.lemma_balances_view();
        assert(post.balances@[n].0@ == who);
        assert(post@.balances[who] == v);
        assert forall|k: Seq<u8>|
            post@.balances.dom().contains(k)
                == #[trigger] pre@.balances.insert(who, v).dom().contains(k) by {
            if post@.balances.dom().contains(k) {
                let p = choose|p: int|
                    0 <= p < post.balances@.len()
                        && (#[trigger] post.balances@[p]).0@ == k;
                if p < n {
                    assert(pre.balances@[p].0@ == k);
                } else {
                    assert(k == who);
                }
            }
            if pre@.balances.dom().contains(k) {
                let p = choose|p: int|
                    0 <= p < pre.balances@.len()
                        && (#[trigger] pre.balances@[p]).0@ == k;
                assert(post.balances@[p].0@ == k);
            }
        }
        assert forall|k: Seq<u8>|
            post@.balances.dom().contains(k) && k != who
                implies post@.balances[k] == #[trigger] pre@.balances[k] by {
            let p = choose|p: int|
                0 <= p < post.balances@.len()
                    && (#[trigger] post.balances@[p]).0@ == k;
            assert(p < n);
            assert(post.balances@[p] == pre.balances@[p]);
            pre.lemma_balances_view();
            assert(pre@.balances[k] == pre.balances@[p].1);
            assert(post@.balances[k] == post.balances@[p].1);
        }
        assert(post@.balances =~= pre@.balances.insert(who, v));
        assert(post@.records =~= pre@.records);
    }

    /// Removes `amount` from the balance of account `who`, which must cover
    /// it, leaving every other account and every record as it was.
    fn debit(&mut self, who: &Pubkey, amount: u64)
        requires
            old(self).wf(),
            amount > 0,
            balance_in(old(self)@, who@) >= amount,
        ensures
            final(self).wf(),
            final(self)@.records == old(self)@.records,
            final(self)@.balances == old(self)@.balances.insert(
                who@,
                (balance_in(old(self)@, who@) - amount) as u64,
            ),
    {
        proof {
            self.lemma_balances_view();
        }
        let ghost pre = *self;
        let ghost v = (balance_in(pre@, who@) - amount) as u64;
        match self.find_balance(who) {
            Some(i) => {
                let key = self.balances[i].0;
                let cur = self.balances[i].1;
                self.balances[i] = (key, cur - amount);
                proof {
                    Self::lemma_balance_entry_update(pre, *self, i as int, v);
                }
            },
            None => {
                proof {
                    assert(!pre@.balances.dom().contains(who@));
                    assert(balance_in(pre@, who@) == 0);
                    assert(false);
                }
            },
        }
    }

    /// The sole write path into the registry.
    ///
    /// Verifies that `storage_address` equals the derivation for the
    /// application named in `params`, that the derived slot is still free,
    /// and that `funder` covers the allocation cost; the first violated
    /// condition names the error and nothing changes.  On success the record
    /// {application, delegate} is created at the derived address and the
    /// cost is debited from `funder`, as one atomic step.
    pub fn register_oapp(
        &mut self,
        params: &RegisterOAppParams,
        storage_address: &StorageAddress,
        funder: &Pubkey,
    ) -> (r: Result<(), RegisterError>)
        requires
            old(self).wf(),
        ensures
            final(self).wf(),
            final(self)@ == register_outcome(
                old(self)@,
                params.oapp@,
                params.delegate@,
                storage_address@,
                funder@,
            ).0,
            r == register_outcome(
                old(self)@,
                params.oapp@,
                params.delegate@,
                storage_address@,
                funder@,
            ).1,
    {
        let derived = crate::addresses::derive(&params.oapp);
        if !storage_address_eq(storage_address, &derived) {
            return Err(RegisterError::AddressMismatch);
        }
        if self.record_exists(&derived) {
            return Err(RegisterError::AlreadyRegistered);
        }
        let bal = self.balance_of(funder);
        if bal < OAPP_ALLOCATION_COST {
            return Err(RegisterError::InsufficientFunds);
        }
        let ghost pre = *self;
        self.debit(funder, OAPP_ALLOCATION_COST);
        let ghost mid = *self;
        let record = OAppRecord { app: params.oapp, delegate: params.delegate };
        self.records.push((derived, record));
        proof {
            Self::lemma_record_append(mid, *self);
            assert(self@.records =~= pre@.records.insert(
                derive_spec(params.oapp@),
                RecordView { app: params.oapp@, delegate: params.delegate@ },
            ));
            assert(self@ =~= register_outcome(
                pre@,
                params.oapp@,
                params.delegate@,
                storage_address@,
                funder@,
            ).0);
        }
        Ok(())
    }

    /// Appending a record whose storage address is the derivation for the
    /// application it stores, to a ledger that has no record at that
    /// address, keeps the ledger well-formed and adds exactly that binding
    /// to the view.
    proof fn lemma_record_append(pre: Ledger, post: Ledger)
        requires
            pre.wf(),
            post.balances@ == pre.balances@,
            post.records@.len() == pre.records@.len() + 1,
            post.records@ == pre.records@.push(post.records@.last()),
            post.records@.last().0@ == derive_spec(post.records@.last().1.app@),
            !pre@.records.dom().contains(post.records@.last().0@),
        ensures
            post.wf(),
            post@.balances == pre@.balances,
            post@.records == pre@.records.insert(
                post.records@.last().0@,
                post.records@.last().1@,
            ),
    {
        let n = pre.records@.len() as int;
        let key = post.records@.last().0@;
        let val = post.records@.last().1@;
        assert forall|p: int, q: int| 0 <= p < q < post.records@.len()
            implies (#[trigger] post.records@[p]).0@
                != (#[trigger] post.records@[q]).0@ by {
            if q < n {
                assert(pre.records@[p].0@ != pre.records@[q].0@);
            } else {
                assert(post.records@[q].0@ == key);
                if pre.records@[p].0@ == key {
                    assert(pre@.records.dom().contains(key));
                }
            }
        }
        assert forall|p: int| 0 <= p < post.records@.len()
            implies (#[trigger] post.records@[p]).0@
                == derive_spec(post.records@[p].1.app@) by {
            if p < n {
                assert(pre.records@[p].0@ == derive_spec(pre.records@[p].1.app@));
            }
        }
        post.lemma_records_view();
        assert(post.records@[n].0@ == key);
        assert(post@.records[key] == val);
        assert forall|k: Seq<u8>|
            post@.records.dom().contains(k)
                == #[trigger] pre@.records.insert(key, val).dom().contains(k) by {
            if post@.records.dom().contains(k) {
                let p = choose|p: int|
                    0 <= p < post.records@.len()
                        && (#[trigger] post.records@[p]).0@ == k;
                if p < n {
                    assert(pre.records@[p].0@ == k);
                } else {
                    assert(k == key);
                }
            }
            if pre@.records.dom().contains(k) {
                let p = choose|p: int|
                    0 <= p < pre.records@.len()
                        && (#[trigger] pre.records@[p]).0@ == k;
                assert(post.records@[p].0@ == k);
            }
        }
        assert forall|k: Seq<u8>|
            post@.records.dom().contains(k) && k != key
                implies post@.records[k] == #[trigger] pre@.records[k] by {
            let p = choose|p: int|
                0 <= p < post.records@.len()
                    && (#[trigger] post.records@[p]).0@ == k;
            assert(p < n);
            assert(post.records@[p] == pre.records@[p]);
            pre.lemma_records_view();
            assert(pre@.records[k] == pre.records@[p].1@);
            assert(post@.records[k] == post.records@[p].1@);
        }
        assert(post@.records =~= pre@.records.insert(key, val));
        assert(post@.balances =~= pre@.balances);
    }
}

} // verus!
