use endpoint_mock::addresses::{pubkey_eq, storage_address_eq, Pubkey, StorageAddress};
use endpoint_mock::registry::{Ledger, OAPP_ALLOCATION_COST};
use endpoint_mock::state::{RegisterError, RegisterOAppParams};

fn key(n: u8) -> Pubkey {
    Pubkey::new([n; 32])
}

fn funded_ledger(funder: &Pubkey, amount: u64) -> Ledger {
    let mut ledger = Ledger::new();
    ledger.credit(funder, amount);
    ledger
}

#[test]
fn derive_is_prefixed_with_seed() {
    let app = key(7);
    let addr = endpoint_mock::addresses::derive(&app);
    assert_eq!(addr.bytes.len(), 36);
    assert_eq!(&addr.bytes[..4], b"OApp");
    assert_eq!(&addr.bytes[4..], &[7u8; 32][..]);
}

#[test]
fn derive_distinct_apps_distinct_addresses() {
    let a1 = key(1);
    let a2 = key(2);
    let d1 = endpoint_mock::addresses::derive(&a1);
    let d2 = endpoint_mock::addresses::derive(&a2);
    assert_ne!(d1.bytes, d2.bytes);
}

#[test]
fn derive_is_deterministic() {
    let app = key(9);
    assert_eq!(endpoint_mock::addresses::derive(&app).bytes, endpoint_mock::addresses::derive(&app).bytes);
}

#[test]
fn pubkey_eq_decides_byte_equality() {
    assert!(pubkey_eq(&key(5), &key(5)));
    assert!(!pubkey_eq(&key(5), &key(6)));
}

#[test]
fn storage_address_eq_decides_byte_equality() {
    let a = endpoint_mock::addresses::derive(&key(3));
    let b = endpoint_mock::addresses::derive(&key(3));
    let c = endpoint_mock::addresses::derive(&key(4));
    assert!(storage_address_eq(&a, &b));
    assert!(!storage_address_eq(&a, &c));
    let short = StorageAddress::from_bytes(vec![79u8, 65u8]);
    assert!(!storage_address_eq(&a, &short));
}

#[test]
fn register_then_read_returns_stored_record() {
    let app = key(1);
    let delegate = key(2);
    let funder = key(3);
    let mut ledger = funded_ledger(&funder, OAPP_ALLOCATION_COST);
    let params = RegisterOAppParams { oapp: app, delegate };
    let r = ledger.register_oapp(&params, &endpoint_mock::addresses::derive(&app), &funder);
    assert_eq!(r, Ok(()));
    let record = ledger.read_record(&endpoint_mock::addresses::derive(&app)).expect("record must exist");
    assert!(pubkey_eq(&record.app, &app));
    assert!(pubkey_eq(&record.delegate, &delegate));
}

#[test]
fn register_twice_fails_and_keeps_first_delegate() {
    let app = key(1);
    let first_delegate = key(2);
    let second_delegate = key(4);
    let funder = key(3);
    let mut ledger = funded_ledger(&funder, 3 * OAPP_ALLOCATION_COST);
    let first = RegisterOAppParams { oapp: app, delegate: first_delegate };
    assert_eq!(ledger.register_oapp(&first, &endpoint_mock::addresses::derive(&app), &funder), Ok(()));
    let second = RegisterOAppParams { oapp: app, delegate: second_delegate };
    let r = ledger.register_oapp(&second, &endpoint_mock::addresses::derive(&app), &funder);
    assert_eq!(r, Err(RegisterError::AlreadyRegistered));
    let record = ledger.read_record(&endpoint_mock::addresses::derive(&app)).expect("record must exist");
    assert!(pubkey_eq(&record.delegate, &first_delegate));
}

#[test]
fn wrong_storage_address_is_rejected() {
    let app = key(1);
    let funder = key(3);
    let mut ledger = funded_ledger(&funder, OAPP_ALLOCATION_COST);
    let params = RegisterOAppParams { oapp: app, delegate: key(2) };
    let wrong = endpoint_mock::addresses::derive(&key(9));
    let r = ledger.register_oapp(&params, &wrong, &funder);
    assert_eq!(r, Err(RegisterError::AddressMismatch));
    assert!(!ledger.record_exists(&endpoint_mock::addresses::derive(&app)));
    assert!(ledger.read_record(&endpoint_mock::addresses::derive(&app)).is_none());
}

#[test]
fn two_distinct_apps_both_register() {
    let a1 = key(1);
    let a2 = key(2);
    let funder = key(3);
    let mut ledger = funded_ledger(&funder, 2 * OAPP_ALLOCATION_COST);
    let params1 = RegisterOAppParams { oapp: a1, delegate: key(11) };
    let params2 = RegisterOAppParams { oapp: a2, delegate: key(12) };
    assert_eq!(ledger.register_oapp(&params1, &endpoint_mock::addresses::derive(&a1), &funder), Ok(()));
    assert_eq!(ledger.register_oapp(&params2, &endpoint_mock::addresses::derive(&a2), &funder), Ok(()));
    assert_ne!(endpoint_mock::addresses::derive(&a1).bytes, endpoint_mock::addresses::derive(&a2).bytes);
    let r1 = ledger.read_record(&endpoint_mock::addresses::derive(&a1)).expect("first record");
    let r2 = ledger.read_record(&endpoint_mock::addresses::derive(&a2)).expect("second record");
    assert!(pubkey_eq(&r1.app, &a1));
    assert!(pubkey_eq(&r1.delegate, &key(11)));
    assert!(pubkey_eq(&r2.app, &a2));
    assert!(pubkey_eq(&r2.delegate, &key(12)));
}

#[test]
fn zero_balance_funder_is_rejected() {
    let app = key(1);
    let funder = key(3);
    let mut ledger = Ledger::new();
    let params = RegisterOAppParams { oapp: app, delegate: key(2) };
    let r = ledger.register_oapp(&params, &endpoint_mock::addresses::derive(&app), &funder);
    assert_eq!(r, Err(RegisterError::InsufficientFunds));
    assert!(!ledger.record_exists(&endpoint_mock::addresses::derive(&app)));
    assert!(ledger.read_record(&endpoint_mock::addresses::derive(&app)).is_none());
}

#[test]
fn underfunded_funder_is_rejected() {
    let app = key(1);
    let funder = key(3);
    let mut ledger = funded_ledger(&funder, OAPP_ALLOCATION_COST - 1);
    let params = RegisterOAppParams { oapp: app, delegate: key(2) };
    let r = ledger.register_oapp(&params, &endpoint_mock::addresses::derive(&app), &funder);
    assert_eq!(r, Err(RegisterError::InsufficientFunds));
    assert!(!ledger.record_exists(&endpoint_mock::addresses::derive(&app)));
}

#[test]
fn successful_registration_debits_exact_cost() {
    let app = key(1);
    let funder = key(3);
    let mut ledger = funded_ledger(&funder, OAPP_ALLOCATION_COST + 250);
    let params = RegisterOAppParams { oapp: app, delegate: key(2) };
    assert_eq!(ledger.register_oapp(&params, &endpoint_mock::addresses::derive(&app), &funder), Ok(()));
    assert_eq!(ledger.balance_of(&funder), 250);
}

#[test]
fn failed_registration_debits_nothing() {
    let app = key(1);
    let funder = key(3);
    let mut ledger = funded_ledger(&funder, OAPP_ALLOCATION_COST);
    let already = RegisterOAppParams { oapp: app, delegate: key(2) };
    assert_eq!(ledger.register_oapp(&already, &endpoint_mock::addresses::derive(&app), &funder), Ok(()));
    assert_eq!(ledger.balance_of(&funder), 0);
    let again = RegisterOAppParams { oapp: app, delegate: key(2) };
    assert_eq!(
        ledger.register_oapp(&again, &endpoint_mock::addresses::derive(&app), &funder),
        Err(RegisterError::AlreadyRegistered)
    );
    assert_eq!(ledger.balance_of(&funder), 0);
}

#[test]
fn credit_accumulates_per_account() {
    let alice = key(1);
    let bob = key(2);
    let mut ledger = Ledger::new();
    assert_eq!(ledger.balance_of(&alice), 0);
    ledger.credit(&alice, 100);
    ledger.credit(&alice, 50);
    ledger.credit(&bob, 7);
    assert_eq!(ledger.balance_of(&alice), 150);
    assert_eq!(ledger.balance_of(&bob), 7);
}

#[test]
fn record_exists_tracks_registration() {
    let app = key(1);
    let funder = key(3);
    let mut ledger = funded_ledger(&funder, OAPP_ALLOCATION_COST);
    assert!(!ledger.record_exists(&endpoint_mock::addresses::derive(&app)));
    let params = RegisterOAppParams { oapp: app, delegate: key(2) };
    assert_eq!(ledger.register_oapp(&params, &endpoint_mock::addresses::derive(&app), &funder), Ok(()));
    assert!(ledger.record_exists(&endpoint_mock::addresses::derive(&app)));
}
