use authenticated_ledger::{
    AccountDirectory, AccountId, AccountInformation, AccountPublicKey, Amount,
};

fn key(tag: u8) -> AccountPublicKey {
    let mut bytes = [tag; 64];
    bytes[0] = 1;
    AccountPublicKey { bytes }
}

#[test]
fn empty_directory_finds_nothing() {
    let directory = AccountDirectory::new();
    assert_eq!(directory.lookup_id(&key(1)), None);
    for id in [0u8, 1, 255] {
        assert_eq!(directory.lookup_info(AccountId(id)), None);
    }
}

#[test]
fn register_binds_both_ways_with_zero_balance() {
    let mut directory = AccountDirectory::new();
    let info = directory.register(AccountId(3), key(7));
    assert_eq!(info, AccountInformation { public_key: key(7), balance: Amount(0) });
    assert_eq!(directory.lookup_id(&key(7)), Some(AccountId(3)));
    assert_eq!(directory.lookup_info(AccountId(3)), Some(info));
    assert_eq!(directory.lookup_id(&key(8)), None);
    assert_eq!(directory.lookup_info(AccountId(4)), None);
}

#[test]
fn lookups_invert_one_another() {
    let mut directory = AccountDirectory::new();
    for id in 0u8..40 {
        directory.register(AccountId(id), key(id.wrapping_mul(3).wrapping_add(5)));
    }
    for id in 0u8..40 {
        let info = directory.lookup_info(AccountId(id)).unwrap();
        assert_eq!(info.public_key, key(id.wrapping_mul(3).wrapping_add(5)));
        assert_eq!(directory.lookup_id(&info.public_key), Some(AccountId(id)));
    }
}

#[test]
fn set_balance_overwrites_in_place() {
    let mut directory = AccountDirectory::new();
    directory.register(AccountId(1), key(1));
    directory.register(AccountId(2), key(2));
    assert!(directory.set_balance(AccountId(1), Amount(500)));
    assert_eq!(
        directory.lookup_info(AccountId(1)),
        Some(AccountInformation { public_key: key(1), balance: Amount(500) })
    );
    assert_eq!(
        directory.lookup_info(AccountId(2)),
        Some(AccountInformation { public_key: key(2), balance: Amount(0) })
    );
    assert!(directory.set_balance(AccountId(1), Amount(20)));
    assert_eq!(directory.lookup_info(AccountId(1)).unwrap().balance, Amount(20));
    assert_eq!(directory.lookup_id(&key(1)), Some(AccountId(1)));
}

#[test]
fn set_balance_misses_an_unassigned_identifier() {
    let mut directory = AccountDirectory::new();
    directory.register(AccountId(1), key(1));
    assert!(!directory.set_balance(AccountId(9), Amount(500)));
    assert_eq!(directory.lookup_info(AccountId(9)), None);
    assert_eq!(
        directory.lookup_info(AccountId(1)),
        Some(AccountInformation { public_key: key(1), balance: Amount(0) })
    );
}

#[test]
fn registering_an_identifier_again_replaces_its_record() {
    let mut directory = AccountDirectory::new();
    directory.register(AccountId(1), key(1));
    directory.set_balance(AccountId(1), Amount(77));
    directory.register(AccountId(1), key(2));
    assert_eq!(
        directory.lookup_info(AccountId(1)),
        Some(AccountInformation { public_key: key(2), balance: Amount(0) })
    );
    assert_eq!(directory.lookup_id(&key(2)), Some(AccountId(1)));
    // The earlier key stays bound, though no record carries it any more.
    assert_eq!(directory.lookup_id(&key(1)), Some(AccountId(1)));
}

#[test]
fn registering_a_key_again_rebinds_it() {
    let mut directory = AccountDirectory::new();
    directory.register(AccountId(1), key(1));
    directory.register(AccountId(2), key(1));
    assert_eq!(directory.lookup_id(&key(1)), Some(AccountId(2)));
    // The earlier record stays, but its key no longer leads back to it.
    assert_eq!(
        directory.lookup_info(AccountId(1)),
        Some(AccountInformation { public_key: key(1), balance: Amount(0) })
    );
    assert_eq!(
        directory.lookup_info(AccountId(2)),
        Some(AccountInformation { public_key: key(1), balance: Amount(0) })
    );
}
