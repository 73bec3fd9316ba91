use name_registry::Config;
use name_registry::Error;
use name_registry::Event;
use name_registry::GenesisConfig;
use name_registry::Ledger;
use name_registry::NameEntry;
use name_registry::Registry;

fn test_config() -> Config {
    Config {
        max_name_owned: 10,
        block_reservation_cost: 1,
        min_length: 2,
        max_length: 64,
        registry_account: 100,
    }
}

fn new_registry() -> Registry {
    let mut ledger = Ledger::new();
    ledger.set_balance(200, 1000);
    ledger.set_balance(300, 1000);
    Registry::new(test_config(), ledger)
}

fn sample_name() -> Vec<u8> {
    vec![48, 62, 77, 66, 21, 55, 121, 55]
}

#[test]
fn can_register() {
    let mut reg = new_registry();
    let name = sample_name();
    assert!(reg.register(200, name.clone(), 40, 1).is_ok());

    let name_hash = Registry::name_id(&name);

    let name_entry = reg.name_entries(&name_hash);

    assert_eq!(
        name_entry,
        Some(NameEntry {
            owner: 200,
            name: name.clone(),
            expires_at: 41
        })
    );

    assert_eq!(reg.name_cnt(), 1);

    let owned = reg.name_entries_owned(200);
    assert_eq!(owned.len(), 1);
    assert_eq!(owned[0], name_hash);

    assert_eq!(reg.is_name_owner(&name_hash, &200).unwrap_or(false), true);

    assert_eq!(
        reg.last_event(),
        Some(&Event::Registered(200, name.clone(), 41))
    );
}

#[test]
fn can_renew() {
    let mut reg = new_registry();
    let name = sample_name();
    assert!(reg.register(200, name.clone(), 40, 1).is_ok());

    assert!(reg.renew(200, name.clone(), 2, 1).is_ok());
    assert_eq!(
        reg.last_event(),
        Some(&Event::Renewed(200, name.clone(), 43))
    );
}

#[test]
fn can_cancel() {
    let mut reg = new_registry();
    let name = sample_name();
    assert!(reg.register(200, name.clone(), 40, 1).is_ok());

    assert!(reg.cancel(200, name.clone(), 1).is_ok());
    assert_eq!(
        reg.last_event(),
        Some(&Event::Canceled(200, name.clone(), 1))
    );
}

#[test]
fn register_charges_the_fee_and_fills_the_index() {
    let mut reg = new_registry();
    let name = sample_name();
    assert!(reg.register(200, name.clone(), 40, 1).is_ok());
    assert_eq!(reg.free_balance(200), 960);
    assert_eq!(reg.free_balance(100), 40);
    let entry = reg.name_entries(&name).unwrap();
    assert_eq!(entry.expires_at, 41);
    assert_eq!(entry.owner, 200);
    assert_eq!(reg.name_cnt(), 1);
}

#[test]
fn renew_extends_from_the_prior_expiry_not_from_now() {
    let mut reg = new_registry();
    let name = sample_name();
    assert!(reg.register(200, name.clone(), 40, 1).is_ok());
    assert!(reg.renew(200, name.clone(), 2, 1).is_ok());
    let entry = reg.name_entries(&name).unwrap();
    assert_eq!(entry.expires_at, 43);
    assert_eq!(reg.free_balance(200), 958);
    assert_eq!(reg.free_balance(100), 42);
}

#[test]
fn cancel_refunds_the_remaining_units() {
    let mut reg = new_registry();
    let name = sample_name();
    assert!(reg.register(200, name.clone(), 40, 1).is_ok());
    assert!(reg.cancel(200, name.clone(), 1).is_ok());
    let entry = reg.name_entries(&name).unwrap();
    assert_eq!(entry.expires_at, 1);
    assert_eq!(entry.owner, 200);
    assert_eq!(reg.free_balance(200), 1000);
    assert_eq!(reg.free_balance(100), 0);
}

#[test]
fn registering_a_live_name_fails_and_changes_nothing() {
    let mut reg = new_registry();
    let name = sample_name();
    assert!(reg.register(200, name.clone(), 40, 1).is_ok());
    let r = reg.register(300, name.clone(), 10, 1);
    assert_eq!(r, Err(Error::NameAlreadyRegistered));
    let entry = reg.name_entries(&name).unwrap();
    assert_eq!(entry.owner, 200);
    assert_eq!(entry.expires_at, 41);
    assert_eq!(reg.name_cnt(), 1);
    assert_eq!(reg.free_balance(300), 1000);
    assert_eq!(reg.free_balance(100), 40);
    assert_eq!(reg.name_entries_owned(300).len(), 0);
}

#[test]
fn registering_an_expired_name_reclaims_it_without_refund() {
    let mut reg = new_registry();
    let name = sample_name();
    assert!(reg.register(200, name.clone(), 5, 1).is_ok());
    // at time 10 the entry (expiry 6) has lapsed and may be reclaimed
    assert!(reg.register(300, name.clone(), 20, 10).is_ok());
    let entry = reg.name_entries(&name).unwrap();
    assert_eq!(entry.owner, 300);
    assert_eq!(entry.expires_at, 30);
    assert_eq!(reg.name_entries_owned(200).len(), 0);
    let owned = reg.name_entries_owned(300);
    assert_eq!(owned.len(), 1);
    assert_eq!(owned[0], name);
    assert!(reg.index.contains(300, &name));
    assert!(!reg.index.contains(200, &name));
    // the prior owner keeps paying: no refund for the lapsed reservation
    assert_eq!(reg.free_balance(200), 995);
    assert_eq!(reg.free_balance(300), 980);
    assert_eq!(reg.name_cnt(), 2);
}

#[test]
fn reregistering_an_own_expired_name_keeps_the_index_slot() {
    let mut reg = new_registry();
    let name = sample_name();
    assert!(reg.register(200, name.clone(), 5, 1).is_ok());
    assert!(reg.register(200, name.clone(), 7, 10).is_ok());
    let entry = reg.name_entries(&name).unwrap();
    assert_eq!(entry.owner, 200);
    assert_eq!(entry.expires_at, 17);
    let owned = reg.name_entries_owned(200);
    assert_eq!(owned.len(), 1);
    assert_eq!(reg.name_cnt(), 2);
}

#[test]
fn a_canceled_name_stays_taken_until_it_expires() {
    let mut reg = new_registry();
    let name = sample_name();
    assert!(reg.register(200, name.clone(), 40, 1).is_ok());
    assert!(reg.cancel(200, name.clone(), 1).is_ok());
    // at the very time of the cancel the entry is not yet expired for
    // registration purposes: expiry equals now
    assert_eq!(
        reg.register(300, name.clone(), 10, 1),
        Err(Error::NameAlreadyRegistered)
    );
    // one unit later the slot can be reclaimed
    assert!(reg.register(300, name.clone(), 10, 2).is_ok());
    assert_eq!(reg.name_entries(&name).unwrap().owner, 300);
}

#[test]
fn too_short_and_too_long_names_are_refused() {
    let mut reg = new_registry();
    assert_eq!(
        reg.register(200, vec![48, 62], 40, 1),
        Err(Error::NameTooShort)
    );
    let long = vec![55u8; 64];
    assert_eq!(reg.register(200, long, 40, 1), Err(Error::NameTooLong));
    assert_eq!(reg.name_cnt(), 0);
}

#[test]
fn zero_blocks_reserved_is_refused() {
    let mut reg = new_registry();
    let name = sample_name();
    assert_eq!(
        reg.register(200, name.clone(), 0, 1),
        Err(Error::ZeroBlocksReserved)
    );
    assert!(reg.register(200, name.clone(), 4, 1).is_ok());
    assert_eq!(
        reg.renew(200, name.clone(), 0, 1),
        Err(Error::ZeroBlocksReserved)
    );
}

#[test]
fn fee_overflow_is_refused() {
    let mut ledger = Ledger::new();
    ledger.set_balance(200, 1000);
    let cfg = Config {
        max_name_owned: 10,
        block_reservation_cost: u32::MAX,
        min_length: 2,
        max_length: 64,
        registry_account: 100,
    };
    let mut reg = Registry::new(cfg, ledger);
    assert_eq!(
        reg.register(200, sample_name(), 2, 1),
        Err(Error::FeeOverflow)
    );
}

#[test]
fn a_poor_caller_is_refused() {
    let mut reg = new_registry();
    // account 400 was never endowed
    assert_eq!(
        reg.register(400, sample_name(), 40, 1),
        Err(Error::NotEnoughBalance)
    );
}

#[test]
fn only_the_owner_may_renew_or_cancel() {
    let mut reg = new_registry();
    let name = sample_name();
    assert!(reg.register(200, name.clone(), 40, 1).is_ok());
    assert_eq!(reg.renew(300, name.clone(), 2, 1), Err(Error::NotNameOwner));
    assert_eq!(reg.cancel(300, name.clone(), 1), Err(Error::NotNameOwner));
}

#[test]
fn an_unknown_name_cannot_be_renewed_or_canceled() {
    let mut reg = new_registry();
    let name = sample_name();
    assert_eq!(reg.renew(200, name.clone(), 2, 1), Err(Error::NameNotExist));
    assert_eq!(reg.cancel(200, name, 1), Err(Error::NameNotExist));
}

#[test]
fn a_lapsed_reservation_cannot_be_canceled() {
    let mut reg = new_registry();
    let name = sample_name();
    assert!(reg.register(200, name.clone(), 5, 1).is_ok());
    assert_eq!(reg.cancel(200, name, 10), Err(Error::NameExpired));
}

#[test]
fn a_refund_wider_than_the_block_domain_is_refused() {
    let mut reg = new_registry();
    let name = sample_name();
    let now = (u32::MAX as u64) + 10;
    assert!(reg.register(200, name.clone(), 40, now).is_ok());
    // canceling at time 1 would refund more whole units than the 32-bit
    // duration domain can carry: the width guard refuses it
    assert_eq!(reg.cancel(200, name, 1), Err(Error::NameExpired));
}

#[test]
fn the_owner_capacity_is_enforced() {
    let mut ledger = Ledger::new();
    ledger.set_balance(200, 1000);
    let cfg = Config {
        max_name_owned: 1,
        block_reservation_cost: 1,
        min_length: 2,
        max_length: 64,
        registry_account: 100,
    };
    let mut reg = Registry::new(cfg, ledger);
    assert!(reg.register(200, vec![1, 2, 3], 10, 1).is_ok());
    assert_eq!(
        reg.register(200, vec![4, 5, 6], 10, 1),
        Err(Error::ExceedMaxNamesOwned)
    );
    assert_eq!(reg.name_entries_owned(200).len(), 1);
}

#[test]
fn a_counter_at_its_limit_is_refused() {
    let mut reg = new_registry();
    reg.name_cnt = u64::MAX;
    assert_eq!(
        reg.register(200, sample_name(), 40, 1),
        Err(Error::NameCntOverflow)
    );
    assert_eq!(reg.name_cnt, u64::MAX);
}

#[test]
fn an_underfunded_registry_account_cannot_refund() {
    let mut reg = new_registry();
    let name = sample_name();
    // the registry account collects a fee of 10
    assert!(reg.register(200, name.clone(), 10, 1).is_ok());
    assert_eq!(reg.free_balance(100), 10);
    // a clock read earlier than the registration leaves 11 whole units to
    // refund, one more than the treasury holds
    assert_eq!(reg.cancel(200, name, 0), Err(Error::NotEnoughBalance));
}

#[test]
fn entry_equality_is_structural() {
    let a = NameEntry {
        name: vec![1, 2, 3],
        expires_at: 7,
        owner: 9,
    };
    let b = NameEntry {
        name: vec![1, 2, 3],
        expires_at: 7,
        owner: 9,
    };
    let c = NameEntry {
        name: vec![3, 2, 1],
        expires_at: 7,
        owner: 9,
    };
    assert!(a.eq_name(vec![1, 2, 3]));
    assert!(!a.eq_name(vec![1, 2]));
    assert!(!a.eq_name(vec![3, 2, 1]));
    assert!(a.eq_name_entry(&b));
    assert!(!a.eq_name_entry(&c));
    assert_eq!(a, b);
    assert_ne!(a, c);
}

#[test]
fn the_store_knows_which_entries_are_live() {
    let mut reg = new_registry();
    let name = sample_name();
    assert!(reg.register(200, name.clone(), 5, 1).is_ok());
    assert!(reg.store.contains_live(&name, 1));
    assert!(reg.store.contains_live(&name, 5));
    assert!(!reg.store.contains_live(&name, 6));
    assert!(!reg.store.contains_live(&vec![9, 9, 9], 1));
}

#[test]
fn genesis_entries_are_loaded_through_the_same_checks() {
    let mut reg = new_registry();
    let genesis = GenesisConfig {
        name_entries: vec![
            (200, vec![1, 2, 3], 10),
            (300, vec![4, 5, 6], 20),
            // refused: the caller was never endowed
            (400, vec![7, 8, 9], 30),
        ],
    };
    genesis.build(&mut reg, 0);
    assert_eq!(reg.name_cnt(), 2);
    assert_eq!(reg.name_entries(&vec![1, 2, 3]).unwrap().expires_at, 10);
    assert_eq!(reg.name_entries(&vec![4, 5, 6]).unwrap().owner, 300);
    assert!(reg.name_entries(&vec![7, 8, 9]).is_none());
    let defaulted = GenesisConfig::default();
    assert_eq!(defaulted.name_entries.len(), 0);
}

#[test]
fn errors_leave_every_balance_and_entry_untouched() {
    let mut reg = new_registry();
    let name = sample_name();
    assert!(reg.register(200, name.clone(), 40, 1).is_ok());
    let cnt = reg.name_cnt();
    let before = reg.name_entries(&name).unwrap();
    let b200 = reg.free_balance(200);
    let b300 = reg.free_balance(300);
    let b100 = reg.free_balance(100);
    assert!(reg.register(300, name.clone(), 10, 1).is_err());
    assert!(reg.renew(300, name.clone(), 10, 1).is_err());
    assert!(reg.cancel(300, name.clone(), 1).is_err());
    assert!(reg.renew(200, name.clone(), 0, 1).is_err());
    assert_eq!(reg.name_cnt(), cnt);
    assert_eq!(reg.name_entries(&name).unwrap(), before);
    assert_eq!(reg.free_balance(200), b200);
    assert_eq!(reg.free_balance(300), b300);
    assert_eq!(reg.free_balance(100), b100);
}
