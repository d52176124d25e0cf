use balance_tracker::balances::{load_addresses, AddressState, BalanceLookup, Balances};
use balance_tracker::url::URL;

const ALICE: &str = "5GrwvaEF5zXb26Fz9rcQpDWS57CtERHpNehXCPcNoHGKutQY";
const BOB: &str = "5FHneW46xGXgs5mUiveU4sbTyGBzmstUspZC92UhjJM694ty";

#[test]
fn url_to_string_copies_the_text() {
    assert_eq!(URL("ws://127.0.0.1:9944").to_string(), "ws://127.0.0.1:9944".to_string());
    assert_eq!(URL("").to_string(), String::new());
}

#[test]
fn empty_index_tracks_nothing() {
    let index = Balances::new();
    assert!(index.list_tracked().is_empty());
    assert!(!index.is_tracked(ALICE));
    assert_eq!(index.get_balance(ALICE, 0), BalanceLookup::NotTracked);
    assert_eq!(index.get_balance(ALICE, u32::MAX), BalanceLookup::NotTracked);
}

#[test]
fn register_reports_only_the_first_insertion() {
    let mut index = Balances::new();
    assert!(index.register(ALICE.to_string()));
    assert!(!index.register(ALICE.to_string()));
    assert!(index.register(BOB.to_string()));
    assert_eq!(index.list_tracked(), vec![ALICE.to_string(), BOB.to_string()]);
}

#[test]
fn fresh_address_is_not_yet_indexed_at_any_block() {
    let mut index = Balances::new();
    index.register(ALICE.to_string());
    for block_no in [0u32, 1, 99, 100, u32::MAX] {
        assert_eq!(index.get_balance(ALICE, block_no), BalanceLookup::NotYetIndexed);
    }
}

#[test]
fn unregistered_address_is_not_tracked_at_any_block() {
    let mut index = Balances::new();
    index.register(ALICE.to_string());
    index.record_balance(ALICE, 7, 1);
    for block_no in [0u32, 7, u32::MAX] {
        assert_eq!(index.get_balance(BOB, block_no), BalanceLookup::NotTracked);
    }
}

#[test]
fn record_balance_writes_one_block_of_one_address() {
    let mut index = Balances::new();
    index.register(ALICE.to_string());
    index.register(BOB.to_string());
    assert!(index.record_balance(ALICE, 100, 500));
    assert_eq!(index.get_balance(ALICE, 100), BalanceLookup::Found(500));
    assert_eq!(index.get_balance(ALICE, 99), BalanceLookup::NotYetIndexed);
    assert_eq!(index.get_balance(ALICE, 101), BalanceLookup::NotYetIndexed);
    assert_eq!(index.get_balance(BOB, 100), BalanceLookup::NotYetIndexed);
}

#[test]
fn record_balance_upserts() {
    let mut index = Balances::new();
    index.register(ALICE.to_string());
    assert!(index.record_balance(ALICE, 5, 10));
    assert!(index.record_balance(ALICE, 5, 11));
    assert_eq!(index.get_balance(ALICE, 5), BalanceLookup::Found(11));
    assert!(index.record_balance(ALICE, 6, u64::MAX));
    assert_eq!(index.get_balance(ALICE, 6), BalanceLookup::Found(u64::MAX));
    assert_eq!(index.get_balance(ALICE, 5), BalanceLookup::Found(11));
}

#[test]
fn record_balance_ignores_an_untracked_address() {
    let mut index = Balances::new();
    index.register(ALICE.to_string());
    assert!(!index.record_balance(BOB, 1, 2));
    assert_eq!(index.get_balance(BOB, 1), BalanceLookup::NotTracked);
    assert_eq!(index.list_tracked(), vec![ALICE.to_string()]);
}

#[test]
fn registering_again_keeps_the_history() {
    let mut index = Balances::new();
    index.register(ALICE.to_string());
    index.record_balance(ALICE, 3, 30);
    assert!(!index.register(ALICE.to_string()));
    assert_eq!(index.get_balance(ALICE, 3), BalanceLookup::Found(30));
}

#[test]
fn initialize_starts_every_row_with_an_empty_history() {
    let rows = vec![ALICE.to_string(), BOB.to_string(), ALICE.to_string()];
    let index = Balances::initialize(&rows);
    assert_eq!(index.list_tracked(), vec![ALICE.to_string(), BOB.to_string()]);
    assert_eq!(index.get_balance(ALICE, 1), BalanceLookup::NotYetIndexed);
    assert_eq!(index.get_balance(BOB, 1), BalanceLookup::NotYetIndexed);
    assert_eq!(index.get_balance("someone else", 1), BalanceLookup::NotTracked);
}

#[test]
fn initialize_with_no_rows_is_empty() {
    let index = Balances::initialize(&Vec::new());
    assert!(index.list_tracked().is_empty());
}

#[test]
fn load_addresses_keeps_existing_histories() {
    let mut index = Balances::new();
    index.register(ALICE.to_string());
    index.record_balance(ALICE, 9, 90);
    load_addresses(&vec![BOB.to_string(), ALICE.to_string()], &mut index);
    assert_eq!(index.get_balance(ALICE, 9), BalanceLookup::Found(90));
    assert_eq!(index.get_balance(BOB, 9), BalanceLookup::NotYetIndexed);
    assert_eq!(index.list_tracked(), vec![ALICE.to_string(), BOB.to_string()]);
}

#[test]
fn addresses_are_compared_exactly() {
    let mut index = Balances::new();
    index.register("abc".to_string());
    assert!(index.is_tracked("abc"));
    assert!(!index.is_tracked("ab"));
    assert!(!index.is_tracked("abcd"));
    assert!(!index.is_tracked("ABC"));
    assert!(!index.is_tracked(""));
}

#[test]
fn an_address_moves_forward_through_its_life() {
    let mut index = Balances::new();
    assert_eq!(index.state_of(ALICE), AddressState::Unknown);
    index.record_balance(ALICE, 1, 1);
    assert_eq!(index.state_of(ALICE), AddressState::Unknown);
    index.register(ALICE.to_string());
    assert_eq!(index.state_of(ALICE), AddressState::TrackedEmpty);
    index.register(ALICE.to_string());
    assert_eq!(index.state_of(ALICE), AddressState::TrackedEmpty);
    index.record_balance(ALICE, 1, 0);
    assert_eq!(index.state_of(ALICE), AddressState::TrackedPartial);
    index.register(ALICE.to_string());
    index.register(BOB.to_string());
    assert_eq!(index.state_of(ALICE), AddressState::TrackedPartial);
    assert_eq!(index.state_of(BOB), AddressState::TrackedEmpty);
}
