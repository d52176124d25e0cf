use balance_tracker::address::is_valid_address;
use balance_tracker::balances::{BalanceLookup, Balances};
use balance_tracker::gateway::{
    add_address, begin_add, get_balance, settle_add, step_for, AddOutcome, AddStep,
};
use balance_tracker::persistence::{
    insert_address_if_not_exist, PersistenceError, RegistryStep, StoreReply,
};

const ALICE: &str = "5GrwvaEF5zXb26Fz9rcQpDWS57CtERHpNehXCPcNoHGKutQY";
const BOB: &str = "5FHneW46xGXgs5mUiveU4sbTyGBzmstUspZC92UhjJM694ty";

fn failure() -> PersistenceError {
    PersistenceError { detail: "disk full".to_string() }
}

#[test]
fn well_formed_addresses_are_accepted() {
    assert!(is_valid_address(ALICE));
    assert!(is_valid_address(BOB));
}

#[test]
fn malformed_addresses_are_rejected() {
    assert!(!is_valid_address("not-an-address"));
    assert!(!is_valid_address(""));
    assert!(!is_valid_address("5GrwvaEF5zXb26Fz9rcQpDWS57CtERHpNehXCPcNoHGKutQ"));
    assert!(!is_valid_address("5GrwvaEF5zXb26Fz9rcQpDWS57CtERHpNehXCPcNoHGKutQZ"));
    assert!(!is_valid_address("0OIl"));
}

#[test]
fn malformed_address_never_reaches_a_store() {
    assert_eq!(begin_add("not-an-address"), AddStep::Respond(AddOutcome::InvalidFormat));
    let mut index = Balances::new();
    assert_eq!(add_address(&mut index, "not-an-address", Ok(true)), AddOutcome::InvalidFormat);
    assert_eq!(add_address(&mut index, "not-an-address", Ok(false)), AddOutcome::InvalidFormat);
    assert_eq!(
        add_address(&mut index, "not-an-address", Err(failure())),
        AddOutcome::InvalidFormat
    );
    assert!(index.list_tracked().is_empty());
    assert_eq!(get_balance(&index, "not-an-address", 1), BalanceLookup::NotTracked);
}

#[test]
fn well_formed_address_goes_on_to_the_registry() {
    assert_eq!(begin_add(ALICE), AddStep::Persist);
    assert_eq!(step_for(true), AddStep::Persist);
    assert_eq!(step_for(false), AddStep::Respond(AddOutcome::InvalidFormat));
}

#[test]
fn registering_twice_is_created_then_already_tracked() {
    let mut index = Balances::new();
    assert_eq!(add_address(&mut index, ALICE, Ok(true)), AddOutcome::Created);
    assert_eq!(get_balance(&index, ALICE, 1), BalanceLookup::NotYetIndexed);
    assert_eq!(add_address(&mut index, ALICE, Ok(false)), AddOutcome::AlreadyTracked);
    assert_eq!(index.list_tracked(), vec![ALICE.to_string()]);
}

#[test]
fn storage_failure_leaves_the_index_alone() {
    let mut index = Balances::new();
    assert_eq!(add_address(&mut index, ALICE, Err(failure())), AddOutcome::StorageFailure);
    assert_eq!(get_balance(&index, ALICE, 1), BalanceLookup::NotTracked);
    assert!(index.list_tracked().is_empty());
}

#[test]
fn settle_add_follows_the_verdict_and_the_registry() {
    let mut index = Balances::new();
    assert_eq!(settle_add(&mut index, "x", false, Ok(true)), AddOutcome::InvalidFormat);
    assert!(!index.is_tracked("x"));
    assert_eq!(settle_add(&mut index, "x", true, Ok(false)), AddOutcome::AlreadyTracked);
    assert!(!index.is_tracked("x"));
    assert_eq!(settle_add(&mut index, "x", true, Err(failure())), AddOutcome::StorageFailure);
    assert!(!index.is_tracked("x"));
    assert_eq!(settle_add(&mut index, "x", true, Ok(true)), AddOutcome::Created);
    assert!(index.is_tracked("x"));
}

#[test]
fn a_request_never_resets_a_history() {
    let mut index = Balances::new();
    add_address(&mut index, ALICE, Ok(true));
    index.record_balance(ALICE, 4, 40);
    add_address(&mut index, ALICE, Ok(true));
    add_address(&mut index, BOB, Ok(true));
    assert_eq!(get_balance(&index, ALICE, 4), BalanceLookup::Found(40));
}

#[test]
fn add_responses_are_exact() {
    assert_eq!(AddOutcome::Created.status(), 201);
    assert_eq!(AddOutcome::Created.message(), "Address added.");
    assert_eq!(AddOutcome::InvalidFormat.status(), 400);
    assert_eq!(AddOutcome::InvalidFormat.message(), "Wrong address.");
    assert_eq!(AddOutcome::AlreadyTracked.status(), 400);
    assert_eq!(AddOutcome::AlreadyTracked.message(), "The address is already being tracked.");
    assert_eq!(AddOutcome::StorageFailure.status(), 500);
    assert_eq!(AddOutcome::StorageFailure.message(), "Ooops, something went wrong.");
}

#[test]
fn lookup_responses_are_exact() {
    assert_eq!(BalanceLookup::Found(7).status(), 200);
    assert_eq!(BalanceLookup::Found(7).message(), None);
    assert_eq!(BalanceLookup::NotYetIndexed.status(), 202);
    assert_eq!(BalanceLookup::NotYetIndexed.message(), Some("Data wasn't indexed yet."));
    assert_eq!(BalanceLookup::NotTracked.status(), 404);
    assert_eq!(BalanceLookup::NotTracked.message(), Some("Address wasn't found."));
}

#[test]
fn one_written_row_is_an_insertion() {
    assert!(matches!(StoreReply::Rows(1).inserted(), Ok(true)));
    assert!(matches!(StoreReply::Rows(0).inserted(), Ok(false)));
    assert!(matches!(StoreReply::Rows(2).inserted(), Ok(false)));
}

#[test]
fn duplicate_key_is_no_error() {
    assert!(matches!(StoreReply::Duplicate.inserted(), Ok(false)));
}

#[test]
fn store_failure_is_passed_on() {
    match StoreReply::Failed(failure()).inserted() {
        Err(e) => assert_eq!(e.detail, "disk full"),
        Ok(_) => panic!("a failed store inserted nothing"),
    }
}

#[test]
fn registry_is_written_only_for_an_absent_address() {
    assert!(matches!(insert_address_if_not_exist(Ok(false)), RegistryStep::Insert));
    assert!(matches!(insert_address_if_not_exist(Ok(true)), RegistryStep::Done(Ok(false))));
    match insert_address_if_not_exist(Err(failure())) {
        RegistryStep::Done(Err(e)) => assert_eq!(e.detail, "disk full"),
        _ => panic!("a failed lookup ends the registration with its error"),
    }
}

#[test]
fn of_many_identical_requests_exactly_one_is_created() {
    let mut registry: Vec<String> = Vec::new();
    let mut index = Balances::new();
    let mut created = 0;
    for _ in 0..5 {
        let absent = !registry.contains(&ALICE.to_string());
        if absent {
            registry.push(ALICE.to_string());
        }
        match add_address(&mut index, ALICE, Ok(absent)) {
            AddOutcome::Created => created += 1,
            AddOutcome::AlreadyTracked => {}
            other => panic!("unexpected answer {:?}", other),
        }
    }
    assert_eq!(created, 1);
    assert_eq!(index.list_tracked(), vec![ALICE.to_string()]);
}

#[test]
fn overlong_texts_are_rejected_without_decoding() {
    assert!(!is_valid_address("1".repeat(133).as_str()));
    assert!(!is_valid_address("1".repeat(200).as_str()));
    assert!(!is_valid_address("z".repeat(1000).as_str()));
    assert_eq!(
        begin_add("1".repeat(133).as_str()),
        AddStep::Respond(AddOutcome::InvalidFormat)
    );
}

#[test]
fn texts_at_the_length_limit_are_decoded_and_rejected() {
    assert!(!is_valid_address("1".repeat(132).as_str()));
    assert!(!is_valid_address("1".repeat(35).as_str()));
    assert!(!is_valid_address("z".repeat(132).as_str()));
    assert!(!is_valid_address("\u{e9}".repeat(132).as_str()));
}
