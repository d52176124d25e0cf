use crate::address::{is_valid_address, valid_address};
use crate::balances::{
    lifecycle, lookup, registered, stage, BalanceLookup, Balances, IndexModel,
};
use crate::persistence::PersistenceError;
use vstd::prelude::*;

verus! {

/// The four answers to a request to track an address.
#[derive(Clone, Copy, Debug, PartialEq, Eq, Structural)]
pub enum AddOutcome {
    /// The address was persisted and is now tracked.
    Created,
    /// The registry holds the address already.
    AlreadyTracked,
    /// The text is no well-formed address.
    InvalidFormat,
    /// The registry could not be read or written.
    StorageFailure,
}

/// What a request to track an address needs first.
#[derive(Clone, Copy, Debug, PartialEq, Eq, Structural)]
pub enum AddStep {
    /// The address is well-formed: ask the registry to persist it.
    Persist,
    /// Answer at once, without touching any store.
    Respond(AddOutcome),
}

/// The first step for a request, given the verdict on the address's form:
/// only a well-formed address goes on to the registry.
pub open spec fn first_step(valid: bool) -> AddStep {
    if valid {
        AddStep::Persist
    } else {
        AddStep::Respond(AddOutcome::InvalidFormat)
    }
}

/// The answer to a request, given the verdict on the address's form and
/// what the registry said of persisting it (`Ok(true)`: newly persisted;
/// `Ok(false)`: already there). The form is judged before anything else.
pub open spec fn add_outcome(valid: bool, stored: Result<bool, PersistenceError>) -> AddOutcome {
    if !valid {
        AddOutcome::InvalidFormat
    } else {
        match stored {
            Ok(true) => AddOutcome::Created,
            Ok(false) => AddOutcome::AlreadyTracked,
            Err(_) => AddOutcome::StorageFailure,
        }
    }
}

/// The index after a request: it changes only when the address was created,
/// and then by registering it.
pub open spec fn index_after_add(
    index: IndexModel,
    address: Seq<char>,
    valid: bool,
    stored: Result<bool, PersistenceError>,
) -> IndexModel {
    if add_outcome(valid, stored) == AddOutcome::Created {
        registered(index, address)
    } else {
        index
    }
}

/// Judges the form of a requested address and says whether the registry is
/// to be asked at all.
pub fn begin_add(raw: &str) -> (step: AddStep)
    ensures
        step == first_step(valid_address(raw@)),
{
    step_for(is_valid_address(raw))
}

/// The first step for a verdict on the address's form.
pub fn step_for(valid: bool) -> (step: AddStep)
    ensures
        step == first_step(valid),
{
    if valid {
        AddStep::Persist
    } else {
        AddStep::Respond(AddOutcome::InvalidFormat)
    }
}

/// Completes a request, given the verdict on the address's form and the
/// registry's answer: a newly persisted address is registered in the index;
/// otherwise the index stays as it was.
pub fn settle_add(
    balances: &mut Balances,
    address: &str,
    valid: bool,
    stored: Result<bool, PersistenceError>,
) -> (outcome: AddOutcome)
    requires
        old(balances).wf(),
    ensures
        final(balances).wf(),
        outcome == add_outcome(valid, stored),
        final(balances)@ == index_after_add(old(balances)@, address@, valid, stored),
{
    if !valid {
        return AddOutcome::InvalidFormat;
    }
    match stored {
        Ok(created) => {
            if created {
                balances.register(address.to_owned());
                AddOutcome::Created
            } else {
                AddOutcome::AlreadyTracked
            }
        },
        Err(_) => AddOutcome::StorageFailure,
    }
}

/// Answers a request to track an address, once the registry has said what
/// came of persisting it. A malformed address is rejected whatever the
/// registry said.
pub fn add_address(balances: &mut Balances, raw: &str, stored: Result<bool, PersistenceError>)
    -> (outcome: AddOutcome)
    requires
        old(balances).wf(),
    ensures
        final(balances).wf(),
        outcome == add_outcome(valid_address(raw@), stored),
        final(balances)@ == index_after_add(old(balances)@, raw@, valid_address(raw@), stored),
{
    let valid = is_valid_address(raw);
    settle_add(balances, raw, valid, stored)
}

/// Answers a balance query from the index alone.
pub fn get_balance(balances: &Balances, address: &str, block_no: u32) -> (found: BalanceLookup)
    requires
        balances.wf(),
    ensures
        found == lookup(balances@, address@, block_no),
{
    balances.get_balance(address, block_no)
}

/// The status code that goes with an answer to a registration.
pub open spec fn add_status(outcome: AddOutcome) -> u16 {
    match outcome {
        AddOutcome::Created => 201,
        AddOutcome::AlreadyTracked => 400,
        AddOutcome::InvalidFormat => 400,
        AddOutcome::StorageFailure => 500,
    }
}

/// The message that goes with an answer to a registration.
pub open spec fn add_message(outcome: AddOutcome) -> Seq<char> {
    match outcome {
        AddOutcome::Created => "Address added."@,
        AddOutcome::AlreadyTracked => "The address is already being tracked."@,
        AddOutcome::InvalidFormat => "Wrong address."@,
        AddOutcome::StorageFailure => "Ooops, something went wrong."@,
    }
}

/// The status code that goes with an answer to a balance query.
pub open spec fn lookup_status(found: BalanceLookup) -> u16 {
    match found {
        BalanceLookup::Found(_) => 200,
        BalanceLookup::NotYetIndexed => 202,
        BalanceLookup::NotTracked => 404,
    }
}

/// The message that goes with an answer to a balance query; a balance that
/// was found is reported by its value, without a message.
pub open spec fn lookup_message(found: BalanceLookup) -> Option<Seq<char>> {
    match found {
        BalanceLookup::Found(_) => None,
        BalanceLookup::NotYetIndexed => Some("Data wasn't indexed yet."@),
        BalanceLookup::NotTracked => Some("Address wasn't found."@),
    }
}

impl AddOutcome {
    /// The response's status code.
    pub fn status(&self) -> (code: u16)
        ensures
            code == add_status(*self),
    {
        match self {
            AddOutcome::Created => 201,
            AddOutcome::AlreadyTracked => 400,
            AddOutcome::InvalidFormat => 400,
            AddOutcome::StorageFailure => 500,
        }
    }

    /// The response's message.
    pub fn message(&self) -> (text: &'static str)
        ensures
            text@ == add_message(*self),
    {
        match self {
            AddOutcome::Created => "Address added.",
            AddOutcome::AlreadyTracked => "The address is already being tracked.",
            AddOutcome::InvalidFormat => "Wrong address.",
            AddOutcome::StorageFailure => "Ooops, something went wrong.",
        }
    }
}

impl BalanceLookup {
    /// The response's status code.
    pub fn status(&self) -> (code: u16)
        ensures
            code == lookup_status(*self),
    {
        match self {
            BalanceLookup::Found(_) => 200,
            BalanceLookup::NotYetIndexed => 202,
            BalanceLookup::NotTracked => 404,
        }
    }

    /// The response's message, where it has one.
    pub fn message(&self) -> (text: Option<&'static str>)
        ensures
            match text {
                Some(t) => lookup_message(*self) == Some(t@),
                None => lookup_message(*self).is_none(),
            },
    {
        match self {
            BalanceLookup::Found(_) => None,
            BalanceLookup::NotYetIndexed => Some("Data wasn't indexed yet."),
            BalanceLookup::NotTracked => Some("Address wasn't found."),
        }
    }
}

/// What a registry that holds exactly `registry` answers when asked to
/// persist an address, as long as it can be reached: it creates the row
/// when the address is absent and reports a duplicate otherwise.
pub open spec fn registry_answer(registry: Set<Seq<char>>, address: Seq<char>) -> Result<
    bool,
    PersistenceError,
> {
    Ok(!registry.contains(address))
}

/// The registry after it was asked to persist a well-formed address.
pub open spec fn registry_after(registry: Set<Seq<char>>, address: Seq<char>) -> Set<Seq<char>> {
    registry.insert(address)
}

/// A freshly registered address answers `NotYetIndexed` at every block,
/// never `NotTracked`.
pub proof fn lemma_fresh_address_is_not_yet_indexed(
    index: IndexModel,
    address: Seq<char>,
    block_no: u32,
)
    requires
        !index.contains_key(address),
    ensures
        lookup(registered(index, address), address, block_no) == BalanceLookup::NotYetIndexed,
        lookup(index_after_add(index, address, true, Ok(true)), address, block_no)
            == BalanceLookup::NotYetIndexed,
{
}

/// An address that was never registered answers `NotTracked` at every
/// block; so does every address in an index that tracks nothing.
pub proof fn lemma_unknown_address_is_not_tracked(
    index: IndexModel,
    address: Seq<char>,
    block_no: u32,
)
    ensures
        !index.contains_key(address) ==> lookup(index, address, block_no)
            == BalanceLookup::NotTracked,
        lookup(Map::empty(), address, block_no) == BalanceLookup::NotTracked,
{
}

/// Registry and index stay in step: when they hold the same addresses
/// before a request that a reachable registry serves, they hold the same
/// addresses after it. A malformed address never gets as far as the
/// registry, so neither changes.
pub proof fn lemma_registry_and_index_stay_in_step(
    registry: Set<Seq<char>>,
    index: IndexModel,
    address: Seq<char>,
    valid: bool,
)
    requires
        registry == index.dom(),
    ensures
        index_after_add(index, address, valid, registry_answer(registry, address)).dom() == (
        if valid {
            registry_after(registry, address)
        } else {
            registry
        }),
{
    let after = index_after_add(index, address, valid, registry_answer(registry, address));
    if valid {
        assert(after.dom() =~= registry_after(registry, address));
    }
}

/// Registering a well-formed address twice against a reachable registry
/// that is in step with the index answers `Created`, then `AlreadyTracked`;
/// the second request changes nothing, and registry and index stay in step.
pub proof fn lemma_second_registration_is_already_tracked(
    registry: Set<Seq<char>>,
    index: IndexModel,
    address: Seq<char>,
)
    requires
        registry == index.dom(),
        !registry.contains(address),
    ensures
        ({
            let first = registry_answer(registry, address);
            let registry_1 = registry_after(registry, address);
            let index_1 = index_after_add(index, address, true, first);
            let second = registry_answer(registry_1, address);
            let index_2 = index_after_add(index_1, address, true, second);
            &&& add_outcome(true, first) == AddOutcome::Created
            &&& registry_1 == index_1.dom()
            &&& add_outcome(true, second) == AddOutcome::AlreadyTracked
            &&& index_2 == index_1
            &&& registry_after(registry_1, address) == registry_1
        }),
{
    let registry_1 = registry_after(registry, address);
    let index_1 = index_after_add(index, address, true, registry_answer(registry, address));
    assert(registry_1 =~= index_1.dom());
    assert(registry_after(registry_1, address) =~= registry_1);
}

/// How many of `requests` identical requests for a well-formed address are
/// answered `Created`, when a reachable registry serves them one after the
/// other.
pub open spec fn created_among(registry: Set<Seq<char>>, address: Seq<char>, requests: nat) -> nat
    decreases requests,
{
    if requests == 0 {
        0
    } else {
        let created: nat = if add_outcome(true, registry_answer(registry, address))
            == AddOutcome::Created {
            1
        } else {
            0
        };
        created + created_among(
            registry_after(registry, address),
            address,
            (requests - 1) as nat,
        )
    }
}

/// Of any number of identical requests for an address that the registry
/// lacks, exactly one is answered `Created`; for an address that it holds,
/// none is.
pub proof fn lemma_exactly_one_is_created(
    registry: Set<Seq<char>>,
    address: Seq<char>,
    requests: nat,
)
    ensures
        registry.contains(address) ==> created_among(registry, address, requests) == 0,
        !registry.contains(address) && requests >= 1 ==> created_among(registry, address, requests)
            == 1,
    decreases requests,
{
    if requests > 0 {
        lemma_exactly_one_is_created(
            registry_after(registry, address),
            address,
            (requests - 1) as nat,
        );
        if registry.contains(address) {
            assert(registry_after(registry, address) =~= registry);
        }
    }
}

/// Once an address is tracked, no request can reset it: whatever the
/// verdict and whatever the registry says, the address stays tracked with
/// the history it has, and so does every other tracked address.
pub proof fn lemma_requests_keep_histories(
    index: IndexModel,
    address: Seq<char>,
    valid: bool,
    stored: Result<bool, PersistenceError>,
    other: Seq<char>,
)
    requires
        index.contains_key(other),
    ensures
        index_after_add(index, address, valid, stored).contains_key(other),
        index_after_add(index, address, valid, stored)[other] == index[other],
{
}

/// No request moves an address back in its life.
pub proof fn lemma_request_is_monotonic(
    index: IndexModel,
    address: Seq<char>,
    valid: bool,
    stored: Result<bool, PersistenceError>,
    other: Seq<char>,
)
    ensures
        stage(lifecycle(index_after_add(index, address, valid, stored), other)) >= stage(
            lifecycle(index, other),
        ),
{
}

/// A malformed address never reaches a store and never changes the index:
/// the first step answers `InvalidFormat` at once, and so does the request
/// whatever a registry might have said.
pub proof fn lemma_malformed_address_is_rejected(
    index: IndexModel,
    address: Seq<char>,
    stored: Result<bool, PersistenceError>,
)
    ensures
        first_step(false) == AddStep::Respond(AddOutcome::InvalidFormat),
        add_outcome(false, stored) == AddOutcome::InvalidFormat,
        index_after_add(index, address, false, stored) == index,
{
}

} // verus!
