use std::collections::HashMap;
use vstd::prelude::*;

verus! {

broadcast use vstd::std_specs::hash::group_hash_axioms;

/// The mathematical model of the index: tracked address to its history, a
/// history being a map from block number to balance.
pub type IndexModel = Map<Seq<char>, Map<u32, u64>>;

/// The three answers to "what was this address's balance at this block?".
#[derive(Clone, Copy, Debug, PartialEq, Eq, Structural)]
pub enum BalanceLookup {
    /// The address is tracked and the block's balance is known.
    Found(u64),
    /// The address is tracked, but nothing was recorded for the block.
    NotYetIndexed,
    /// The address is not on the watchlist.
    NotTracked,
}

/// The answer that an index gives for an address and a block.
pub open spec fn lookup(index: IndexModel, address: Seq<char>, block_no: u32) -> BalanceLookup {
    if !index.contains_key(address) {
        BalanceLookup::NotTracked
    } else if index[address].contains_key(block_no) {
        BalanceLookup::Found(index[address][block_no])
    } else {
        BalanceLookup::NotYetIndexed
    }
}

/// The index after an address is registered: a new address starts with an
/// empty history, a tracked one keeps what it has.
pub open spec fn registered(index: IndexModel, address: Seq<char>) -> IndexModel {
    if index.contains_key(address) {
        index
    } else {
        index.insert(address, Map::empty())
    }
}

/// The index after a balance is recorded: the block's entry is written into
/// the history of a tracked address; for any other address nothing changes.
pub open spec fn recorded(index: IndexModel, address: Seq<char>, block_no: u32, balance: u64)
    -> IndexModel {
    if index.contains_key(address) {
        index.insert(address, index[address].insert(block_no, balance))
    } else {
        index
    }
}

/// Where an address stands in its life: it starts unknown, becomes tracked
/// with an empty history, and then gathers balances. There is no way back.
#[derive(Clone, Copy, Debug, PartialEq, Eq, Structural)]
pub enum AddressState {
    /// Not on the watchlist.
    Unknown,
    /// Tracked, with no balance recorded yet.
    TrackedEmpty,
    /// Tracked, with a balance recorded for at least one block.
    TrackedPartial,
}

/// The state of an address in an index.
pub open spec fn lifecycle(index: IndexModel, address: Seq<char>) -> AddressState {
    if !index.contains_key(address) {
        AddressState::Unknown
    } else if index[address].dom().len() == 0 {
        AddressState::TrackedEmpty
    } else {
        AddressState::TrackedPartial
    }
}

/// How far along its life a state is.
pub open spec fn stage(state: AddressState) -> nat {
    match state {
        AddressState::Unknown => 0,
        AddressState::TrackedEmpty => 1,
        AddressState::TrackedPartial => 2,
    }
}

/// Every history of the index has finitely many entries.
pub open spec fn finite_histories(index: IndexModel) -> bool {
    forall|a: Seq<char>| index.contains_key(a) ==> (#[trigger] index[a]).dom().finite()
}

/// Position `i` of `addresses` holds `address`.
pub open spec fn holds_at(addresses: Seq<String>, address: Seq<char>, i: int) -> bool {
    0 <= i < addresses.len() && addresses[i]@ == address
}

/// `address` occurs in `addresses`.
pub open spec fn lists(addresses: Seq<String>, address: Seq<char>) -> bool {
    exists|i: int| holds_at(addresses, address, i)
}

/// No text occurs twice in `addresses`.
pub open spec fn pairwise_distinct(addresses: Seq<String>) -> bool {
    forall|i: int, j: int|
        0 <= i < j < addresses.len() ==> (#[trigger] addresses[i])@ != (#[trigger] addresses[j])@
}

/// The balance index: every tracked address with its per-block balances.
pub struct Balances {
    addresses: Vec<String>,
    histories: Vec<HashMap<u32, u64>>,
}

impl View for Balances {
    type V = IndexModel;

    closed spec fn view(&self) -> IndexModel {
        Map::new(
            |a: Seq<char>| exists|i: int| holds_at(self.addresses@, a, i),
            |a: Seq<char>| self.histories@[choose|i: int| holds_at(self.addresses@, a, i)]@,
        )
    }
}

impl Balances {
    /// Each address has exactly one history, and no address is held twice.
    pub closed spec fn wf(&self) -> bool {
        &&& self.addresses@.len() == self.histories@.len()
        &&& pairwise_distinct(self.addresses@)
    }

    /// The histories of a well-formed index are finite.
    pub proof fn lemma_histories_are_finite(&self)
        requires
            self.wf(),
        ensures
            finite_histories(self@),
    {
        self.lemma_slots();
        assert forall|a: Seq<char>| self@.contains_key(a) implies (#[trigger] self@[a]).dom().finite() by {
            let i = choose|i: int| holds_at(self.addresses@, a, i);
            assert(self@[a] == self.histories@[i]@);
        }
    }

    /// The view, slot by slot: an address held at a slot is tracked with
    /// that slot's history, and every tracked address is held at some slot.
    proof fn lemma_slots(&self)
        requires
            self.wf(),
        ensures
            forall|a: Seq<char>, i: int| #[trigger]
                holds_at(self.addresses@, a, i) ==> self@.contains_key(a) && self@[a]
                    == self.histories@[i]@,
            forall|a: Seq<char>|
                self@.contains_key(a) ==> exists|i: int| holds_at(self.addresses@, a, i),
    {
        assert forall|a: Seq<char>, i: int| #[trigger]
            holds_at(self.addresses@, a, i) implies self@.contains_key(a) && self@[a]
            == self.histories@[i]@ by {
            let j = choose|j: int| holds_at(self.addresses@, a, j);
            assert(holds_at(self.addresses@, a, j));
            if j < i {
                assert(self.addresses@[j]@ != self.addresses@[i]@);
            }
            if i < j {
                assert(self.addresses@[i]@ != self.addresses@[j]@);
            }
        }
    }

    /// The slot that holds an address, if one does.
    fn find(&self, address: &String) -> (slot: Option<usize>)
        requires
            self.wf(),
        ensures
            match slot {
                Some(i) => holds_at(self.addresses@, address@, i as int),
                None => forall|i: int| !holds_at(self.addresses@, address@, i),
            },
    {
        let mut i: usize = 0;
        while i < self.addresses.len()
            invariant
                i <= self.addresses@.len(),
                forall|k: int| 0 <= k < i ==> !holds_at(self.addresses@, address@, k),
            decreases self.addresses@.len() - i,
        {
            if self.addresses[i] == *address {
                return Some(i);
            }
            i += 1;
        }
        None
    }

    /// An index that tracks nothing.
    pub fn new() -> (index: Balances)
        ensures
            index.wf(),
            index@ == Map::<Seq<char>, Map<u32, u64>>::empty(),
    {
        let index = Balances { addresses: Vec::new(), histories: Vec::new() };
        assert(index@ =~= Map::<Seq<char>, Map<u32, u64>>::empty());
        index
    }

    /// Whether an address is on the watchlist.
    pub fn is_tracked(&self, address: &str) -> (present: bool)
        requires
            self.wf(),
        ensures
            present == self@.contains_key(address@),
    {
        let key = address.to_owned();
        proof {
            self.lemma_slots();
        }
        self.find(&key).is_some()
    }

    /// Where an address stands in its life.
    pub fn state_of(&self, address: &str) -> (state: AddressState)
        requires
            self.wf(),
        ensures
            state == lifecycle(self@, address@),
    {
        let key = address.to_owned();
        proof {
            self.lemma_slots();
        }
        match self.find(&key) {
            None => AddressState::Unknown,
            Some(i) => {
                if self.histories[i].len() == 0 {
                    AddressState::TrackedEmpty
                } else {
                    AddressState::TrackedPartial
                }
            },
        }
    }

    /// Looks up the balance of an address at a block.
    pub fn get_balance(&self, address: &str, block_no: u32) -> (found: BalanceLookup)
        requires
            self.wf(),
        ensures
            found == lookup(self@, address@, block_no),
    {
        let key = address.to_owned();
        proof {
            self.lemma_slots();
        }
        match self.find(&key) {
            None => BalanceLookup::NotTracked,
            Some(i) => {
                match self.histories[i].get(&block_no) {
                    Some(balance) => BalanceLookup::Found(*balance),
                    None => BalanceLookup::NotYetIndexed,
                }
            },
        }
    }

    /// Puts an address on the watchlist with an empty history, unless it is
    /// there already. Returns whether it was newly inserted.
    pub fn register(&mut self, address: String) -> (inserted: bool)
        requires
            old(self).wf(),
        ensures
            final(self).wf(),
            inserted == !old(self)@.contains_key(address@),
            final(self)@ == registered(old(self)@, address@),
    {
        proof {
            self.lemma_slots();
        }
        match self.find(&address) {
            Some(_) => false,
            None => {
                let ghost before = *self;
                let ghost key = address@;
                self.addresses.push(address);
                self.histories.push(HashMap::new());
                proof {
                    let n = before.addresses@.len() as int;
                    assert(pairwise_distinct(self.addresses@)) by {
                        assert forall|i: int, j: int| 0 <= i < j < self.addresses@.len() implies (
                        #[trigger] self.addresses@[i])@ != (#[trigger] self.addresses@[j])@ by {
                            if j < n {
                                assert(before.addresses@[i]@ != before.addresses@[j]@);
                            } else {
                                assert(!holds_at(before.addresses@, key, i));
                            }
                        }
                    }
                    self.lemma_slots();
                    assert(holds_at(self.addresses@, key, n));
                    assert forall|a: Seq<char>| #[trigger]
                        self@.contains_key(a) <==> (a == key || before@.contains_key(a)) by {
                        if before@.contains_key(a) {
                            let i = choose|i: int| holds_at(before.addresses@, a, i);
                            assert(holds_at(self.addresses@, a, i));
                        }
                        if self@.contains_key(a) {
                            let i = choose|i: int| holds_at(self.addresses@, a, i);
                            if i < n {
                                assert(holds_at(before.addresses@, a, i));
                            }
                        }
                    }
                    assert forall|a: Seq<char>| before@.contains_key(a) implies self@[a]
                        == before@[a] by {
                        let i = choose|i: int| holds_at(before.addresses@, a, i);
                        assert(holds_at(self.addresses@, a, i));
                    }
                    assert(self@ =~= before@.insert(key, Map::empty()));
                }
                true
            },
        }
    }

    /// A snapshot of the watchlist: every tracked address, each once.
    pub fn list_tracked(&self) -> (snapshot: Vec<String>)
        requires
            self.wf(),
        ensures
            pairwise_distinct(snapshot@),
            forall|a: Seq<char>| #[trigger] self@.contains_key(a) <==> lists(snapshot@, a),
    {
        let mut snapshot: Vec<String> = Vec::new();
        let mut i: usize = 0;
        while i < self.addresses.len()
            invariant
                i <= self.addresses@.len(),
                snapshot@.len() == i,
                forall|k: int| 0 <= k < i ==> (#[trigger] snapshot@[k])@ == self.addresses@[k]@,
            decreases self.addresses@.len() - i,
        {
            snapshot.push(self.addresses[i].clone());
            i += 1;
        }
        proof {
            self.lemma_slots();
            assert forall|p: int, q: int| 0 <= p < q < snapshot@.len() implies (
            #[trigger] snapshot@[p])@ != (#[trigger] snapshot@[q])@ by {
                assert(self.addresses@[p]@ != self.addresses@[q]@);
            }
            assert forall|a: Seq<char>| #[trigger]
                self@.contains_key(a) <==> lists(snapshot@, a) by {
                if self@.contains_key(a) {
                    let k = choose|k: int| holds_at(self.addresses@, a, k);
                    assert(holds_at(snapshot@, a, k));
                }
                if lists(snapshot@, a) {
                    let k = choose|k: int| holds_at(snapshot@, a, k);
                    assert(holds_at(self.addresses@, a, k));
                }
            }
        }
        snapshot
    }

    /// An index pre-populated with the registry's persisted addresses, each
    /// with an empty history.
    pub fn initialize(rows: &Vec<String>) -> (index: Balances)
        ensures
            index.wf(),
            forall|a: Seq<char>| #[trigger] index@.contains_key(a) <==> lists(rows@, a),
            forall|a: Seq<char>|
                index@.contains_key(a) ==> #[trigger] index@[a] == Map::<u32, u64>::empty(),
    {
        let mut index = Balances::new();
        load_addresses(rows, &mut index);
        index
    }

    /// Writes the balance of a tracked address at a block, replacing an
    /// earlier entry for that block. An address that is not tracked is left
    /// alone. Returns whether the balance was written.
    pub fn record_balance(&mut self, address: &str, block_no: u32, balance: u64) -> (written: bool)
        requires
            old(self).wf(),
        ensures
            final(self).wf(),
            written == old(self)@.contains_key(address@),
            final(self)@ == recorded(old(self)@, address@, block_no, balance),
    {
        let key = address.to_owned();
        proof {
            self.lemma_slots();
        }
        match self.find(&key) {
            None => false,
            Some(slot) => {
                let ghost before = *self;
                self.histories[slot].insert(block_no, balance);
                proof {
                    assert(self.addresses@ == before.addresses@);
                    self.lemma_slots();
                    assert forall|a: Seq<char>| before@.contains_key(a) && a != address@ implies self@[a]
                        == before@[a] by {
                        let i = choose|i: int| holds_at(before.addresses@, a, i);
                        assert(holds_at(self.addresses@, a, i));
                    }
                    assert(self@ =~= before@.insert(
                        address@,
                        before@[address@].insert(block_no, balance),
                    ));
                }
                true
            },
        }
    }
}

/// Registration never moves an address back in its life, whichever
/// address is registered.
pub proof fn lemma_register_is_monotonic(index: IndexModel, address: Seq<char>, other: Seq<char>)
    ensures
        stage(lifecycle(registered(index, address), other)) >= stage(lifecycle(index, other)),
        !index.contains_key(address) ==> lifecycle(registered(index, address), address)
            == AddressState::TrackedEmpty,
{
}

/// Recording a balance never moves an address back in its life, and moves
/// a tracked address to the last stage.
pub proof fn lemma_record_is_monotonic(
    index: IndexModel,
    address: Seq<char>,
    block_no: u32,
    balance: u64,
    other: Seq<char>,
)
    requires
        finite_histories(index),
    ensures
        finite_histories(recorded(index, address, block_no, balance)),
        stage(lifecycle(recorded(index, address, block_no, balance), other)) >= stage(
            lifecycle(index, other),
        ),
        index.contains_key(address) ==> lifecycle(
            recorded(index, address, block_no, balance),
            address,
        ) == AddressState::TrackedPartial,
{
    if index.contains_key(address) {
        let history = index[address];
        let longer = history.insert(block_no, balance);
        assert(longer.dom() =~= history.dom().insert(block_no));
        assert(history.dom().finite());
        assert(longer.dom().len() > 0);
        let after = recorded(index, address, block_no, balance);
        assert forall|a: Seq<char>| after.contains_key(a) implies (#[trigger] after[a]).dom().finite() by {
            if a != address {
                assert(after[a] == index[a]);
            }
        }
    }
}

/// Extending a list by one address extends what it lists by that address.
proof fn lemma_lists_step(rows: Seq<String>, n: int, a: Seq<char>)
    requires
        0 <= n < rows.len(),
    ensures
        lists(rows.take(n + 1), a) <==> (lists(rows.take(n), a) || a == rows[n]@),
{
    let longer = rows.take(n + 1);
    let shorter = rows.take(n);
    if lists(longer, a) {
        let k = choose|k: int| holds_at(longer, a, k);
        if k < n {
            assert(holds_at(shorter, a, k));
        }
    }
    if lists(shorter, a) {
        let k = choose|k: int| holds_at(shorter, a, k);
        assert(holds_at(longer, a, k));
    }
    if a == rows[n]@ {
        assert(holds_at(longer, a, n));
    }
}

/// Registers every address of the persisted registry's rows. Addresses that
/// the index already tracks keep their histories; the others start empty.
pub fn load_addresses(rows: &Vec<String>, balances: &mut Balances)
    requires
        old(balances).wf(),
    ensures
        final(balances).wf(),
        forall|a: Seq<char>| #[trigger]
            final(balances)@.contains_key(a) <==> (old(balances)@.contains_key(a) || lists(
                rows@,
                a,
            )),
        forall|a: Seq<char>|
            old(balances)@.contains_key(a) ==> #[trigger] final(balances)@[a] == old(balances)@[a],
        forall|a: Seq<char>|
            final(balances)@.contains_key(a) && !old(balances)@.contains_key(a)
                ==> #[trigger] final(balances)@[a] == Map::<u32, u64>::empty(),
{
    let ghost before = balances@;
    let mut i: usize = 0;
    proof {
        let none = rows@.take(0);
        assert forall|a: Seq<char>| !lists(none, a) by {
            if lists(none, a) {
                let k = choose|k: int| holds_at(none, a, k);
                assert(false);
            }
        }
    }
    while i < rows.len()
        invariant
            i <= rows@.len(),
            balances.wf(),
            forall|a: Seq<char>| #[trigger]
                balances@.contains_key(a) <==> (before.contains_key(a) || lists(
                    rows@.take(i as int),
                    a,
                )),
            forall|a: Seq<char>| before.contains_key(a) ==> #[trigger] balances@[a] == before[a],
            forall|a: Seq<char>|
                balances@.contains_key(a) && !before.contains_key(a) ==> #[trigger] balances@[a]
                    == Map::<u32, u64>::empty(),
        decreases rows@.len() - i,
    {
        let ghost prior = balances@;
        let row = rows[i].clone();
        balances.register(row);
        proof {
            assert forall|a: Seq<char>| #[trigger]
                balances@.contains_key(a) <==> (before.contains_key(a) || lists(
                    rows@.take(i + 1),
                    a,
                )) by {
                lemma_lists_step(rows@, i as int, a);
                assert(prior.contains_key(a) <==> (before.contains_key(a) || lists(
                    rows@.take(i as int),
                    a,
                )));
            }
            assert forall|a: Seq<char>| before.contains_key(a) implies #[trigger] balances@[a]
                == before[a] by {
                assert(prior.contains_key(a));
                assert(prior[a] == before[a]);
            }
            assert forall|a: Seq<char>|
                balances@.contains_key(a) && !before.contains_key(a) implies #[trigger] balances@[a]
                == Map::<u32, u64>::empty() by {
                if prior.contains_key(a) {
                    assert(prior[a] == Map::<u32, u64>::empty());
                }
            }
        }
        i += 1;
    }
    proof {
        assert(rows@.take(i as int) =~= rows@);
    }
}

} // verus!
