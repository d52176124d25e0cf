use crate::address::{is_valid_address, valid_address};
use crate::balances::{
    finite_histories, holds_at, lemma_record_is_monotonic, lifecycle, lists, lookup, recorded,
    registered, stage, BalanceLookup, Balances, IndexModel,
};
use crate::blocks::{handle_hash, history_after, is_new_block, BlockHistory, HashOutcome};
use vstd::prelude::*;

verus! {

/// What the chain's storage answered when asked for an account's free
/// balance at a block.
#[derive(Clone, Copy, Debug, PartialEq, Eq, Structural)]
pub enum FetchResult {
    /// The account exists at that block with this free balance.
    Balance(u64),
    /// The chain holds no data for the account at that block.
    NoData,
    /// The query itself failed.
    Failed,
}

/// What became of one address while a block was processed.
#[derive(Clone, Copy, Debug, PartialEq, Eq, Structural)]
pub enum AccountOutcome {
    /// The balance was written into the address's history.
    Recorded(u64),
    /// The text is no well-formed address; it was skipped.
    InvalidAddress,
    /// The chain had no data; the address was skipped for this block.
    NoData,
    /// The fetch failed; the address was skipped for this block.
    FetchFailed,
    /// A balance arrived for an address that is not tracked; it was dropped.
    NotTracked,
}

/// One entry of the watchlist snapshot taken for a block.
#[derive(Debug)]
pub struct AccountTask {
    pub address: String,
    /// Whether the address is well-formed, so that its balance can be fetched.
    pub fetch: bool,
}

/// The outcome for one address, given whether it is well-formed and what
/// the chain answered.
pub open spec fn account_outcome(
    index: IndexModel,
    address: Seq<char>,
    valid: bool,
    fetched: FetchResult,
) -> AccountOutcome {
    if !valid {
        AccountOutcome::InvalidAddress
    } else {
        match fetched {
            FetchResult::Balance(balance) => if index.contains_key(address) {
                AccountOutcome::Recorded(balance)
            } else {
                AccountOutcome::NotTracked
            },
            FetchResult::NoData => AccountOutcome::NoData,
            FetchResult::Failed => AccountOutcome::FetchFailed,
        }
    }
}

/// The index after one address was handled: only a fetched balance of a
/// well-formed address is written.
pub open spec fn index_after_account(
    index: IndexModel,
    address: Seq<char>,
    number: u32,
    valid: bool,
    fetched: FetchResult,
) -> IndexModel {
    match fetched {
        FetchResult::Balance(balance) => if valid {
            recorded(index, address, number, balance)
        } else {
            index
        },
        _ => index,
    }
}

/// The index after the addresses of `fetched` were handled one after the
/// other, first to last.
pub open spec fn index_after_accounts(
    index: IndexModel,
    number: u32,
    fetched: Seq<(String, FetchResult)>,
) -> IndexModel
    decreases fetched.len(),
{
    if fetched.len() == 0 {
        index
    } else {
        let last = fetched.last();
        index_after_account(
            index_after_accounts(index, number, fetched.drop_last()),
            last.0@,
            number,
            valid_address(last.0@),
            last.1,
        )
    }
}

/// Applies what was fetched for one address, given the verdict on the
/// address's form.
pub fn record_fetched(
    balances: &mut Balances,
    address: &str,
    number: u32,
    valid: bool,
    fetched: FetchResult,
) -> (outcome: AccountOutcome)
    requires
        old(balances).wf(),
    ensures
        final(balances).wf(),
        outcome == account_outcome(old(balances)@, address@, valid, fetched),
        final(balances)@ == index_after_account(old(balances)@, address@, number, valid, fetched),
{
    if !valid {
        return AccountOutcome::InvalidAddress;
    }
    match fetched {
        FetchResult::Balance(balance) => {
            if balances.record_balance(address, number, balance) {
                AccountOutcome::Recorded(balance)
            } else {
                AccountOutcome::NotTracked
            }
        },
        FetchResult::NoData => AccountOutcome::NoData,
        FetchResult::Failed => AccountOutcome::FetchFailed,
    }
}

/// Handles one address of a block: checks its form, then applies what was
/// fetched for it. No outcome stops the block.
pub fn handle_account(balances: &mut Balances, address: &str, number: u32, fetched: FetchResult)
    -> (outcome: AccountOutcome)
    requires
        old(balances).wf(),
    ensures
        final(balances).wf(),
        outcome == account_outcome(old(balances)@, address@, valid_address(address@), fetched),
        final(balances)@ == index_after_account(
            old(balances)@,
            address@,
            number,
            valid_address(address@),
            fetched,
        ),
{
    let valid = is_valid_address(address);
    record_fetched(balances, address, number, valid, fetched)
}

/// Takes the watchlist snapshot for a block: every tracked address once,
/// each marked with whether it is well-formed and so worth a fetch.
pub fn plan_accounts(balances: &Balances) -> (tasks: Vec<AccountTask>)
    requires
        balances.wf(),
    ensures
        forall|a: Seq<char>| #[trigger]
            balances@.contains_key(a) <==> exists|i: int|
                0 <= i < tasks@.len() && (#[trigger] tasks@[i]).address@ == a,
        forall|i: int, j: int|
            0 <= i < j < tasks@.len() ==> (#[trigger] tasks@[i]).address@ != (
            #[trigger] tasks@[j]).address@,
        forall|i: int|
            0 <= i < tasks@.len() ==> (#[trigger] tasks@[i]).fetch == valid_address(
                tasks@[i].address@,
            ),
{
    let snapshot = balances.list_tracked();
    let mut tasks: Vec<AccountTask> = Vec::new();
    let mut i: usize = 0;
    while i < snapshot.len()
        invariant
            i <= snapshot@.len(),
            tasks@.len() == i,
            forall|k: int| 0 <= k < i ==> (#[trigger] tasks@[k]).address@ == snapshot@[k]@,
            forall|k: int|
                0 <= k < i ==> (#[trigger] tasks@[k]).fetch == valid_address(tasks@[k].address@),
        decreases snapshot@.len() - i,
    {
        let address = snapshot[i].clone();
        let fetch = is_valid_address(address.as_str());
        tasks.push(AccountTask { address, fetch });
        i += 1;
    }
    proof {
        assert forall|a: Seq<char>| #[trigger]
            balances@.contains_key(a) <==> exists|i: int|
                0 <= i < tasks@.len() && (#[trigger] tasks@[i]).address@ == a by {
            if balances@.contains_key(a) {
                assert(lists(snapshot@, a));
                let k = choose|k: int| holds_at(snapshot@, a, k);
                assert(0 <= k < tasks@.len() && tasks@[k].address@ == a);
            }
            if exists|i: int| 0 <= i < tasks@.len() && (#[trigger] tasks@[i]).address@ == a {
                let k = choose|k: int| 0 <= k < tasks@.len() && (#[trigger] tasks@[k]).address@ == a;
                assert(holds_at(snapshot@, a, k));
            }
        }
        assert forall|p: int, q: int| 0 <= p < q < tasks@.len() implies (
        #[trigger] tasks@[p]).address@ != (#[trigger] tasks@[q]).address@ by {
            assert(snapshot@[p]@ != snapshot@[q]@);
        }
    }
    tasks
}

/// The second step of block processing: applies, address by address and in
/// the order given, what was fetched at this block. Each address gets an
/// outcome of its own; none aborts the others.
pub fn handle_accounts_in_hash(
    balances: &mut Balances,
    number: u32,
    fetched: &Vec<(String, FetchResult)>,
) -> (outcomes: Vec<AccountOutcome>)
    requires
        old(balances).wf(),
    ensures
        final(balances).wf(),
        final(balances)@ == index_after_accounts(old(balances)@, number, fetched@),
        outcomes@.len() == fetched@.len(),
        forall|i: int|
            0 <= i < fetched@.len() ==> #[trigger] outcomes@[i] == account_outcome(
                index_after_accounts(old(balances)@, number, fetched@.take(i)),
                fetched@[i].0@,
                valid_address(fetched@[i].0@),
                fetched@[i].1,
            ),
{
    let ghost before = balances@;
    let mut outcomes: Vec<AccountOutcome> = Vec::new();
    let mut i: usize = 0;
    while i < fetched.len()
        invariant
            i <= fetched@.len(),
            balances.wf(),
            balances@ == index_after_accounts(before, number, fetched@.take(i as int)),
            outcomes@.len() == i,
            forall|k: int|
                0 <= k < i ==> #[trigger] outcomes@[k] == account_outcome(
                    index_after_accounts(before, number, fetched@.take(k)),
                    fetched@[k].0@,
                    valid_address(fetched@[k].0@),
                    fetched@[k].1,
                ),
        decreases fetched@.len() - i,
    {
        let outcome = handle_account(balances, fetched[i].0.as_str(), number, fetched[i].1);
        outcomes.push(outcome);
        proof {
            let longer = fetched@.take(i + 1);
            assert(longer.drop_last() =~= fetched@.take(i as int));
            assert(longer.last() == fetched@[i as int]);
        }
        i += 1;
    }
    proof {
        assert(fetched@.take(i as int) =~= fetched@);
    }
    outcomes
}

/// What processing one block came to.
#[derive(Debug)]
pub struct BlockReport {
    /// Whether the block entered the history.
    pub hash: HashOutcome,
    /// One outcome per fetched address, in the order given.
    pub accounts: Vec<AccountOutcome>,
}

/// Processes one finalized block: submits it to the history, then applies
/// the balances fetched at it. A block that the history already holds is
/// processed all the same.
pub fn handle_block(
    history: &mut BlockHistory,
    balances: &mut Balances,
    number: u32,
    hash: &str,
    fetched: &Vec<(String, FetchResult)>,
) -> (report: BlockReport)
    requires
        old(balances).wf(),
    ensures
        final(balances).wf(),
        final(history)@ == history_after(old(history)@, number, hash@),
        report.hash == (if is_new_block(old(history)@, number) {
            HashOutcome::Added
        } else {
            HashOutcome::NotAdded
        }),
        final(balances)@ == index_after_accounts(old(balances)@, number, fetched@),
        report.accounts@.len() == fetched@.len(),
        forall|i: int|
            0 <= i < fetched@.len() ==> #[trigger] report.accounts@[i] == account_outcome(
                index_after_accounts(old(balances)@, number, fetched@.take(i)),
                fetched@[i].0@,
                valid_address(fetched@[i].0@),
                fetched@[i].1,
            ),
{
    let hash_outcome = handle_hash(history, &number, hash);
    let accounts = handle_accounts_in_hash(balances, number, fetched);
    BlockReport { hash: hash_outcome, accounts }
}

/// The balance that a block's fetches leave for an address: that of the
/// last entry which names the address and carries a balance, provided the
/// address is well-formed; `None` where there is no such entry.
pub open spec fn fetched_balance(fetched: Seq<(String, FetchResult)>, address: Seq<char>) -> Option<
    u64,
>
    decreases fetched.len(),
{
    if fetched.len() == 0 {
        None
    } else {
        let last = fetched.last();
        match last.1 {
            FetchResult::Balance(balance) => if last.0@ == address && valid_address(address) {
                Some(balance)
            } else {
                fetched_balance(fetched.drop_last(), address)
            },
            _ => fetched_balance(fetched.drop_last(), address),
        }
    }
}

/// What processing a block does to one tracked address: its history gains
/// the block's entry with the balance fetched for it, or stays as it was
/// where none was fetched. Untracked addresses stay untracked.
pub proof fn lemma_block_writes_fetched_balances(
    index: IndexModel,
    number: u32,
    fetched: Seq<(String, FetchResult)>,
    address: Seq<char>,
)
    ensures
        index_after_accounts(index, number, fetched).contains_key(address) == index.contains_key(
            address,
        ),
        index.contains_key(address) ==> index_after_accounts(index, number, fetched)[address] == (
        match fetched_balance(fetched, address) {
            Some(balance) => index[address].insert(number, balance),
            None => index[address],
        }),
    decreases fetched.len(),
{
    if fetched.len() > 0 {
        let earlier = fetched.drop_last();
        lemma_block_writes_fetched_balances(index, number, earlier, address);
        let prior = index_after_accounts(index, number, earlier);
        let last = fetched.last();
        if index.contains_key(address) {
            match last.1 {
                FetchResult::Balance(balance) => {
                    if last.0@ == address && valid_address(address) {
                        match fetched_balance(earlier, address) {
                            Some(before) => {
                                assert(index[address].insert(number, before).insert(number, balance)
                                    =~= index[address].insert(number, balance));
                            },
                            None => {},
                        }
                    }
                },
                _ => {},
            }
        }
    }
}

/// Processing a block changes no watchlist: the same addresses are tracked
/// before and after.
pub proof fn lemma_ingestion_keeps_watchlist(
    index: IndexModel,
    number: u32,
    fetched: Seq<(String, FetchResult)>,
)
    ensures
        index_after_accounts(index, number, fetched).dom() == index.dom(),
    decreases fetched.len(),
{
    if fetched.len() > 0 {
        lemma_ingestion_keeps_watchlist(index, number, fetched.drop_last());
        let prior = index_after_accounts(index, number, fetched.drop_last());
        assert(index_after_accounts(index, number, fetched).dom() =~= prior.dom());
    }
}

/// Processing a block never moves an address back in its life.
pub proof fn lemma_ingestion_is_monotonic(
    index: IndexModel,
    number: u32,
    fetched: Seq<(String, FetchResult)>,
    address: Seq<char>,
)
    requires
        finite_histories(index),
    ensures
        finite_histories(index_after_accounts(index, number, fetched)),
        stage(lifecycle(index_after_accounts(index, number, fetched), address)) >= stage(
            lifecycle(index, address),
        ),
    decreases fetched.len(),
{
    if fetched.len() > 0 {
        lemma_ingestion_is_monotonic(index, number, fetched.drop_last(), address);
        let prior = index_after_accounts(index, number, fetched.drop_last());
        let last = fetched.last();
        match last.1 {
            FetchResult::Balance(balance) => {
                lemma_record_is_monotonic(prior, last.0@, number, balance, address);
            },
            _ => {},
        }
    }
}

/// No retroactive backfill: processing block `number` leaves the answer for
/// every address at every other block as it was. In particular an address
/// registered after block `block_no` was processed stays `NotYetIndexed` at
/// `block_no` through all later blocks.
pub proof fn lemma_no_backfill(
    index: IndexModel,
    number: u32,
    fetched: Seq<(String, FetchResult)>,
    address: Seq<char>,
    block_no: u32,
)
    requires
        number != block_no,
    ensures
        lookup(index_after_accounts(index, number, fetched), address, block_no) == lookup(
            index,
            address,
            block_no,
        ),
    decreases fetched.len(),
{
    if fetched.len() > 0 {
        lemma_no_backfill(index, number, fetched.drop_last(), address, block_no);
    }
}

/// The index after a run of blocks was processed, first to last; each
/// block comes with its number and what was fetched at it.
pub open spec fn index_after_blocks(
    index: IndexModel,
    blocks: Seq<(u32, Seq<(String, FetchResult)>)>,
) -> IndexModel
    decreases blocks.len(),
{
    if blocks.len() == 0 {
        index
    } else {
        index_after_accounts(
            index_after_blocks(index, blocks.drop_last()),
            blocks.last().0,
            blocks.last().1,
        )
    }
}

/// An address registered after block `block_no` was processed answers
/// `NotYetIndexed` at `block_no` after any run of further blocks, as long
/// as none of them carries the number `block_no` again.
pub proof fn lemma_late_address_is_never_backfilled(
    index: IndexModel,
    address: Seq<char>,
    block_no: u32,
    blocks: Seq<(u32, Seq<(String, FetchResult)>)>,
)
    requires
        !index.contains_key(address),
        forall|i: int| 0 <= i < blocks.len() ==> (#[trigger] blocks[i]).0 != block_no,
    ensures
        lookup(index_after_blocks(registered(index, address), blocks), address, block_no)
            == BalanceLookup::NotYetIndexed,
    decreases blocks.len(),
{
    if blocks.len() > 0 {
        let earlier = blocks.drop_last();
        assert forall|i: int| 0 <= i < earlier.len() implies (#[trigger] earlier[i]).0
            != block_no by {
            assert(earlier[i] == blocks[i]);
        }
        lemma_late_address_is_never_backfilled(index, address, block_no, earlier);
        lemma_no_backfill(
            index_after_blocks(registered(index, address), earlier),
            blocks.last().0,
            blocks.last().1,
            address,
            block_no,
        );
    }
}

/// A fetched balance of a tracked, well-formed address is found at the
/// block it was fetched at, whatever the index held there before.
pub proof fn lemma_recorded_balance_is_found(
    index: IndexModel,
    address: Seq<char>,
    number: u32,
    balance: u64,
)
    requires
        index.contains_key(address),
    ensures
        lookup(
            index_after_account(index, address, number, true, FetchResult::Balance(balance)),
            address,
            number,
        ) == BalanceLookup::Found(balance),
{
}

} // verus!
