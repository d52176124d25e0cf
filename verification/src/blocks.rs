use std::collections::HashMap;
use vstd::prelude::*;

verus! {

broadcast use vstd::std_specs::hash::group_hash_axioms;

/// The mathematical model of the block history: block number to hash.
pub type HistoryModel = Map<u32, Seq<char>>;

/// What submitting a block to the history came to.
#[derive(Clone, Copy, Debug, PartialEq, Eq, Structural)]
pub enum HashOutcome {
    /// The block was new and is now recorded.
    Added,
    /// A block of that number was recorded before; nothing changed.
    NotAdded,
}

/// Whether a block of this number can still be inserted.
pub open spec fn is_new_block(rows: HistoryModel, number: u32) -> bool {
    !rows.contains_key(number)
}

/// The history after a block is submitted: a new number gets its row, a
/// known number leaves every row as it was.
pub open spec fn history_after(rows: HistoryModel, number: u32, hash: Seq<char>) -> HistoryModel {
    if is_new_block(rows, number) {
        rows.insert(number, hash)
    } else {
        rows
    }
}

/// The recorded blocks: at most one hash per block number, never changed
/// or removed once recorded.
pub struct BlockHistory {
    rows: HashMap<u32, String>,
}

impl View for BlockHistory {
    type V = HistoryModel;

    closed spec fn view(&self) -> HistoryModel {
        Map::new(|n: u32| self.rows@.contains_key(n), |n: u32| self.rows@[n]@)
    }
}

impl BlockHistory {
    /// A history without blocks.
    pub fn new() -> (history: BlockHistory)
        ensures
            history@ == Map::<u32, Seq<char>>::empty(),
    {
        let history = BlockHistory { rows: HashMap::new() };
        assert(history@ =~= Map::<u32, Seq<char>>::empty());
        history
    }

    /// The hash recorded for a block number, if there is one.
    pub fn hash_of(&self, number: u32) -> (hash: Option<String>)
        ensures
            match hash {
                Some(h) => self@.contains_key(number) && h@ == self@[number],
                None => !self@.contains_key(number),
            },
    {
        match self.rows.get(&number) {
            Some(h) => Some(h.clone()),
            None => None,
        }
    }

    /// The number of recorded blocks.
    pub fn len(&self) -> (n: usize)
        ensures
            n == self@.dom().len(),
    {
        assert(self@.dom() =~= self.rows@.dom());
        self.rows.len()
    }
}

/// Submits a block to the history. A number that is already recorded is
/// not an error: the call reports that nothing was inserted and leaves the
/// history as it was.
pub fn insert_hash(history: &mut BlockHistory, number: &u32, hash: &str) -> (inserted: bool)
    ensures
        inserted == is_new_block(old(history)@, *number),
        final(history)@ == history_after(old(history)@, *number, hash@),
{
    if history.rows.contains_key(number) {
        false
    } else {
        let ghost before = history@;
        history.rows.insert(*number, hash.to_owned());
        assert(history@ =~= before.insert(*number, hash@));
        true
    }
}

/// The first step of block processing: submits the block and says what to
/// report. Processing goes on whatever the outcome.
pub fn handle_hash(history: &mut BlockHistory, block_number: &u32, hash: &str) -> (outcome:
    HashOutcome)
    ensures
        outcome == (if is_new_block(old(history)@, *block_number) {
            HashOutcome::Added
        } else {
            HashOutcome::NotAdded
        }),
        final(history)@ == history_after(old(history)@, *block_number, hash@),
{
    if insert_hash(history, block_number, hash) {
        HashOutcome::Added
    } else {
        HashOutcome::NotAdded
    }
}

/// Inserting a block number a second time inserts nothing: the number is
/// no longer new after the first insertion, and the second leaves every
/// row, the first hash included, as it was.
pub proof fn lemma_second_insert_is_ignored(
    rows: HistoryModel,
    number: u32,
    first: Seq<char>,
    second: Seq<char>,
)
    ensures
        !is_new_block(history_after(rows, number, first), number),
        history_after(history_after(rows, number, first), number, second) == history_after(
            rows,
            number,
            first,
        ),
        is_new_block(rows, number) ==> history_after(rows, number, first)[number] == first,
{
}

/// Rows are never removed or rewritten: whatever was recorded before a
/// submission is recorded, with the same hash, after it.
pub proof fn lemma_history_is_append_only(
    rows: HistoryModel,
    number: u32,
    hash: Seq<char>,
    earlier: u32,
)
    requires
        rows.contains_key(earlier),
    ensures
        history_after(rows, number, hash).contains_key(earlier),
        history_after(rows, number, hash)[earlier] == rows[earlier],
{
}

} // verus!
