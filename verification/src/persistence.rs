use vstd::prelude::*;

verus! {

/// An unrecoverable failure of a persisted store (disk or connection).
#[derive(Debug)]
pub struct PersistenceError {
    pub detail: String,
}

/// What a persisted store answered to the insertion of one row.
#[derive(Debug)]
pub enum StoreReply {
    /// The statement ran and touched this many rows.
    Rows(u64),
    /// The row's unique key is already present.
    Duplicate,
    /// The store could not be reached or written.
    Failed(PersistenceError),
}

/// What to do next while registering an address in the persisted registry.
#[derive(Debug)]
pub enum RegistryStep {
    /// Nothing more to ask of the store: this is the registration's result.
    Done(Result<bool, PersistenceError>),
    /// The address is absent: insert it.
    Insert,
}

/// The result of an insertion, read off the store's reply: inserted exactly
/// when one row was written; a duplicate key is a success that inserted
/// nothing; only a store failure is an error.
pub open spec fn insertion_result(reply: StoreReply) -> Result<bool, PersistenceError> {
    match reply {
        StoreReply::Rows(n) => Ok(n == 1),
        StoreReply::Duplicate => Ok(false),
        StoreReply::Failed(e) => Err(e),
    }
}

/// The step that follows the registry's answer to "is this address present?".
pub open spec fn registry_step(lookup: Result<bool, PersistenceError>) -> RegistryStep {
    match lookup {
        Ok(true) => RegistryStep::Done(Ok(false)),
        Ok(false) => RegistryStep::Insert,
        Err(e) => RegistryStep::Done(Err(e)),
    }
}

impl StoreReply {
    /// Interprets a store's reply to the insertion of one row.
    pub fn inserted(self) -> (res: Result<bool, PersistenceError>)
        ensures
            res == insertion_result(self),
    {
        match self {
            StoreReply::Rows(n) => Ok(n == 1),
            StoreReply::Duplicate => Ok(false),
            StoreReply::Failed(e) => Err(e),
        }
    }
}

/// Decides, from the registry's answer to the existence query, whether an
/// address still has to be inserted. An address that exists is reported as
/// not inserted without touching the store again.
pub fn insert_address_if_not_exist(lookup: Result<bool, PersistenceError>) -> (step: RegistryStep)
    ensures
        step == registry_step(lookup),
{
    match lookup {
        Ok(found) => if found {
            RegistryStep::Done(Ok(false))
        } else {
            RegistryStep::Insert
        },
        Err(e) => RegistryStep::Done(Err(e)),
    }
}

} // verus!
