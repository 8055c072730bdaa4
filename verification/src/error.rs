use vstd::prelude::*;

verus! {

/// The outcomes on which a ledger operation refuses to act.
///
/// Every error aborts the operation with no effect on the ledger.
#[derive(Debug, PartialEq, Eq)]
pub enum ContractError {
    /// The operation referenced an id that is absent from the ledger.
    NotFound {},
    /// The requester is not the owner of the addressed entry.
    Unauthorized {},
    /// The sequence counter is exhausted; no further entry can be created.
    Overflow {},
}

} // verus!
