//! The mempool's answer for an accepted transaction.

use vstd::prelude::*;

verus! {

/// Where an accepted transaction went.
#[derive(Debug, PartialEq, Eq, Clone, Copy, Structural)]
pub enum TxStatus {
    /// The transaction is in the mempool proper.
    InMempool,
    /// The transaction waits in the orphan pool for its inputs.
    InOrphanPool,
}

impl TxStatus {
    pub fn in_mempool(&self) -> (r: bool)
        ensures
            r == (*self == TxStatus::InMempool),
    {
        *self == TxStatus::InMempool
    }

    pub fn in_orphan_pool(&self) -> (r: bool)
        ensures
            r == (*self == TxStatus::InOrphanPool),
    {
        *self == TxStatus::InOrphanPool
    }
}

} // verus!
