//! Read-only and read-write adapters over a backing UTXO store.

use vstd::prelude::*;

verus! {

/// A read-only view over a backing store.
pub struct UtxosDB<'a, S>(pub &'a S);

impl<'a, S> UtxosDB<'a, S> {
    pub fn new(store: &'a S) -> (r: UtxosDB<'a, S>)
        ensures
            r.0 == store,
    {
        UtxosDB(store)
    }
}

/// A read-write view over a backing store.
pub struct UtxosDBMut<'a, S>(pub &'a mut S);

impl<'a, S> UtxosDBMut<'a, S> {
    pub fn new(store: &'a mut S) -> (r: UtxosDBMut<'a, S>)
        ensures
            *r.0 == *old(store),
            *final(store) == *final(r.0),
    {
        UtxosDBMut(store)
    }
}

} // verus!
