//! The orphan block pool: blocks whose parent is not known yet, held until
//! the parent arrives, bounded by a capacity with oldest-first eviction.

use std::collections::BTreeMap;
use vstd::prelude::*;

use crate::chain::{Block, BlockId};

verus! {

broadcast use {vstd::std_specs::btree::group_btree_axioms, vstd::laws_cmp::group_laws_cmp};

/// Why a block was not added to the pool.
#[derive(Clone, Copy, Debug, PartialEq, Eq, Structural)]
pub enum OrphanAddError {
    BlockAlreadyInOrphanList(BlockId),
}

/// The children of a parent among the pooled blocks, in arrival order.
pub open spec fn spec_taken_children(
    arrival: Seq<BlockId>,
    m: Map<u128, Block>,
    parent: BlockId,
) -> Seq<Block>
    decreases arrival.len(),
{
    if arrival.len() == 0 {
        Seq::empty()
    } else {
        let rest = spec_taken_children(arrival.drop_last(), m, parent);
        let k = arrival.last().0 as u128;
        if m.contains_key(k) && m[k].prev_block_hash == parent {
            rest.push(m[k])
        } else {
            rest
        }
    }
}

/// The pool: the orphans by identifier, and their arrival order.
pub struct OrphanBlocksPool {
    pub blocks: BTreeMap<u128, Block>,
    pub arrival: Vec<BlockId>,
    pub capacity: usize,
}

impl OrphanBlocksPool {
    pub open spec fn blocks_map(self) -> Map<u128, Block> {
        self.blocks@
    }

    pub open spec fn spec_capacity(self) -> usize {
        self.capacity
    }

    /// Every pooled block sits under its own identifier, the arrival list
    /// holds each pooled identifier exactly once, and the pool is within
    /// its capacity.
    pub open spec fn wf(self) -> bool {
        &&& self.arrival@.len() <= self.capacity
        &&& forall|i: int|
            0 <= i < self.arrival@.len() ==> self.blocks@.contains_key(
                (#[trigger] self.arrival@[i]).0 as u128,
            )
        &&& forall|i: int, j: int|
            0 <= i < j < self.arrival@.len() ==> self.arrival@[i].0 != self.arrival@[j].0
        &&& forall|k: u128|
            #[trigger] self.blocks@.contains_key(k) ==> (exists|i: int|
                0 <= i < self.arrival@.len() && self.arrival@[i].0 as u128 == k)
        &&& forall|k: u128|
            #[trigger] self.blocks@.contains_key(k) ==> self.blocks@[k].id.0 as u128 == k
    }

    /// An empty pool with the given capacity.
    pub fn new(capacity: usize) -> (r: OrphanBlocksPool)
        ensures
            r.wf(),
            r.blocks_map() == Map::<u128, Block>::empty(),
            r.spec_capacity() == capacity,
    {
        OrphanBlocksPool { blocks: BTreeMap::new(), arrival: Vec::new(), capacity }
    }

    /// How many orphans wait in the pool.
    pub fn len(&self) -> (r: usize)
        requires
            self.wf(),
        ensures
            r == self.arrival@.len(),
    {
        self.arrival.len()
    }

    /// Whether the block already waits in the pool.
    pub fn is_already_an_orphan(&self, block_id: &BlockId) -> (r: bool)
        ensures
            r == self.blocks_map().contains_key(block_id.0 as u128),
    {
        self.blocks.contains_key(&(block_id.0 as u128))
    }

    /// Drops every orphan.
    pub fn clear(&mut self)
        ensures
            final(self).wf(),
            final(self).blocks_map() == Map::<u128, Block>::empty(),
            final(self).spec_capacity() == old(self).spec_capacity(),
    {
        self.blocks.clear();
        self.arrival.clear();
    }

    /// Files a block whose parent is unknown.  Rejected exactly when it
    /// already waits in the pool; at capacity the oldest orphan leaves.
    pub fn add_block(&mut self, block: Block) -> (r: Result<(), OrphanAddError>)
        requires
            old(self).wf(),
            old(self).spec_capacity() > 0,
        ensures
            final(self).wf(),
            final(self).spec_capacity() == old(self).spec_capacity(),
            match r {
                Ok(_) => {
                    &&& !old(self).blocks_map().contains_key(block.id.0 as u128)
                    &&& final(self).blocks_map().contains_key(block.id.0 as u128)
                    &&& final(self).blocks_map()[block.id.0 as u128] == block
                    &&& final(self).arrival@ == (if old(self).arrival@.len() >= old(
                        self,
                    ).spec_capacity() {
                        old(self).arrival@.skip(1)
                    } else {
                        old(self).arrival@
                    }).push(block.id)
                    &&& (old(self).arrival@.len() < old(self).spec_capacity() ==> forall|k: u128|
                        #[trigger] final(self).blocks_map().contains_key(k) <==> old(
                            self,
                        ).blocks_map().contains_key(k) || k == block.id.0 as u128)
                    &&& (old(self).arrival@.len() >= old(self).spec_capacity() ==> forall|
                        k: u128,
                    |
                        #[trigger] final(self).blocks_map().contains_key(k) <==> (old(
                            self,
                        ).blocks_map().contains_key(k) && k != old(self).arrival@[0].0 as u128)
                            || k == block.id.0 as u128)
                    &&& forall|k: u128|
                        #[trigger] final(self).blocks_map().contains_key(k) && k
                            != block.id.0 as u128 ==> final(self).blocks_map()[k] == old(
                            self,
                        ).blocks_map()[k]
                },
                Err(_) => old(self).blocks_map().contains_key(block.id.0 as u128)
                    && final(self).blocks_map() == old(self).blocks_map(),
            },
    {
        let key = block.id.0 as u128;
        if self.blocks.contains_key(&key) {
            return Err(OrphanAddError::BlockAlreadyInOrphanList(block.id));
        }
        if self.arrival.len() >= self.capacity {
            let oldest = self.arrival.remove(0);
            self.blocks.remove(&(oldest.0 as u128));
            proof {
                assert forall|i: int, j: int|
                    0 <= i < j < self.arrival@.len() implies self.arrival@[i].0
                    != self.arrival@[j].0 by {
                    assert(old(self).arrival@[i + 1].0 != old(self).arrival@[j + 1].0);
                }
                assert forall|i: int|
                    0 <= i < self.arrival@.len() implies self.blocks@.contains_key(
                    (self.arrival@[i]).0 as u128,
                ) by {
                    assert(old(self).arrival@[i + 1].0 != old(self).arrival@[0].0);
                }
                assert forall|k: u128| #[trigger]
                    self.blocks@.contains_key(k) implies (exists|i: int|
                    0 <= i < self.arrival@.len() && self.arrival@[i].0 as u128 == k) by {
                    assert(old(self).blocks@.contains_key(k));
                    let i0 = choose|i: int|
                        0 <= i < old(self).arrival@.len() && old(self).arrival@[i].0 as u128 == k;
                    assert(i0 != 0);
                    assert(self.arrival@[i0 - 1].0 as u128 == k);
                }
            }
        }
        let ghost before_insert = *self;
        let block_id = block.id;
        self.blocks.insert(key, block);
        self.arrival.push(block_id);
        proof {
            assert forall|k: u128| #[trigger]
                self.blocks@.contains_key(k) implies (exists|i: int|
                0 <= i < self.arrival@.len() && self.arrival@[i].0 as u128 == k) by {
                if k != key {
                    assert(before_insert.blocks@.contains_key(k));
                    let i0 = choose|i: int|
                        0 <= i < before_insert.arrival@.len()
                            && before_insert.arrival@[i].0 as u128 == k;
                    assert(self.arrival@[i0].0 as u128 == k);
                } else {
                    assert(self.arrival@[self.arrival@.len() - 1].0 as u128 == k);
                }
            }
        }
        Ok(())
    }

    /// Removes and returns every orphan whose parent is the given block:
    /// afterwards the pool holds exactly the orphans of other parents, and
    /// everything returned is a child of the parent that waited in the
    /// pool.
    #[verifier::rlimit(50)]
    pub fn take_all_children_of(&mut self, block_id: &BlockId) -> (r: Vec<Block>)
        requires
            old(self).wf(),
        ensures
            final(self).wf(),
            final(self).spec_capacity() == old(self).spec_capacity(),
            forall|k: u128|
                #[trigger] final(self).blocks_map().contains_key(k) <==> (
                old(self).blocks_map().contains_key(k)
                    && old(self).blocks_map()[k].prev_block_hash != *block_id),
            forall|k: u128|
                #[trigger] final(self).blocks_map().contains_key(k)
                    ==> final(self).blocks_map()[k] == old(self).blocks_map()[k],
            forall|j: int|
                0 <= j < r@.len() ==> (#[trigger] r@[j]).prev_block_hash == *block_id
                    && old(self).blocks_map().contains_key(r@[j].id.0 as u128),
            r@ == spec_taken_children(old(self).arrival@, old(self).blocks_map(), *block_id),
    {
        let parent = *block_id;
        let old_arrival = self.arrival.split_off(0);
        let ghost orig = *old(self);
        let mut taken: Vec<Block> = Vec::new();
        let n = old_arrival.len();

        // First pass: pull out every child of the parent.
        let mut i: usize = 0;
        while i < n
            invariant
                i <= n,
                n == orig.arrival@.len(),
                old_arrival@ == orig.arrival@,
                orig.wf(),
                parent == *block_id,
                self.capacity == orig.capacity,
                forall|k: u128|
                    #[trigger] self.blocks@.contains_key(k) <==> (orig.blocks@.contains_key(k)
                        && (orig.blocks@[k].prev_block_hash != parent || (exists|a: int|
                        i <= a < n && orig.arrival@[a].0 as u128 == k))),
                forall|k: u128|
                    #[trigger] self.blocks@.contains_key(k) ==> self.blocks@[k]
                        == orig.blocks@[k],
                forall|j: int|
                    0 <= j < taken@.len() ==> (#[trigger] taken@[j]).prev_block_hash == parent
                        && orig.blocks@.contains_key(taken@[j].id.0 as u128),
                taken@ == spec_taken_children(orig.arrival@.take(i as int), orig.blocks@, parent),
                self.arrival@.len() == 0,
            decreases n - i,
        {
            let ghost gi = i as int;
            let id = old_arrival[i];
            let key = id.0 as u128;
            let is_child: bool = match self.blocks.get(&key) {
                Some(b) => b.prev_block_hash.0 == parent.0,
                None => false,
            };
            if is_child {
                match self.blocks.remove(&key) {
                    Some(b) => {
                        taken.push(b);
                    },
                    None => {},
                }
            }
            i = i + 1;
            proof {
                assert(orig.arrival@.take(gi + 1).drop_last() =~= orig.arrival@.take(gi));
                assert(orig.arrival@.take(gi + 1).last() == orig.arrival@[gi]);
                assert(orig.blocks@.contains_key(orig.arrival@[gi].0 as u128));
                assert(taken@ == spec_taken_children(
                    orig.arrival@.take(gi + 1),
                    orig.blocks@,
                    parent,
                ));
                assert forall|k: u128| #[trigger]
                    self.blocks@.contains_key(k) <==> (orig.blocks@.contains_key(k) && (
                orig.blocks@[k].prev_block_hash != parent || (exists|a: int|
                    gi + 1 <= a < n && orig.arrival@[a].0 as u128 == k))) by {
                    if self.blocks@.contains_key(k) && orig.blocks@[k].prev_block_hash == parent {
                        let a0 = choose|a: int|
                            gi <= a < n && orig.arrival@[a].0 as u128 == k;
                        assert(a0 != gi);
                    }
                    if orig.blocks@.contains_key(k) && (exists|a: int|
                        gi + 1 <= a < n && orig.arrival@[a].0 as u128 == k) {
                        let a0 = choose|a: int|
                            gi + 1 <= a < n && orig.arrival@[a].0 as u128 == k;
                        assert(orig.arrival@[a0].0 != orig.arrival@[gi].0);
                        assert(k != key);
                    }
                }
            }
        }

        proof {
            assert(orig.arrival@.take(n as int) =~= orig.arrival@);
        }

        // Second pass: keep the arrival order of what stays.
        let mut kept: Vec<BlockId> = Vec::new();
        let mut i: usize = 0;
        while i < n
            invariant
                i <= n,
                n == orig.arrival@.len(),
                old_arrival@ == orig.arrival@,
                orig.wf(),
                self.capacity == orig.capacity,
                self.arrival@.len() == 0,
                forall|k: u128|
                    #[trigger] self.blocks@.contains_key(k) ==> orig.blocks@.contains_key(k)
                        && self.blocks@[k] == orig.blocks@[k],
                kept@.len() <= i,
                forall|j: int|
                    0 <= j < kept@.len() ==> self.blocks@.contains_key(
                        (#[trigger] kept@[j]).0 as u128,
                    ),
                forall|j: int|
                    0 <= j < kept@.len() ==> (exists|a: int|
                        0 <= a < i && orig.arrival@[a] == #[trigger] kept@[j]),
                forall|a: int, b: int| 0 <= a < b < kept@.len() ==> kept@[a].0 != kept@[b].0,
                forall|a: int|
                    0 <= a < i && self.blocks@.contains_key(
                        (#[trigger] orig.arrival@[a]).0 as u128,
                    ) ==> (exists|j: int| 0 <= j < kept@.len() && kept@[j] == orig.arrival@[a]),
            decreases n - i,
        {
            let ghost gi = i as int;
            let ghost kept_before = kept@;
            let id = old_arrival[i];
            if self.blocks.contains_key(&(id.0 as u128)) {
                kept.push(id);
                proof {
                    assert(kept@[kept@.len() - 1] == orig.arrival@[gi]);
                    assert forall|a: int, b: int|
                        0 <= a < b < kept@.len() implies kept@[a].0 != kept@[b].0 by {
                        if b == kept@.len() - 1 {
                            let wa = choose|w: int|
                                0 <= w < gi && orig.arrival@[w] == kept_before[a];
                            assert(orig.arrival@[wa].0 != orig.arrival@[gi].0);
                        }
                    }
                }
            }
            i = i + 1;
            proof {
                assert forall|a: int|
                    0 <= a < gi + 1 && self.blocks@.contains_key(
                        (#[trigger] orig.arrival@[a]).0 as u128,
                    ) implies (exists|j: int|
                    0 <= j < kept@.len() && kept@[j] == orig.arrival@[a]) by {
                    if a < gi {
                        let j0 = choose|j: int|
                            0 <= j < kept_before.len() && kept_before[j] == orig.arrival@[a];
                        assert(kept@[j0] == orig.arrival@[a]);
                    } else {
                        assert(kept@[kept@.len() - 1] == orig.arrival@[gi]);
                    }
                }
            }
        }
        self.arrival = kept;
        proof {
            assert forall|k: u128| #[trigger]
                self.blocks@.contains_key(k) implies (exists|j: int|
                0 <= j < self.arrival@.len() && self.arrival@[j].0 as u128 == k) by {
                assert(orig.blocks@.contains_key(k));
                let a0 = choose|a: int|
                    0 <= a < orig.arrival@.len() && orig.arrival@[a].0 as u128 == k;
                let j0 = choose|j: int|
                    0 <= j < self.arrival@.len() && self.arrival@[j] == orig.arrival@[a0];
                assert(self.arrival@[j0].0 as u128 == k);
            }
        }
        taken
    }
}

} // verus!
