//! The block-index graph: per-block metadata, ancestor walks, and fork
//! choice by accumulated chain trust.

use std::collections::BTreeMap;
use vstd::prelude::*;

use crate::chain::{BlockHeight, BlockId, ConsensusData};

verus! {

broadcast use {vstd::std_specs::btree::group_btree_axioms, vstd::laws_cmp::group_laws_cmp};

/// The verification state of a block; both outcomes are terminal.
#[derive(Clone, Copy, Debug, PartialEq, Eq, Structural)]
pub enum BlockStatus {
    Unchecked,
    Valid,
    Failed,
}

/// Per-block metadata.
#[derive(Clone, Copy, Debug, PartialEq, Eq, Structural)]
pub struct BlockIndex {
    pub block_id: BlockId,
    pub prev_block_id: BlockId,
    pub block_height: BlockHeight,
    pub chain_trust: u128,
    pub status: BlockStatus,
}

/// Errors of the index queries.
#[derive(Clone, Copy, Debug, PartialEq, Eq, Structural)]
pub enum PropertyQueryError {
    BlockNotFound,
    InvalidAncestorHeight,
}

/// The map key of a block id.
pub open spec fn index_key(id: BlockId) -> u128 {
    id.0 as u128
}

/// Well-formedness of the index map: every entry sits under its own key;
/// the genesis entry is present at height zero and is its own parent; every
/// other entry has its parent present, one height below it, with strictly
/// less chain trust.
pub open spec fn index_map_wf(m: Map<u128, BlockIndex>, genesis: BlockId) -> bool {
    &&& m.contains_key(index_key(genesis))
    &&& m[index_key(genesis)].block_height.0 == 0
    &&& forall|k: u128|
        #[trigger] m.contains_key(k) ==> {
            let e = m[k];
            &&& index_key(e.block_id) == k
            &&& (e.block_id == genesis ==> e.block_height.0 == 0 && e.prev_block_id == genesis)
            &&& (e.block_id != genesis ==> {
                &&& m.contains_key(index_key(e.prev_block_id))
                &&& m[index_key(e.prev_block_id)].block_height.0 + 1 == e.block_height.0
                &&& m[index_key(e.prev_block_id)].chain_trust < e.chain_trust
            })
        }
}

/// The identifier of the ancestor of `id` at height at most `h`: the walk
/// stops at the first block no higher than `h`.
pub open spec fn spec_ancestor_id(
    m: Map<u128, BlockIndex>,
    genesis: BlockId,
    id: BlockId,
    h: u64,
) -> BlockId
    decreases m[index_key(id)].block_height.0,
    when index_map_wf(m, genesis) && m.contains_key(index_key(id))
{
    let e = m[index_key(id)];
    if e.block_height.0 <= h {
        id
    } else {
        spec_ancestor_id(m, genesis, e.prev_block_id, h)
    }
}

/// The identifier of the last common ancestor of two blocks: walk the
/// deeper chain up, then both together, until the walks meet.
pub open spec fn spec_lca_id(
    m: Map<u128, BlockIndex>,
    genesis: BlockId,
    a: BlockId,
    b: BlockId,
) -> BlockId
    decreases m[index_key(a)].block_height.0 + m[index_key(b)].block_height.0,
    when index_map_wf(m, genesis) && m.contains_key(index_key(a)) && m.contains_key(index_key(b))
{
    if a == b {
        a
    } else {
        let ea = m[index_key(a)];
        let eb = m[index_key(b)];
        if ea.block_height.0 > eb.block_height.0 {
            spec_lca_id(m, genesis, ea.prev_block_id, b)
        } else if eb.block_height.0 > ea.block_height.0 {
            spec_lca_id(m, genesis, a, eb.prev_block_id)
        } else {
            spec_lca_id(m, genesis, ea.prev_block_id, eb.prev_block_id)
        }
    }
}

/// Below a block's own height the walk goes through its parent.
proof fn lemma_ancestor_step(m: Map<u128, BlockIndex>, genesis: BlockId, id: BlockId, h: u64)
    requires
        index_map_wf(m, genesis),
        m.contains_key(index_key(id)),
        m[index_key(id)].block_height.0 > h,
    ensures
        m.contains_key(index_key(m[index_key(id)].prev_block_id)),
        spec_ancestor_id(m, genesis, id, h) == spec_ancestor_id(
            m,
            genesis,
            m[index_key(id)].prev_block_id,
            h,
        ),
{
    let e = m[index_key(id)];
    assert(e.block_id == id);
    assert(id != genesis);
}

/// The last common ancestor is an ancestor of both arguments: both walks
/// at its height land exactly on it, and it sits no higher than either.
pub proof fn lemma_lca_is_common_ancestor(
    m: Map<u128, BlockIndex>,
    genesis: BlockId,
    a: BlockId,
    b: BlockId,
)
    requires
        index_map_wf(m, genesis),
        m.contains_key(index_key(a)),
        m.contains_key(index_key(b)),
    ensures
        ({
            let l = spec_lca_id(m, genesis, a, b);
            &&& m.contains_key(index_key(l))
            &&& m[index_key(l)].block_height.0 <= m[index_key(a)].block_height.0
            &&& m[index_key(l)].block_height.0 <= m[index_key(b)].block_height.0
            &&& spec_ancestor_id(m, genesis, a, m[index_key(l)].block_height.0) == l
            &&& spec_ancestor_id(m, genesis, b, m[index_key(l)].block_height.0) == l
        }),
    decreases m[index_key(a)].block_height.0 + m[index_key(b)].block_height.0,
{
    let ea = m[index_key(a)];
    let eb = m[index_key(b)];
    assert(ea.block_id == a);
    assert(eb.block_id == b);
    if a == b {
    } else {
        let l = spec_lca_id(m, genesis, a, b);
        if ea.block_height.0 > eb.block_height.0 {
            assert(a != genesis);
            lemma_lca_is_common_ancestor(m, genesis, ea.prev_block_id, b);
            lemma_ancestor_step(m, genesis, a, m[index_key(l)].block_height.0);
        } else if eb.block_height.0 > ea.block_height.0 {
            assert(b != genesis);
            lemma_lca_is_common_ancestor(m, genesis, a, eb.prev_block_id);
            lemma_ancestor_step(m, genesis, b, m[index_key(l)].block_height.0);
        } else {
            assert(ea.block_height.0 > 0) by {
                if ea.block_height.0 == 0 {
                    assert(a == genesis);
                    assert(b == genesis);
                }
            }
            lemma_lca_is_common_ancestor(m, genesis, ea.prev_block_id, eb.prev_block_id);
            lemma_ancestor_step(m, genesis, a, m[index_key(l)].block_height.0);
            lemma_ancestor_step(m, genesis, b, m[index_key(l)].block_height.0);
        }
    }
}

/// The last common ancestor is the unique highest common ancestor: every
/// block that both walks land on sits no higher, and the one at the same
/// height is the last common ancestor itself.
pub proof fn lemma_lca_highest(
    m: Map<u128, BlockIndex>,
    genesis: BlockId,
    a: BlockId,
    b: BlockId,
    c: BlockId,
)
    requires
        index_map_wf(m, genesis),
        m.contains_key(index_key(a)),
        m.contains_key(index_key(b)),
        m.contains_key(index_key(c)),
        spec_ancestor_id(m, genesis, a, m[index_key(c)].block_height.0) == c,
        spec_ancestor_id(m, genesis, b, m[index_key(c)].block_height.0) == c,
    ensures
        ({
            let l = spec_lca_id(m, genesis, a, b);
            &&& m[index_key(c)].block_height.0 <= m[index_key(l)].block_height.0
            &&& (m[index_key(c)].block_height.0 == m[index_key(l)].block_height.0 ==> c == l)
        }),
    decreases m[index_key(a)].block_height.0 + m[index_key(b)].block_height.0,
{
    lemma_lca_is_common_ancestor(m, genesis, a, b);
    let ea = m[index_key(a)];
    let eb = m[index_key(b)];
    let hc = m[index_key(c)].block_height.0;
    assert(ea.block_id == a);
    assert(eb.block_id == b);
    // A common ancestor sits at or below both blocks.
    assert(hc <= ea.block_height.0) by {
        if hc > ea.block_height.0 {
            assert(spec_ancestor_id(m, genesis, a, hc) == a);
        }
    }
    assert(hc <= eb.block_height.0) by {
        if hc > eb.block_height.0 {
            assert(spec_ancestor_id(m, genesis, b, hc) == b);
        }
    }
    if a == b {
    } else {
        if ea.block_height.0 > eb.block_height.0 {
            assert(a != genesis);
            assert(hc < ea.block_height.0);
            lemma_ancestor_step(m, genesis, a, hc);
            lemma_lca_highest(m, genesis, ea.prev_block_id, b, c);
        } else if eb.block_height.0 > ea.block_height.0 {
            assert(b != genesis);
            assert(hc < eb.block_height.0);
            lemma_ancestor_step(m, genesis, b, hc);
            lemma_lca_highest(m, genesis, a, eb.prev_block_id, c);
        } else {
            assert(ea.block_height.0 > 0) by {
                if ea.block_height.0 == 0 {
                    assert(a == genesis);
                    assert(b == genesis);
                }
            }
            assert(hc < ea.block_height.0) by {
                if hc == ea.block_height.0 {
                    assert(spec_ancestor_id(m, genesis, a, hc) == a);
                    assert(spec_ancestor_id(m, genesis, b, hc) == b);
                }
            }
            lemma_ancestor_step(m, genesis, a, hc);
            lemma_ancestor_step(m, genesis, b, hc);
            lemma_lca_highest(m, genesis, ea.prev_block_id, eb.prev_block_id, c);
        }
    }
}

/// A block is its own last common ancestor with itself.
pub proof fn lemma_lca_self(m: Map<u128, BlockIndex>, genesis: BlockId, a: BlockId)
    requires
        index_map_wf(m, genesis),
        m.contains_key(index_key(a)),
    ensures
        spec_lca_id(m, genesis, a, a) == a,
{
}

/// The last common ancestor does not depend on the order of its arguments.
pub proof fn lemma_lca_symmetric(
    m: Map<u128, BlockIndex>,
    genesis: BlockId,
    a: BlockId,
    b: BlockId,
)
    requires
        index_map_wf(m, genesis),
        m.contains_key(index_key(a)),
        m.contains_key(index_key(b)),
    ensures
        spec_lca_id(m, genesis, a, b) == spec_lca_id(m, genesis, b, a),
    decreases m[index_key(a)].block_height.0 + m[index_key(b)].block_height.0,
{
    if a == b {
    } else {
        let ea = m[index_key(a)];
        let eb = m[index_key(b)];
        assert(ea.block_id == a);
        assert(eb.block_id == b);
        if ea.block_height.0 > eb.block_height.0 {
            assert(a != genesis);
            lemma_lca_symmetric(m, genesis, ea.prev_block_id, b);
        } else if eb.block_height.0 > ea.block_height.0 {
            assert(b != genesis);
            lemma_lca_symmetric(m, genesis, a, eb.prev_block_id);
        } else {
            assert(ea.block_height.0 > 0) by {
                if ea.block_height.0 == 0 {
                    assert(a == genesis);
                    assert(b == genesis);
                }
            }
            lemma_lca_symmetric(m, genesis, ea.prev_block_id, eb.prev_block_id);
        }
    }
}

/// Whether fork choice moves the tip from the incumbent to a candidate:
/// only strictly more chain trust wins; on equal trust the incumbent
/// stays, so the tip never churns between tied branches and every node
/// that saw the same blocks in the same order decides alike.
pub open spec fn spec_preferred_tip(candidate: BlockIndex, incumbent: BlockIndex) -> BlockIndex {
    if candidate.chain_trust > incumbent.chain_trust {
        candidate
    } else {
        incumbent
    }
}

/// Chain-trust ordering: a candidate replaces the incumbent tip exactly
/// when it carries strictly more accumulated trust; a tie keeps the
/// incumbent.  The rule is a function of the two entries alone, so
/// repeated runs on the same blocks decide the same way.
pub proof fn lemma_fork_choice_converges(candidate: BlockIndex, incumbent: BlockIndex)
    ensures
        candidate.chain_trust > incumbent.chain_trust ==> spec_preferred_tip(candidate, incumbent)
            == candidate,
        candidate.chain_trust <= incumbent.chain_trust ==> spec_preferred_tip(
            candidate,
            incumbent,
        ) == incumbent,
        spec_preferred_tip(candidate, incumbent) == candidate || spec_preferred_tip(
            candidate,
            incumbent,
        ) == incumbent,
{
}

/// The block-index graph with its canonical tip.
#[derive(Debug)]
pub struct ChainIndex {
    pub map: BTreeMap<u128, BlockIndex>,
    pub genesis_id: BlockId,
    pub best_tip: BlockId,
}

impl ChainIndex {
    /// Well-formedness: the map is, and the tip is a block of the map.
    pub open spec fn wf(self) -> bool {
        &&& index_map_wf(self.map@, self.genesis_id)
        &&& self.map@.contains_key(index_key(self.best_tip))
    }

    /// A fresh index holding only the genesis block, which is the tip.
    pub fn new(genesis_id: BlockId) -> (r: ChainIndex)
        ensures
            r.wf(),
            r.genesis_id == genesis_id,
            r.best_tip == genesis_id,
            r.map@ == Map::<u128, BlockIndex>::empty().insert(
                index_key(genesis_id),
                BlockIndex {
                    block_id: genesis_id,
                    prev_block_id: genesis_id,
                    block_height: BlockHeight(0),
                    chain_trust: 0,
                    status: BlockStatus::Valid,
                },
            ),
    {
        let mut map: BTreeMap<u128, BlockIndex> = BTreeMap::new();
        map.insert(
            genesis_id.0 as u128,
            BlockIndex {
                block_id: genesis_id,
                prev_block_id: genesis_id,
                block_height: BlockHeight(0),
                chain_trust: 0,
                status: BlockStatus::Valid,
            },
        );
        ChainIndex { map, genesis_id, best_tip: genesis_id }
    }

    /// The entry of a block, if the index knows it.
    pub fn get_block_index(&self, id: BlockId) -> (r: Option<BlockIndex>)
        ensures
            match r {
                Some(e) => self.map@.contains_key(index_key(id)) && e == self.map@[index_key(id)],
                None => !self.map@.contains_key(index_key(id)),
            },
    {
        match self.map.get(&(id.0 as u128)) {
            Some(e) => Some(*e),
            None => None,
        }
    }

    /// The entry of the canonical tip.
    pub fn best_block_index(&self) -> (r: BlockIndex)
        requires
            self.wf(),
        ensures
            r == self.map@[index_key(self.best_tip)],
    {
        match self.map.get(&(self.best_tip.0 as u128)) {
            Some(e) => *e,
            None => {
                proof {
                    assert(false);
                }
                BlockIndex {
                    block_id: self.genesis_id,
                    prev_block_id: self.genesis_id,
                    block_height: BlockHeight(0),
                    chain_trust: 0,
                    status: BlockStatus::Unchecked,
                }
            },
        }
    }

    /// Files a new block under its parent.  Rejected exactly when the
    /// identifier is taken, the parent is unknown, or the accumulated
    /// trust would overflow; the entry is then unchecked, one above its
    /// parent, carrying the parent's trust plus the block's own.
    pub fn add_block_index(
        &mut self,
        block_id: BlockId,
        prev_block_id: BlockId,
        consensus_data: ConsensusData,
    ) -> (r: Result<BlockIndex, PropertyQueryError>)
        requires
            old(self).wf(),
        ensures
            final(self).wf(),
            final(self).genesis_id == old(self).genesis_id,
            final(self).best_tip == old(self).best_tip,
            r is Ok <==> {
                &&& !old(self).map@.contains_key(index_key(block_id))
                &&& old(self).map@.contains_key(index_key(prev_block_id))
                &&& old(self).map@[index_key(prev_block_id)].block_height.0 < u64::MAX
                &&& old(self).map@[index_key(prev_block_id)].chain_trust
                    + consensus_data.spec_trust() <= u128::MAX
            },
            match r {
                Ok(e) => {
                    &&& !old(self).map@.contains_key(index_key(block_id))
                    &&& old(self).map@.contains_key(index_key(prev_block_id))
                    &&& block_id != old(self).genesis_id
                    &&& e.block_id == block_id
                    &&& e.prev_block_id == prev_block_id
                    &&& e.block_height.0 == old(self).map@[index_key(
                        prev_block_id,
                    )].block_height.0 + 1
                    &&& e.chain_trust == old(self).map@[index_key(prev_block_id)].chain_trust
                        + consensus_data.spec_trust()
                    &&& e.status == BlockStatus::Unchecked
                    &&& final(self).map@ == old(self).map@.insert(index_key(block_id), e)
                },
                Err(_) => final(self).map@ == old(self).map@,
            },
    {
        if self.map.contains_key(&(block_id.0 as u128)) {
            return Err(PropertyQueryError::BlockNotFound);
        }
        let parent = match self.map.get(&(prev_block_id.0 as u128)) {
            Some(p) => *p,
            None => {
                return Err(PropertyQueryError::BlockNotFound);
            },
        };
        if parent.block_height.0 == u64::MAX {
            return Err(PropertyQueryError::InvalidAncestorHeight);
        }
        let own_trust = consensus_data.trust();
        if parent.chain_trust > u128::MAX - own_trust {
            return Err(PropertyQueryError::InvalidAncestorHeight);
        }
        proof {
            assert(index_key(block_id) != index_key(self.genesis_id));
        }
        let entry = BlockIndex {
            block_id,
            prev_block_id,
            block_height: BlockHeight(parent.block_height.0 + 1),
            chain_trust: parent.chain_trust + own_trust,
            status: BlockStatus::Unchecked,
        };
        self.map.insert(block_id.0 as u128, entry);
        proof {
            assert forall|k: u128| #[trigger] self.map@.contains_key(k) implies {
                let e = self.map@[k];
                &&& index_key(e.block_id) == k
                &&& (e.block_id == self.genesis_id ==> e.block_height.0 == 0 && e.prev_block_id
                    == self.genesis_id)
                &&& (e.block_id != self.genesis_id ==> {
                    &&& self.map@.contains_key(index_key(e.prev_block_id))
                    &&& self.map@[index_key(e.prev_block_id)].block_height.0 + 1
                        == e.block_height.0
                    &&& self.map@[index_key(e.prev_block_id)].chain_trust < e.chain_trust
                })
            } by {
                if k != index_key(block_id) {
                    assert(old(self).map@.contains_key(k));
                }
            }
        }
        Ok(entry)
    }

    /// Marks a block's terminal verification state.
    pub fn set_block_status(&mut self, block_id: BlockId, status: BlockStatus) -> (r: Result<
        (),
        PropertyQueryError,
    >)
        requires
            old(self).wf(),
        ensures
            final(self).wf(),
            final(self).genesis_id == old(self).genesis_id,
            final(self).best_tip == old(self).best_tip,
            match r {
                Ok(_) => old(self).map@.contains_key(index_key(block_id)) && final(self).map@
                    == old(self).map@.insert(
                    index_key(block_id),
                    BlockIndex { status, ..old(self).map@[index_key(block_id)] },
                ),
                Err(_) => !old(self).map@.contains_key(index_key(block_id)) && final(self).map@
                    == old(self).map@,
            },
    {
        let entry = match self.map.get(&(block_id.0 as u128)) {
            Some(e) => *e,
            None => {
                return Err(PropertyQueryError::BlockNotFound);
            },
        };
        let updated = BlockIndex { status, ..entry };
        self.map.insert(block_id.0 as u128, updated);
        proof {
            assert forall|k: u128| #[trigger] self.map@.contains_key(k) implies {
                let e = self.map@[k];
                &&& index_key(e.block_id) == k
                &&& (e.block_id == self.genesis_id ==> e.block_height.0 == 0 && e.prev_block_id
                    == self.genesis_id)
                &&& (e.block_id != self.genesis_id ==> {
                    &&& self.map@.contains_key(index_key(e.prev_block_id))
                    &&& self.map@[index_key(e.prev_block_id)].block_height.0 + 1
                        == e.block_height.0
                    &&& self.map@[index_key(e.prev_block_id)].chain_trust < e.chain_trust
                })
            } by {
                assert(old(self).map@.contains_key(k));
            }
        }
        Ok(())
    }

    /// The ancestor of a block at an exact height.  Rejected exactly for an
    /// unknown block or a height above the block's own.
    pub fn get_ancestor(&self, id: BlockId, height: BlockHeight) -> (r: Result<
        BlockIndex,
        PropertyQueryError,
    >)
        requires
            self.wf(),
        ensures
            match r {
                Ok(e) => {
                    &&& self.map@.contains_key(index_key(id))
                    &&& height.0 <= self.map@[index_key(id)].block_height.0
                    &&& e == self.map@[index_key(
                        spec_ancestor_id(self.map@, self.genesis_id, id, height.0),
                    )]
                    &&& e.block_height.0 == height.0
                },
                Err(_) => !self.map@.contains_key(index_key(id)) || height.0 > self.map@[index_key(
                    id,
                )].block_height.0,
            },
    {
        let mut cur = match self.map.get(&(id.0 as u128)) {
            Some(e) => *e,
            None => {
                return Err(PropertyQueryError::BlockNotFound);
            },
        };
        if height.value() > cur.block_height.value() {
            return Err(PropertyQueryError::InvalidAncestorHeight);
        }
        while cur.block_height.0 > height.0
            invariant
                self.wf(),
                self.map@.contains_key(index_key(cur.block_id)),
                cur == self.map@[index_key(cur.block_id)],
                height.0 <= cur.block_height.0,
                spec_ancestor_id(self.map@, self.genesis_id, cur.block_id, height.0)
                    == spec_ancestor_id(self.map@, self.genesis_id, id, height.0),
                self.map@.contains_key(index_key(id)),
            decreases cur.block_height.0,
        {
            proof {
                if cur.block_id == self.genesis_id {
                    assert(cur.block_height.0 == 0);
                    assert(false);
                }
            }
            let next = match self.map.get(&(cur.prev_block_id.0 as u128)) {
                Some(e) => *e,
                None => {
                    proof {
                        assert(false);
                    }
                    return Err(PropertyQueryError::BlockNotFound);
                },
            };
            cur = next;
        }
        Ok(cur)
    }

    /// The last common ancestor of two blocks.  Rejected exactly when
    /// either block is unknown.
    pub fn last_common_ancestor(&self, a: BlockId, b: BlockId) -> (r: Result<
        BlockIndex,
        PropertyQueryError,
    >)
        requires
            self.wf(),
        ensures
            match r {
                Ok(e) => {
                    &&& self.map@.contains_key(index_key(a))
                    &&& self.map@.contains_key(index_key(b))
                    &&& e == self.map@[index_key(
                        spec_lca_id(self.map@, self.genesis_id, a, b),
                    )]
                },
                Err(_) => !self.map@.contains_key(index_key(a)) || !self.map@.contains_key(
                    index_key(b),
                ),
            },
    {
        let mut ca = match self.map.get(&(a.0 as u128)) {
            Some(e) => *e,
            None => {
                return Err(PropertyQueryError::BlockNotFound);
            },
        };
        let mut cb = match self.map.get(&(b.0 as u128)) {
            Some(e) => *e,
            None => {
                return Err(PropertyQueryError::BlockNotFound);
            },
        };
        while ca.block_id.0 != cb.block_id.0
            invariant
                self.wf(),
                self.map@.contains_key(index_key(ca.block_id)),
                self.map@.contains_key(index_key(cb.block_id)),
                ca == self.map@[index_key(ca.block_id)],
                cb == self.map@[index_key(cb.block_id)],
                spec_lca_id(self.map@, self.genesis_id, ca.block_id, cb.block_id) == spec_lca_id(
                    self.map@,
                    self.genesis_id,
                    a,
                    b,
                ),
                self.map@.contains_key(index_key(a)),
                self.map@.contains_key(index_key(b)),
            decreases ca.block_height.0 + cb.block_height.0,
        {
            proof {
                if ca.block_height.0 == 0 && cb.block_height.0 == 0 {
                    assert(ca.block_id == self.genesis_id);
                    assert(cb.block_id == self.genesis_id);
                    assert(false);
                }
            }
            if ca.block_height.value() > cb.block_height.value() {
                proof {
                    if ca.block_id == self.genesis_id {
                        assert(false);
                    }
                }
                let next = match self.map.get(&(ca.prev_block_id.0 as u128)) {
                    Some(e) => *e,
                    None => {
                        proof {
                            assert(false);
                        }
                        return Err(PropertyQueryError::BlockNotFound);
                    },
                };
                ca = next;
            } else if cb.block_height.value() > ca.block_height.value() {
                proof {
                    if cb.block_id == self.genesis_id {
                        assert(false);
                    }
                }
                let next = match self.map.get(&(cb.prev_block_id.0 as u128)) {
                    Some(e) => *e,
                    None => {
                        proof {
                            assert(false);
                        }
                        return Err(PropertyQueryError::BlockNotFound);
                    },
                };
                cb = next;
            } else {
                proof {
                    if ca.block_id == self.genesis_id || cb.block_id == self.genesis_id {
                        assert(false);
                    }
                }
                let next_a = match self.map.get(&(ca.prev_block_id.0 as u128)) {
                    Some(e) => *e,
                    None => {
                        proof {
                            assert(false);
                        }
                        return Err(PropertyQueryError::BlockNotFound);
                    },
                };
                let next_b = match self.map.get(&(cb.prev_block_id.0 as u128)) {
                    Some(e) => *e,
                    None => {
                        proof {
                            assert(false);
                        }
                        return Err(PropertyQueryError::BlockNotFound);
                    },
                };
                ca = next_a;
                cb = next_b;
            }
        }
        Ok(ca)
    }

    /// Whether fork choice moves the tip from the incumbent to the
    /// candidate: only strictly more trust does.
    pub fn preferred_tip(&self, candidate: BlockIndex, incumbent: BlockIndex) -> (r: BlockIndex)
        ensures
            r == spec_preferred_tip(candidate, incumbent),
    {
        if candidate.chain_trust > incumbent.chain_trust {
            candidate
        } else {
            incumbent
        }
    }
}

} // verus!
