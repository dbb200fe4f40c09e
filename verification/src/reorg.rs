//! The reorg processor: one structure owning the chain index, the ledgers,
//! and the per-block undo data, deciding for every submitted block whether
//! the canonical chain switches.
//!
//! A switch is transactional: the ledgers of a failed attempt are exactly
//! the ledgers from before it, whatever step failed.

use std::collections::BTreeMap;
use vstd::prelude::*;

use crate::amount::Amount;
use crate::chain::{Block, BlockId, TxOutput};
use crate::chain_index::{index_key, spec_lca_id, spec_preferred_tip, BlockStatus, ChainIndex};
use crate::chainstate::{spec_reward_outpoint_key, BlockUndo, ChainstateError, Ledgers};
use crate::config::ChainConfig;
use crate::tokens::TokensAccountingData;

verus! {

broadcast use {vstd::std_specs::btree::group_btree_axioms, vstd::laws_cmp::group_laws_cmp};

/// An exact in-memory copy of the ledgers, for transactional rollback.
fn clone_ledgers(l: &Ledgers) -> (r: Ledgers)
    ensures
        r.view() == l.view(),
        r.wf() == l.wf(),
{
    Ledgers {
        utxos: l.utxos.clone(),
        pool_data: l.pool_data.clone(),
        pool_balances: l.pool_balances.clone(),
        delegation_data: l.delegation_data.clone(),
        delegation_balances: l.delegation_balances.clone(),
        delegation_nonces: l.delegation_nonces.clone(),
        tokens: TokensAccountingData {
            token_data: l.tokens.token_data.clone(),
            circulating_supply: l.tokens.circulating_supply.clone(),
        },
    }
}

/// The pool a genesis reward output declares, as a ledger key.
pub open spec fn pool_key_of(o: TxOutput) -> Option<u128> {
    match o {
        TxOutput::CreateStakePool(p, _) => Some(p.0 as u128),
        _ => None,
    }
}

/// Whether two genesis reward outputs declare the same stake pool.
pub open spec fn genesis_pool_conflict(outs: Seq<TxOutput>) -> bool {
    exists|q1: int, q2: int|
        0 <= q1 < q2 < outs.len() && (#[trigger] pool_key_of(outs[q1])) is Some && pool_key_of(
            outs[q1],
        ) == #[trigger] pool_key_of(outs[q2])
}

/// The chainstate: index, ledgers, undo store, and the bodies of every
/// filed block.
///
/// The block store is never drained: a switch reads the branch bodies out
/// of it and leaves them in place, so a later switch back to a branch that
/// was canonical before finds them again without any resubmission.
pub struct Chainstate {
    pub chain_config: ChainConfig,
    pub chain_index: ChainIndex,
    pub ledgers: Ledgers,
    pub block_undos: BTreeMap<u128, BlockUndo>,
    pub blocks: BTreeMap<u128, Block>,
    pub subsidy: Amount,
}

impl Chainstate {
    pub open spec fn wf(self) -> bool {
        &&& self.chain_index.wf()
        &&& self.ledgers.wf()
    }

    /// A fresh chainstate over a genesis block: its outputs become the
    /// first entries of the UTXO ledger, and any stake pool it declares is
    /// registered with its pledge.  Rejected exactly when the reward has
    /// too many outputs or declares the same pool twice.
    pub fn new(chain_config: ChainConfig, genesis: Block, subsidy: Amount) -> (r: Result<
        Chainstate,
        ChainstateError,
    >)
        ensures
            r is Ok <==> (genesis.reward.spec_outputs().len() <= u32::MAX
                && !genesis_pool_conflict(genesis.reward.spec_outputs())),
            match r {
                Ok(c) => {
                    &&& c.wf()
                    &&& c.chain_index.best_tip == genesis.id
                    &&& c.chain_index.genesis_id == genesis.id
                    &&& forall|q: int|
                        0 <= q < genesis.reward.spec_outputs().len()
                            ==> c.ledgers.utxos@.contains_key(
                            #[trigger] spec_reward_outpoint_key(genesis.id, q),
                        ) && c.ledgers.utxos@[spec_reward_outpoint_key(genesis.id, q)]
                            == genesis.reward.spec_outputs()[q]
                    &&& forall|q: int|
                        0 <= q < genesis.reward.spec_outputs().len() ==> (
                        match #[trigger] genesis.reward.spec_outputs()[q] {
                            TxOutput::CreateStakePool(p, d) => c.ledgers.pool_data@.contains_key(
                                p.0 as u128,
                            ) && c.ledgers.pool_data@[p.0 as u128] == d && Ledgers::spec_balance(
                                c.ledgers.pool_balances@,
                                p.0 as u128,
                            ) == d.pledge.atoms(),
                            _ => true,
                        })
                },
                Err(e) => {
                    &&& (e == ChainstateError::TooManyOutputs <==> genesis.reward.spec_outputs().len()
                        > u32::MAX)
                    &&& (genesis.reward.spec_outputs().len() <= u32::MAX ==> (genesis_pool_conflict(
                        genesis.reward.spec_outputs(),
                    ) && e matches ChainstateError::PoolAlreadyExists(_)))
                },
            },
    {
        let chain_index = ChainIndex::new(genesis.id);
        let mut ledgers = Ledgers::new();
        if genesis.reward.outputs.len() > u32::MAX as usize {
            return Err(ChainstateError::TooManyOutputs);
        }
        let ghost all_g = genesis.reward.spec_outputs();
        let mut outs = genesis.reward.outputs;
        let mut clog: Vec<crate::delta::UndoEntry<TxOutput>> = Vec::new();
        let mut pdlog: Vec<crate::delta::UndoEntry<crate::chain::StakePoolData>> = Vec::new();
        let mut pblog: Vec<crate::delta::UndoEntry<Amount>> = Vec::new();
        let mut idx: u32 = 0;
        while outs.len() > 0
            invariant
                idx as int + outs@.len() == all_g.len(),
                all_g == genesis.reward.spec_outputs(),
                all_g.len() <= u32::MAX,
                outs@ == all_g.skip(idx as int),
                ledgers.wf(),
                forall|q: int|
                    0 <= q < idx as int ==> ledgers.utxos@.contains_key(
                        #[trigger] spec_reward_outpoint_key(genesis.id, q),
                    ) && ledgers.utxos@[spec_reward_outpoint_key(genesis.id, q)] == all_g[q],
                forall|q: int|
                    0 <= q < idx as int ==> (match #[trigger] all_g[q] {
                        TxOutput::CreateStakePool(p, d) => ledgers.pool_data@.contains_key(
                            p.0 as u128,
                        ) && ledgers.pool_data@[p.0 as u128] == d && Ledgers::spec_balance(
                            ledgers.pool_balances@,
                            p.0 as u128,
                        ) == d.pledge.atoms(),
                        _ => true,
                    }),
                forall|k: u128|
                    #[trigger] ledgers.pool_balances@.contains_key(k)
                        ==> ledgers.pool_data@.contains_key(k),
                forall|k: u128|
                    #[trigger] ledgers.utxos@.contains_key(k) ==> exists|q: int|
                        0 <= q < idx as int && k == #[trigger] spec_reward_outpoint_key(
                            genesis.id,
                            q,
                        ),
                forall|k: u128|
                    #[trigger] ledgers.pool_data@.contains_key(k) ==> exists|q: int|
                        0 <= q < idx as int && #[trigger] pool_key_of(all_g[q]) == Some(k),
                !genesis_pool_conflict(all_g.take(idx as int)),
            decreases outs@.len(),
        {
            let ghost led0 = ledgers;
            let output = outs.remove(0);
            let ghost gout = output;
            let ghost gidx = idx as int;
            proof {
                assert(all_g.skip(gidx)[0] == all_g[gidx]);
                assert(gout == all_g[gidx]);
            }
            let key = crate::chain::UtxoOutPoint::new(
                crate::chain::OutPointSourceId::BlockReward(genesis.id),
                idx,
            ).key();
            proof {
                assert(key == spec_reward_outpoint_key(genesis.id, gidx));
                // The reward key of this output is fresh.
                assert(!led0.utxos@.contains_key(key)) by {
                    if led0.utxos@.contains_key(key) {
                        let q = choose|q: int|
                            0 <= q < gidx && key == #[trigger] spec_reward_outpoint_key(
                                genesis.id,
                                q,
                            );
                        assert(spec_reward_outpoint_key(genesis.id, q)
                            != spec_reward_outpoint_key(genesis.id, gidx));
                    }
                }
            }
            let step: Result<(), ChainstateError> = match &output {
                TxOutput::CreateStakePool(p, data) => {
                    let p = *p;
                    let data = *data;
                    let cu = ledgers.create_utxo(key, output, &mut clog);
                    proof {
                        assert(cu is Ok);
                    }
                    match cu {
                        Ok(_) => ledgers.create_pool(p, data, &mut pdlog, &mut pblog),
                        Err(e) => Err(e),
                    }
                },
                _ => {
                    let cu = ledgers.create_utxo(key, output, &mut clog);
                    proof {
                        assert(cu is Ok);
                    }
                    cu
                },
            };
            if let Err(e) = step {
                proof {
                    // Only a duplicated pool declaration can fail here, and
                    // an earlier output then declared the same pool.
                    match all_g[gidx] {
                        TxOutput::CreateStakePool(p2, d2) => {
                            let k2 = p2.0 as u128;
                            assert(led0.pool_data@.contains_key(k2)) by {
                                if !led0.pool_data@.contains_key(k2) {
                                    assert(!led0.pool_balances@.contains_key(k2));
                                    assert(Ledgers::spec_balance(led0.pool_balances@, k2) == 0);
                                }
                            }
                            assert(e == ChainstateError::PoolAlreadyExists(p2));
                            let q1 = choose|q: int|
                                0 <= q < gidx && #[trigger] pool_key_of(all_g[q]) == Some(k2);
                            assert(pool_key_of(all_g[q1]) is Some);
                            assert(pool_key_of(all_g[q1]) == pool_key_of(all_g[gidx]));
                            assert(genesis_pool_conflict(all_g));
                        },
                        _ => {
                            assert(false);
                        },
                    }
                }
                return Err(e);
            }
            proof {
                assert(outs@ =~= all_g.skip(gidx + 1));
                assert forall|q: int|
                    0 <= q <= gidx implies ledgers.utxos@.contains_key(
                    #[trigger] spec_reward_outpoint_key(genesis.id, q),
                ) && ledgers.utxos@[spec_reward_outpoint_key(genesis.id, q)] == all_g[q] by {
                    if q < gidx {
                        assert(spec_reward_outpoint_key(genesis.id, q)
                            != spec_reward_outpoint_key(genesis.id, gidx));
                    }
                }
                assert forall|q: int|
                    0 <= q <= gidx implies (match #[trigger] all_g[q] {
                    TxOutput::CreateStakePool(p, d) => ledgers.pool_data@.contains_key(p.0 as u128)
                        && ledgers.pool_data@[p.0 as u128] == d && Ledgers::spec_balance(
                        ledgers.pool_balances@,
                        p.0 as u128,
                    ) == d.pledge.atoms(),
                    _ => true,
                }) by {
                    match all_g[gidx] {
                        TxOutput::CreateStakePool(p2, d2) => {
                            assert(!led0.pool_data@.contains_key(p2.0 as u128));
                            if q < gidx {
                                match all_g[q] {
                                    TxOutput::CreateStakePool(p, d) => {
                                        assert(led0.pool_data@.contains_key(p.0 as u128));
                                        assert(p.0 as u128 != p2.0 as u128);
                                    },
                                    _ => {},
                                }
                            } else {
                                // The fresh pool had no stray balance entry.
                                assert(!led0.pool_balances@.contains_key(p2.0 as u128));
                                assert(Ledgers::spec_balance(
                                    led0.pool_balances@,
                                    p2.0 as u128,
                                ) == 0);
                            }
                        },
                        _ => {
                            if q < gidx {
                                match all_g[q] {
                                    TxOutput::CreateStakePool(p, d) => {
                                        assert(ledgers.pool_data@ == led0.pool_data@);
                                        assert(ledgers.pool_balances@ == led0.pool_balances@);
                                    },
                                    _ => {},
                                }
                            }
                        },
                    }
                }
                assert forall|k: u128|
                    #[trigger] ledgers.pool_balances@.contains_key(k) implies ledgers
                    .pool_data@
                    .contains_key(k) by {
                    match all_g[gidx] {
                        TxOutput::CreateStakePool(p2, d2) => {
                            if k != p2.0 as u128 {
                                assert(Ledgers::spec_balance(ledgers.pool_balances@, k)
                                    == Ledgers::spec_balance(led0.pool_balances@, k));
                            }
                        },
                        _ => {},
                    }
                }
                assert forall|k: u128| #[trigger]
                    ledgers.utxos@.contains_key(k) implies exists|q: int|
                    0 <= q < gidx + 1 && k == #[trigger] spec_reward_outpoint_key(
                        genesis.id,
                        q,
                    ) by {
                    if k == key {
                        assert(key == spec_reward_outpoint_key(genesis.id, gidx));
                    } else {
                        assert(led0.utxos@.contains_key(k));
                    }
                }
                assert forall|k: u128| #[trigger]
                    ledgers.pool_data@.contains_key(k) implies exists|q: int|
                    0 <= q < gidx + 1 && #[trigger] pool_key_of(all_g[q]) == Some(k) by {
                    match all_g[gidx] {
                        TxOutput::CreateStakePool(p2, d2) => {
                            if k == p2.0 as u128 {
                                assert(pool_key_of(all_g[gidx]) == Some(k));
                            } else {
                                assert(led0.pool_data@.contains_key(k));
                            }
                        },
                        _ => {
                            assert(led0.pool_data@.contains_key(k));
                        },
                    }
                }
                assert(!genesis_pool_conflict(all_g.take(gidx + 1))) by {
                    if genesis_pool_conflict(all_g.take(gidx + 1)) {
                        let (q1, q2) = choose|q1: int, q2: int|
                            0 <= q1 < q2 < all_g.take(gidx + 1).len() && (#[trigger] pool_key_of(
                                all_g.take(gidx + 1)[q1],
                            )) is Some && pool_key_of(all_g.take(gidx + 1)[q1])
                                == #[trigger] pool_key_of(all_g.take(gidx + 1)[q2]);
                        assert(all_g.take(gidx + 1)[q1] == all_g[q1]);
                        assert(all_g.take(gidx + 1)[q2] == all_g[q2]);
                        if q2 < gidx {
                            assert(all_g.take(gidx)[q1] == all_g[q1]);
                            assert(all_g.take(gidx)[q2] == all_g[q2]);
                            assert(pool_key_of(all_g.take(gidx)[q1]) is Some);
                            assert(pool_key_of(all_g.take(gidx)[q1]) == pool_key_of(
                                all_g.take(gidx)[q2],
                            ));
                            assert(genesis_pool_conflict(all_g.take(gidx)));
                            assert(false);
                        } else {
                            // The duplicate would be this very output, but
                            // its create succeeded on a fresh pool.
                            match all_g[gidx] {
                                TxOutput::CreateStakePool(p2, d2) => {
                                    match all_g[q1] {
                                        TxOutput::CreateStakePool(p1, d1) => {
                                            assert(led0.pool_data@.contains_key(p1.0 as u128));
                                            assert(p1.0 as u128 == p2.0 as u128);
                                            assert(!led0.pool_data@.contains_key(p2.0 as u128));
                                            assert(false);
                                        },
                                        _ => {
                                            assert(false);
                                        },
                                    }
                                },
                                _ => {
                                    assert(false);
                                },
                            }
                        }
                    }
                }
            }
            if idx < u32::MAX {
                idx = idx + 1;
            } else {
                proof {
                    assert(outs@.len() == 0);
                }
            }
        }
        proof {
            assert(all_g.skip(0) =~= all_g);
            assert(all_g.take(idx as int) =~= all_g);
        }
        Ok(
            Chainstate {
                chain_config,
                chain_index,
                ledgers,
                block_undos: BTreeMap::new(),
                blocks: BTreeMap::new(),
                subsidy,
            },
        )
    }

    /// The identifier of the canonical tip.
    pub fn best_block_id(&self) -> (r: BlockId)
        ensures
            r == self.chain_index.best_tip,
    {
        self.chain_index.best_tip
    }

    /// Files a submitted block and switches the canonical chain to it when
    /// fork choice prefers it over the current tip.  Returns whether the
    /// tip moved.  Whenever the block is rejected, the ledgers, the undo
    /// store and the tip are exactly what they were before the call; a
    /// failed candidate is marked failed in the index, its body stays in
    /// the block store, and nothing else changes.
    #[verifier::rlimit(100)]
    #[verifier::spinoff_prover]
    pub fn process_block(&mut self, block: Block) -> (r: Result<bool, ChainstateError>)
        requires
            old(self).wf(),
        ensures
            final(self).wf(),
            final(self).chain_index.genesis_id == old(self).chain_index.genesis_id,
            // A block that files under a known parent without moving the
            // tip is owed acceptance: nothing further can reject it.
            ({
                let pkey = index_key(block.prev_block_hash);
                let tkey = index_key(old(self).chain_index.best_tip);
                &&& !old(self).chain_index.map@.contains_key(index_key(block.id))
                &&& old(self).chain_index.map@.contains_key(pkey)
                &&& old(self).chain_index.map@[pkey].block_height.0 < u64::MAX
                &&& old(self).chain_index.map@[pkey].chain_trust
                    + block.consensus_data.spec_trust() <= u128::MAX
                &&& old(self).chain_index.map@[pkey].chain_trust
                    + block.consensus_data.spec_trust() <= old(
                    self,
                ).chain_index.map@[tkey].chain_trust
            }) ==> r == Ok::<bool, ChainstateError>(false),
            // Success owed: a lone empty block extending the current tip
            // always connects and moves the tip — trust strictly grows.
            ({
                let tkey = index_key(old(self).chain_index.best_tip);
                &&& block.prev_block_hash == old(self).chain_index.best_tip
                &&& !old(self).chain_index.map@.contains_key(index_key(block.id))
                &&& old(self).chain_index.map@[tkey].block_height.0 < u64::MAX
                &&& old(self).chain_index.map@[tkey].chain_trust
                    + block.consensus_data.spec_trust() <= u128::MAX
                &&& block.transactions@.len() == 0
                &&& block.reward.spec_outputs().len() == 0
            }) ==> r == Ok::<bool, ChainstateError>(true),
            match r {
                Ok(moved) => {
                    if moved {
                        &&& final(self).chain_index.best_tip == block.id
                        &&& final(self).block_undos@.contains_key(index_key(block.id))
                        &&& final(self).chain_index.map@.contains_key(index_key(block.id))
                        &&& final(self).chain_index.map@[index_key(block.id)].status
                            == BlockStatus::Valid
                        &&& final(self).chain_index.map@[index_key(block.id)].chain_trust
                            > old(self).chain_index.map@[index_key(
                            old(self).chain_index.best_tip,
                        )].chain_trust
                        &&& spec_preferred_tip(
                            final(self).chain_index.map@[index_key(block.id)],
                            old(self).chain_index.map@[index_key(old(self).chain_index.best_tip)],
                        ) == final(self).chain_index.map@[index_key(block.id)]
                        &&& forall|q: int|
                            0 <= q < block.reward.spec_outputs().len()
                                ==> final(self).ledgers.utxos@.contains_key(
                                #[trigger] spec_reward_outpoint_key(block.id, q),
                            ) && final(self).ledgers.utxos@[spec_reward_outpoint_key(block.id, q)]
                                == block.reward.spec_outputs()[q]
                    } else {
                        // The block was filed but fork choice kept the tip.
                        &&& final(self).chain_index.best_tip == old(self).chain_index.best_tip
                        &&& final(self).ledgers.view() == old(self).ledgers.view()
                        &&& final(self).chain_index.map@.contains_key(index_key(block.id))
                        &&& spec_preferred_tip(
                            final(self).chain_index.map@[index_key(block.id)],
                            final(self).chain_index.map@[index_key(
                                final(self).chain_index.best_tip,
                            )],
                        ) == final(self).chain_index.map@[index_key(
                            final(self).chain_index.best_tip,
                        )]
                    }
                },
                Err(e) => {
                    &&& final(self).ledgers.view() == old(self).ledgers.view()
                    &&& final(self).chain_index.best_tip == old(self).chain_index.best_tip
                    &&& final(self).block_undos@ == old(self).block_undos@
                    &&& (e == ChainstateError::BlockAlreadyProcessed(block.id) <==> old(
                        self,
                    ).chain_index.map@.contains_key(index_key(block.id)))
                    &&& (e == ChainstateError::ParentNotFound(block.prev_block_hash) <==> (!old(
                        self,
                    ).chain_index.map@.contains_key(index_key(block.id)) && !old(
                        self,
                    ).chain_index.map@.contains_key(index_key(block.prev_block_hash))))
                },
            },
    {
        let block_id = block.get_id();
        if self.chain_index.get_block_index(block_id).is_some() {
            return Err(ChainstateError::BlockAlreadyProcessed(block_id));
        }
        if self.chain_index.get_block_index(block.prev_block_id()).is_none() {
            return Err(ChainstateError::ParentNotFound(block.prev_block_hash));
        }
        let entry = match self.chain_index.add_block_index(
            block_id,
            block.prev_block_hash,
            block.consensus_data,
        ) {
            Ok(e) => e,
            Err(e) => {
                return Err(ChainstateError::BlockIndexError(e));
            },
        };
        let tip_entry = self.chain_index.best_block_index();
        let ghost gblock = block;
        self.blocks.insert(block_id.0 as u128, block);
        let preferred = self.chain_index.preferred_tip(entry, tip_entry);
        if preferred.block_id.0 != entry.block_id.0 {
            // The current tip stays; the filed body waits for a switch.
            proof {
                assert(entry.block_id != tip_entry.block_id);
                assert(spec_preferred_tip(entry, tip_entry) == tip_entry);
            }
            return Ok(false);
        }
        proof {
            // The kept entry and the incumbent are distinct blocks, so the
            // candidate won on strictly more trust alone.
            assert(index_key(tip_entry.block_id) == index_key(old(self).chain_index.best_tip));
            assert(entry.block_id != tip_entry.block_id);
            assert(entry.chain_trust > tip_entry.chain_trust);
        }
        let ghost ext_hyp: bool = block.prev_block_hash == old(self).chain_index.best_tip && !old(
            self,
        ).chain_index.map@.contains_key(index_key(block.id)) && old(
            self,
        ).chain_index.map@[index_key(old(self).chain_index.best_tip)].block_height.0 < u64::MAX
            && old(self).chain_index.map@[index_key(old(self).chain_index.best_tip)].chain_trust
            + block.consensus_data.spec_trust() <= u128::MAX && block.transactions@.len() == 0
            && block.reward.spec_outputs().len() == 0;
        let lca = match self.chain_index.last_common_ancestor(
            tip_entry.block_id,
            entry.block_id,
        ) {
            Ok(e) => e,
            Err(e) => {
                return Err(ChainstateError::BlockIndexError(e));
            },
        };
        proof {
            // Extending the tip: the common ancestor is the tip itself.
            if ext_hyp {
                let m2 = self.chain_index.map@;
                let g = self.chain_index.genesis_id;
                let tid = old(self).chain_index.best_tip;
                assert(m2.contains_key(index_key(tid)));
                assert(m2[index_key(tid)] == tip_entry);
                assert(tip_entry.block_id == tid);
                assert(entry.block_id == block.id);
                assert(block.id != tid);
                assert(m2[index_key(block.id)] == entry);
                assert(entry.prev_block_id == tid);
                assert(entry.block_height.0 == tip_entry.block_height.0 + 1);
                assert(spec_lca_id(m2, g, tid, tid) == tid);
                assert(spec_lca_id(m2, g, tid, block.id) == tid);
                assert(lca == tip_entry);
            }
        }

        // The identifiers of the new branch, from just above the common
        // ancestor up to the candidate.
        let mut path: Vec<BlockId> = Vec::new();
        let mut cur = entry;
        let mut walk_ok = true;
        while walk_ok && cur.block_id.0 != lca.block_id.0
            invariant
                self.wf(),
                self.chain_index.wf(),
                self.chain_index.map@.contains_key(index_key(block.id)),
                self.chain_index.best_tip == old(self).chain_index.best_tip,
                self.chain_index.genesis_id == old(self).chain_index.genesis_id,
                self.ledgers.view() == old(self).ledgers.view(),
                self.block_undos@ == old(self).block_undos@,
                self.blocks@.contains_key(index_key(block.id)),
                self.blocks@[index_key(block.id)] == gblock,
                gblock == block,
                entry.block_id == block.id,
                self.chain_index.map@[index_key(block.id)].chain_trust == entry.chain_trust,
                tip_entry == old(self).chain_index.map@[index_key(
                    old(self).chain_index.best_tip,
                )],
                entry.chain_trust > tip_entry.chain_trust,
                ext_hyp == (block.prev_block_hash == old(self).chain_index.best_tip && !old(
                    self,
                ).chain_index.map@.contains_key(index_key(block.id)) && old(
                    self,
                ).chain_index.map@[index_key(
                    old(self).chain_index.best_tip,
                )].block_height.0 < u64::MAX && old(self).chain_index.map@[index_key(
                    old(self).chain_index.best_tip,
                )].chain_trust + block.consensus_data.spec_trust() <= u128::MAX
                    && block.transactions@.len() == 0 && block.reward.spec_outputs().len() == 0),
                ext_hyp ==> (lca == tip_entry && tip_entry.block_id == old(
                    self,
                ).chain_index.best_tip && entry.prev_block_id == old(self).chain_index.best_tip
                    && entry.block_height.0 == tip_entry.block_height.0 + 1 && block.id != old(
                    self,
                ).chain_index.best_tip && self.chain_index.map@.contains_key(index_key(
                    old(self).chain_index.best_tip,
                )) && self.chain_index.map@[index_key(old(self).chain_index.best_tip)]
                    == tip_entry),
                ext_hyp ==> (walk_ok && ((cur == entry && path@.len() == 0) || (cur == tip_entry
                    && path@ == Seq::<BlockId>::empty().push(block.id)))),
                path@.len() == 0 ==> cur == entry,
                path@.len() > 0 ==> path@[path@.len() - 1] == block.id,
            decreases cur.block_height.0, (if walk_ok {
                1int
            } else {
                0int
            }),
        {
            path.insert(0, cur.block_id);
            if cur.block_height.0 == 0 {
                walk_ok = false;
            } else {
                match self.chain_index.get_block_index(cur.prev_block_id) {
                    Some(p) => {
                        if p.block_height.0 < cur.block_height.0 {
                            cur = p;
                        } else {
                            walk_ok = false;
                        }
                    },
                    None => {
                        walk_ok = false;
                    },
                }
            }
        }
        proof {
            if ext_hyp {
                assert(walk_ok);
                assert(cur.block_id.0 == lca.block_id.0);
                assert(cur == tip_entry);
                assert(path@ == Seq::<BlockId>::empty().push(block.id));
                assert(path@.len() == 1);
                assert(path@[0] == block.id);
            }
        }
        if !walk_ok {
            return Err(ChainstateError::BlockIndexError(
                crate::chain_index::PropertyQueryError::BlockNotFound,
            ));
        }
        if path.len() == 0 {
            return Err(ChainstateError::BlockIndexError(
                crate::chain_index::PropertyQueryError::BlockNotFound,
            ));
        }

        match self.switch_to_branch(block_id, tip_entry, lca, path) {
            Ok(_) => Ok(true),
            Err(e) => Err(e),
        }
    }

    /// Reads the bodies of the blocks named by `path` out of the block
    /// store, in path order.  The store itself is left as it is: removing
    /// from a copy hands each body out once, so a duplicated identifier or
    /// an unfiled block is reported, and any later switch still finds every
    /// body in the store.
    fn collect_branch(&self, path: &Vec<BlockId>) -> (r: Result<
        Vec<(BlockId, Block)>,
        ChainstateError,
    >)
        ensures
            (path@.len() == 1 && self.blocks@.contains_key(index_key(path@[0]))) ==> r is Ok,
            match r {
                Ok(branch) => {
                    &&& branch@.len() == path@.len()
                    &&& forall|t: int| 0 <= t < path@.len() ==> (#[trigger] branch@[t]).0 == path@[t]
                    &&& forall|t: int|
                        0 <= t < path@.len() ==> self.blocks@.contains_key(
                            #[trigger] index_key(path@[t]),
                        ) && branch@[t].1 == self.blocks@[index_key(path@[t])]
                },
                Err(e) => e matches ChainstateError::BlockDataMissing(_),
            },
    {
        let mut pool = self.blocks.clone();
        let mut branch: Vec<(BlockId, Block)> = Vec::new();
        let n_path = path.len();
        let mut i: usize = 0;
        while i < n_path
            invariant
                i <= n_path,
                n_path == path@.len(),
                branch@.len() == i,
                forall|t: int| 0 <= t < i ==> (#[trigger] branch@[t]).0 == path@[t],
                forall|t: int|
                    0 <= t < i ==> self.blocks@.contains_key(#[trigger] index_key(path@[t]))
                        && branch@[t].1 == self.blocks@[index_key(path@[t])],
                forall|k: u128|
                    #[trigger] pool@.contains_key(k) ==> self.blocks@.contains_key(k) && pool@[k]
                        == self.blocks@[k],
                i == 0 ==> pool@ == self.blocks@,
            decreases n_path - i,
        {
            let ghost gi = i as int;
            let id = path[i];
            let ghost pool0 = pool@;
            let ghost branch0 = branch@;
            match pool.remove(&(id.0 as u128)) {
                Some(b) => {
                    proof {
                        assert(pool0.contains_key(id.0 as u128));
                        assert(b == pool0[id.0 as u128]);
                        assert(index_key(path@[gi]) == id.0 as u128);
                        assert(b == self.blocks@[index_key(path@[gi])]);
                    }
                    branch.push((id, b));
                    proof {
                        assert forall|t: int|
                            0 <= t <= gi implies self.blocks@.contains_key(
                            #[trigger] index_key(path@[t]),
                        ) && branch@[t].1 == self.blocks@[index_key(path@[t])] by {
                            if t < gi {
                                assert(branch@[t] == branch0[t]);
                            } else {
                                assert(branch@[gi] == (id, b));
                                assert(self.blocks@.contains_key(index_key(path@[gi])));
                            }
                        }
                    }
                },
                None => {
                    return Err(ChainstateError::BlockDataMissing(id));
                },
            }
            i = i + 1;
        }
        Ok(branch)
    }

    /// Switches the canonical chain to the branch ending in `block_id`:
    /// puts a restore point down, reads the branch bodies out of the block
    /// store (leaving the store as it is), disconnects the old suffix tip
    /// first, connects the branch in order, and publishes the new tip only
    /// when all of that went through.  On any failure the ledgers and the
    /// undo store are restored exactly and the tip stays.
    #[verifier::rlimit(100)]
    #[verifier::spinoff_prover]
    fn switch_to_branch(
        &mut self,
        block_id: BlockId,
        tip_entry: crate::chain_index::BlockIndex,
        lca: crate::chain_index::BlockIndex,
        path: Vec<BlockId>,
    ) -> (r: Result<(), ChainstateError>)
        requires
            old(self).wf(),
            path@.len() > 0,
            path@[path@.len() - 1] == block_id,
            old(self).chain_index.map@.contains_key(index_key(block_id)),
            old(self).blocks@.contains_key(index_key(block_id)),
        ensures
            final(self).wf(),
            final(self).chain_index.genesis_id == old(self).chain_index.genesis_id,
            final(self).blocks@ == old(self).blocks@,
            // Success owed: extending the tip with a lone empty block
            // disconnects nothing and always connects.
            (path@.len() == 1 && tip_entry == lca && old(self).blocks@[index_key(
                block_id,
            )].transactions@.len() == 0 && old(self).blocks@[index_key(
                block_id,
            )].reward.spec_outputs().len() == 0) ==> r is Ok,
            match r {
                Ok(_) => {
                    &&& final(self).chain_index.best_tip == block_id
                    &&& final(self).block_undos@.contains_key(index_key(block_id))
                    &&& final(self).chain_index.map@.contains_key(index_key(block_id))
                    &&& final(self).chain_index.map@[index_key(block_id)].status
                        == BlockStatus::Valid
                    &&& final(self).chain_index.map@[index_key(block_id)].chain_trust
                        == old(self).chain_index.map@[index_key(block_id)].chain_trust
                    &&& forall|q: int|
                        0 <= q < old(self).blocks@[index_key(
                            block_id,
                        )].reward.spec_outputs().len()
                            ==> final(self).ledgers.utxos@.contains_key(
                            #[trigger] spec_reward_outpoint_key(block_id, q),
                        ) && final(self).ledgers.utxos@[spec_reward_outpoint_key(block_id, q)]
                            == old(self).blocks@[index_key(block_id)].reward.spec_outputs()[q]
                },
                Err(e) => {
                    &&& final(self).ledgers.view() == old(self).ledgers.view()
                    &&& final(self).chain_index.best_tip == old(self).chain_index.best_tip
                    &&& final(self).block_undos@ == old(self).block_undos@
                    &&& !(e matches ChainstateError::BlockAlreadyProcessed(_))
                    &&& !(e matches ChainstateError::ParentNotFound(_))
                },
            },
    {
        // Restore points: a failed switch puts everything back.
        let ledgers_backup = clone_ledgers(&self.ledgers);
        let undos_backup = self.block_undos.clone();

        let branch = match self.collect_branch(&path) {
            Ok(b) => b,
            Err(e) => {
                return Err(e);
            },
        };

        // Disconnect the old branch, tip first, down to the ancestor.
        let mut cur = tip_entry;
        let mut walk_ok = true;
        while walk_ok && cur.block_id.0 != lca.block_id.0
            invariant
                tip_entry == lca ==> (walk_ok && cur == tip_entry),
                self.ledgers.wf(),
                self.chain_index.wf(),
                self.chain_index.map@ == old(self).chain_index.map@,
                self.chain_index.map@.contains_key(index_key(block_id)),
                self.chain_index.best_tip == old(self).chain_index.best_tip,
                self.chain_index.genesis_id == old(self).chain_index.genesis_id,
                self.blocks@ == old(self).blocks@,
                ledgers_backup.view() == old(self).ledgers.view(),
                ledgers_backup.wf() == old(self).ledgers.wf(),
                undos_backup@ == old(self).block_undos@,
                branch@.len() > 0,
                branch@[branch@.len() - 1].0 == block_id,
                branch@[branch@.len() - 1].1 == old(self).blocks@[index_key(block_id)],
            decreases cur.block_height.0, (if walk_ok {
                1int
            } else {
                0int
            }),
        {
            match self.block_undos.remove(&(cur.block_id.0 as u128)) {
                Some(u) => {
                    self.ledgers.disconnect_block(u);
                },
                None => {
                    walk_ok = false;
                },
            }
            if walk_ok {
                if cur.block_height.0 == 0 {
                    walk_ok = false;
                } else {
                    match self.chain_index.get_block_index(cur.prev_block_id) {
                        Some(p) => {
                            if p.block_height.0 < cur.block_height.0 {
                                cur = p;
                            } else {
                                walk_ok = false;
                            }
                        },
                        None => {
                            walk_ok = false;
                        },
                    }
                }
            }
        }
        if !walk_ok {
            self.ledgers = ledgers_backup;
            self.block_undos = undos_backup;
            return Err(ChainstateError::BlockUndoMissing(cur.block_id));
        }

        // Connect the new branch in forward order.
        match self.connect_branch(branch, block_id) {
            Ok(_) => {},
            Err(e) => {
                self.ledgers = ledgers_backup;
                self.block_undos = undos_backup;
                let _marked = self.chain_index.set_block_status(block_id, BlockStatus::Failed);
                return Err(e);
            },
        }

        // Publish the new tip only now that the whole switch went through.
        self.chain_index.best_tip = block_id;
        proof {
            assert(self.chain_index.wf());
        }
        Ok(())
    }

    /// Connects a branch's blocks in forward order, filing each block's
    /// undo and marking it valid; the candidate tip is the branch's last
    /// block.  On failure the caller restores from its backups.
    #[verifier::rlimit(60)]
    #[verifier::spinoff_prover]
    fn connect_branch(
        &mut self,
        branch_blocks: Vec<(BlockId, Block)>,
        candidate: BlockId,
    ) -> (r: Result<(), ChainstateError>)
        requires
            old(self).ledgers.wf(),
            old(self).chain_index.wf(),
            old(self).chain_index.map@.contains_key(index_key(candidate)),
            branch_blocks@.len() > 0,
            branch_blocks@[branch_blocks@.len() - 1].0 == candidate,
        ensures
            final(self).ledgers.wf(),
            final(self).chain_index.wf(),
            final(self).chain_index.best_tip == old(self).chain_index.best_tip,
            final(self).chain_index.genesis_id == old(self).chain_index.genesis_id,
            final(self).blocks@ == old(self).blocks@,
            final(self).chain_index.map@.contains_key(index_key(candidate)),
            final(self).chain_index.map@[index_key(candidate)].chain_trust
                == old(self).chain_index.map@[index_key(candidate)].chain_trust,
            (branch_blocks@.len() == 1 && branch_blocks@[0].1.transactions@.len() == 0
                && branch_blocks@[0].1.reward.spec_outputs().len() == 0) ==> r is Ok,
            match r {
                Ok(_) => {
                    &&& final(self).block_undos@.contains_key(index_key(candidate))
                    &&& final(self).chain_index.map@[index_key(candidate)].status
                        == BlockStatus::Valid
                    &&& forall|q: int|
                        0 <= q < branch_blocks@[branch_blocks@.len()
                            - 1].1.reward.spec_outputs().len()
                            ==> final(self).ledgers.utxos@.contains_key(
                            #[trigger] spec_reward_outpoint_key(candidate, q),
                        ) && final(self).ledgers.utxos@[spec_reward_outpoint_key(candidate, q)]
                            == branch_blocks@[branch_blocks@.len() - 1].1.reward.spec_outputs()[q]
                },
                Err(e) => !(e matches ChainstateError::BlockAlreadyProcessed(_)) && !(e
                    matches ChainstateError::ParentNotFound(_)),
            },
    {
        let ghost gcand = branch_blocks@[branch_blocks@.len() - 1].1;
        let ghost hyp_single: bool = branch_blocks@.len() == 1 && branch_blocks@[0].1.transactions@.len()
            == 0 && branch_blocks@[0].1.reward.spec_outputs().len() == 0;
        let mut blocks = branch_blocks;
        let mut connect_err: Option<ChainstateError> = None;
        while blocks.len() > 0 && connect_err.is_none()
            invariant
                hyp_single == (branch_blocks@.len() == 1 && branch_blocks@[0].1.transactions@.len()
                    == 0 && branch_blocks@[0].1.reward.spec_outputs().len() == 0),
                hyp_single ==> (connect_err is None && (blocks@ == branch_blocks@ || blocks@.len()
                    == 0)),
                self.ledgers.wf(),
                self.chain_index.wf(),
                self.chain_index.map@.contains_key(index_key(candidate)),
                self.chain_index.map@[index_key(candidate)].chain_trust
                    == old(self).chain_index.map@[index_key(candidate)].chain_trust,
                self.chain_index.best_tip == old(self).chain_index.best_tip,
                self.chain_index.genesis_id == old(self).chain_index.genesis_id,
                self.blocks@ == old(self).blocks@,
                blocks@.len() > 0 ==> blocks@[blocks@.len() - 1] == branch_blocks@[
                    branch_blocks@.len() - 1],
                blocks@.len() > 0 ==> blocks@[blocks@.len() - 1].0 == candidate,
                connect_err is None && blocks@.len() == 0 ==> self.block_undos@.contains_key(
                    index_key(candidate),
                ) && self.chain_index.map@[index_key(candidate)].status == BlockStatus::Valid,
                connect_err is None && blocks@.len() == 0 ==> forall|q: int|
                    0 <= q < gcand.reward.spec_outputs().len() ==> self.ledgers.utxos@.contains_key(
                        #[trigger] spec_reward_outpoint_key(candidate, q),
                    ) && self.ledgers.utxos@[spec_reward_outpoint_key(candidate, q)]
                        == gcand.reward.spec_outputs()[q],
                gcand == branch_blocks@[branch_blocks@.len() - 1].1,
                match connect_err {
                    Some(e) => !(e matches ChainstateError::BlockAlreadyProcessed(_)) && !(e
                        matches ChainstateError::ParentNotFound(_)),
                    None => true,
                },
            decreases blocks@.len(),
        {
            let ghost pre_blocks = blocks@;
            let (id, b) = blocks.remove(0);
            proof {
                assert((id, b) == pre_blocks[0]);
                if blocks@.len() > 0 {
                    assert(blocks@[blocks@.len() - 1] == pre_blocks[pre_blocks.len() - 1]);
                } else {
                    assert(id == candidate);
                }
            }
            let height = match self.chain_index.get_block_index(id) {
                Some(e) => e.block_height,
                None => {
                    proof {
                        if hyp_single && pre_blocks == branch_blocks@ {
                            assert(branch_blocks@.len() == 1);
                            assert(branch_blocks@[branch_blocks@.len() - 1].0 == candidate);
                            assert(branch_blocks@[0].0 == candidate);
                            assert((id, b) == branch_blocks@[0]);
                            assert(id == branch_blocks@[0].0);
                            assert(false);
                        }
                    }
                    connect_err = Some(ChainstateError::BlockDataMissing(id));
                    continue ;
                },
            };
            let Block { id: _, prev_block_hash: _, timestamp: _, consensus_data: _, reward, transactions } = b;
            match self.ledgers.connect_block(
                &self.chain_config,
                height,
                id,
                transactions,
                reward,
                self.subsidy,
            ) {
                Ok(u) => {
                    self.block_undos.insert(id.0 as u128, u);
                    let marked = self.chain_index.set_block_status(id, BlockStatus::Valid);
                    proof {
                        if blocks@.len() == 0 {
                            assert(id == candidate);
                            assert((id, b) == (pre_blocks[0].0, pre_blocks[0].1));
                            assert(b == gcand);
                            assert(reward == gcand.reward);
                            assert(marked is Ok);
                            assert(self.block_undos@.contains_key(index_key(candidate)));
                            assert(self.chain_index.map@[index_key(candidate)].status
                                == BlockStatus::Valid);
                        }
                    }
                },
                Err(e) => {
                    proof {
                        // A lone empty block is owed its connect.
                        if hyp_single && pre_blocks == branch_blocks@ {
                            assert((id, b) == branch_blocks@[0]);
                            assert(b == branch_blocks@[0].1);
                            assert(b.transactions@.len() == 0);
                            assert(b.reward.spec_outputs().len() == 0);
                            assert(false);
                        }
                    }
                    connect_err = Some(e);
                },
            }
        }
        match connect_err {
            Some(e) => Err(e),
            None => Ok(()),
        }
    }
}

} // verus!
