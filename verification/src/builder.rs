//! Block construction helpers: a builder assembling blocks against a
//! chainstate, and the output-juggling utilities tests are written with.

use vstd::prelude::*;

use crate::amount::Amount;
use crate::chain::{
    Block, BlockId, BlockReward, ConsensusData, Destination, InputWitness, OutPointSourceId,
    OutputValue, PoolId, SignedTransaction, StakePoolData, TxInput, TxOutput,
};
use crate::config::ChainConfig;
use crate::reorg::Chainstate;

verus! {

/// The destination every test output may spend to.
pub fn anyonecanspend_address() -> (r: Destination)
    ensures
        r == Destination::AnyoneCanSpend,
{
    Destination::AnyoneCanSpend
}

/// A do-nothing witness carrying the given bytes.
pub fn empty_witness(msg: Vec<u8>) -> (r: InputWitness)
    ensures
        r == InputWitness::NoSignature(Some(msg)),
{
    InputWitness::NoSignature(Some(msg))
}

/// The value an output carries, when it carries one: transfers and burns
/// carry their value, an NFT issuance carries one token.
pub fn get_output_value(output: &TxOutput) -> (r: Option<OutputValue>)
    ensures
        r == (match *output {
            TxOutput::Transfer(v, _) => Some(v),
            TxOutput::LockThenTransfer(v, _, _) => Some(v),
            TxOutput::Burn(v) => Some(v),
            TxOutput::IssueNft(t, _) => Some(OutputValue::TokenV1(t, Amount { atoms: 1 })),
            _ => None::<OutputValue>,
        }),
{
    match output {
        TxOutput::Transfer(v, _) | TxOutput::LockThenTransfer(v, _, _) | TxOutput::Burn(v) => Some(
            *v,
        ),
        TxOutput::IssueNft(token_id, _) => Some(
            OutputValue::TokenV1(*token_id, Amount::from_atoms(1)),
        ),
        _ => None,
    }
}

/// A new input spending the given output, and a transfer of the unspent
/// remainder.  Only transfers can be respent this way; the spent part must
/// leave at least one atom.  `None` for everything else.
pub fn create_utxo_data(
    outsrc: OutPointSourceId,
    index: u32,
    output: TxOutput,
    spent_value: Amount,
) -> (r: Option<(InputWitness, TxInput, TxOutput)>)
    ensures
        match output {
            TxOutput::Transfer(v, _) | TxOutput::LockThenTransfer(v, _, _) => match v {
                OutputValue::Coin(a) => if spent_value.atoms() < a.atoms() {
                    r matches Some(t) && t.0 == InputWitness::NoSignature(None::<Vec<u8>>) && t.1
                        == TxInput::Utxo(
                        crate::chain::UtxoOutPoint { source_id: outsrc, index },
                    ) && t.2 == TxOutput::Transfer(
                        OutputValue::Coin(Amount { atoms: (a.atoms() - spent_value.atoms()) as u128 }),
                        Destination::AnyoneCanSpend,
                    )
                } else {
                    r is None
                },
                OutputValue::TokenV1(tid, a) => if spent_value.atoms() < a.atoms() {
                    r matches Some(t) && t.0 == InputWitness::NoSignature(None::<Vec<u8>>) && t.1
                        == TxInput::Utxo(
                        crate::chain::UtxoOutPoint { source_id: outsrc, index },
                    ) && t.2 == TxOutput::Transfer(
                        OutputValue::TokenV1(
                            tid,
                            Amount { atoms: (a.atoms() - spent_value.atoms()) as u128 },
                        ),
                        Destination::AnyoneCanSpend,
                    )
                } else {
                    r is None
                },
                OutputValue::TokenV0(_) => r is None,
            },
            _ => r is None,
        },
{
    match output {
        TxOutput::Transfer(v, _) | TxOutput::LockThenTransfer(v, _, _) => {
            let new_output: Option<TxOutput> = match v {
                OutputValue::Coin(a) => {
                    match a.sub(spent_value) {
                        Some(rest) => {
                            if rest.is_zero() {
                                None
                            } else {
                                Some(
                                    TxOutput::Transfer(
                                        OutputValue::Coin(rest),
                                        Destination::AnyoneCanSpend,
                                    ),
                                )
                            }
                        },
                        None => None,
                    }
                },
                OutputValue::TokenV0(_) => None,
                OutputValue::TokenV1(tid, a) => {
                    match a.sub(spent_value) {
                        Some(rest) => {
                            if rest.is_zero() {
                                None
                            } else {
                                Some(
                                    TxOutput::Transfer(
                                        OutputValue::TokenV1(tid, rest),
                                        Destination::AnyoneCanSpend,
                                    ),
                                )
                            }
                        },
                        None => None,
                    }
                },
            };
            match new_output {
                Some(out) => Some(
                    (
                        InputWitness::NoSignature(None),
                        TxInput::from_utxo(outsrc, index),
                        out,
                    ),
                ),
                None => None,
            }
        },
        _ => None,
    }
}

/// The outputs a block put into the chain, grouped by their source: the
/// reward under the block's identifier, each transaction's outputs under
/// its own.
pub fn outputs_from_block(blk: Block) -> (r: Vec<(OutPointSourceId, Vec<TxOutput>)>)
    ensures
        r@.len() == 1 + blk.transactions@.len(),
        r@[0].0 == OutPointSourceId::BlockReward(blk.id),
        r@[0].1@ == blk.reward.spec_outputs(),
        forall|i: int|
            1 <= i < r@.len() ==> (#[trigger] r@[i]).0 == OutPointSourceId::Transaction(
                blk.transactions@[i - 1].transaction.id,
            ) && r@[i].1@ == blk.transactions@[i - 1].transaction.outputs@,
{
    let Block { id, prev_block_hash: _, timestamp: _, consensus_data: _, reward, transactions } =
        blk;
    let mut r: Vec<(OutPointSourceId, Vec<TxOutput>)> = Vec::new();
    r.push((OutPointSourceId::BlockReward(id), reward.outputs));
    let mut rest = transactions;
    let ghost txs0 = rest@;
    let n = rest.len();
    let mut i: usize = 0;
    while i < n
        invariant
            i <= n,
            n == txs0.len(),
            rest@ == txs0.skip(i as int),
            r@.len() == 1 + i,
            r@[0].0 == OutPointSourceId::BlockReward(id),
            r@[0].1@ == reward.spec_outputs(),
            forall|j: int|
                1 <= j < r@.len() ==> (#[trigger] r@[j]).0 == OutPointSourceId::Transaction(
                    txs0[j - 1].transaction.id,
                ) && r@[j].1@ == txs0[j - 1].transaction.outputs@,
        decreases n - i,
    {
        let signed = rest.remove(0);
        proof {
            assert(txs0.skip(i as int)[0] == txs0[i as int]);
        }
        let tx = signed.transaction;
        r.push((OutPointSourceId::Transaction(tx.id), tx.outputs));
        i = i + 1;
        proof {
            assert(rest@ =~= txs0.skip(i as int));
        }
    }
    r
}

/// The outputs of a genesis block: its reward outputs under its identifier.
pub fn outputs_from_genesis(genesis: Block) -> (r: Vec<(OutPointSourceId, Vec<TxOutput>)>)
    ensures
        r@.len() == 1,
        r@[0].0 == OutPointSourceId::BlockReward(genesis.id),
        r@[0].1@ == genesis.reward.spec_outputs(),
{
    let Block { id, prev_block_hash: _, timestamp: _, consensus_data: _, reward, transactions: _ } =
        genesis;
    let mut r: Vec<(OutPointSourceId, Vec<TxOutput>)> = Vec::new();
    r.push((OutPointSourceId::BlockReward(id), reward.outputs));
    r
}

/// Whether any source in a grouped output list is a transaction.
pub open spec fn spec_any_tx_source(s: Seq<(OutPointSourceId, Vec<TxOutput>)>) -> bool {
    exists|i: int| 0 <= i < s.len() && (#[trigger] s[i]).0 is Transaction
}

/// The pairs whose source kind matches the wanted one, in order.
pub open spec fn spec_filtered_sources(
    s: Seq<(OutPointSourceId, Vec<TxOutput>)>,
    want_tx: bool,
) -> Seq<(OutPointSourceId, Vec<TxOutput>)>
    decreases s.len(),
{
    if s.len() == 0 {
        Seq::empty()
    } else if (s.last().0 is Transaction) == want_tx {
        spec_filtered_sources(s.drop_last(), want_tx).push(s.last())
    } else {
        spec_filtered_sources(s.drop_last(), want_tx)
    }
}

/// Keeps the transaction outputs when a block has any, otherwise the
/// reward outputs: the outputs a test respends by default.
pub fn filter_outputs(outputs: Vec<(OutPointSourceId, Vec<TxOutput>)>) -> (r: Vec<
    (OutPointSourceId, Vec<TxOutput>),
>)
    ensures
        r@ == spec_filtered_sources(outputs@, spec_any_tx_source(outputs@)),
{
    let ghost all = outputs@;
    let n = outputs.len();
    let mut has_tx = false;
    let mut i: usize = 0;
    while i < n
        invariant
            i <= n,
            n == outputs@.len(),
            outputs@ == all,
            has_tx == exists|j: int| 0 <= j < i && (#[trigger] all[j]).0 is Transaction,
        decreases n - i,
    {
        if matches!(outputs[i].0, OutPointSourceId::Transaction(_)) {
            has_tx = true;
        }
        i = i + 1;
    }
    proof {
        assert(has_tx == spec_any_tx_source(all));
    }
    let mut r: Vec<(OutPointSourceId, Vec<TxOutput>)> = Vec::new();
    let mut rest = outputs;
    let mut i: usize = 0;
    while rest.len() > 0
        invariant
            i + rest@.len() == all.len(),
            n == all.len(),
            i <= n,
            rest@ == all.skip(i as int),
            r@ == spec_filtered_sources(all.take(i as int), has_tx),
        decreases rest@.len(),
    {
        let ghost gi = i as int;
        let pair = rest.remove(0);
        proof {
            assert(all.skip(gi)[0] == all[gi]);
        }
        let keep = matches!(pair.0, OutPointSourceId::Transaction(_)) == has_tx;
        if keep {
            r.push(pair);
        }
        i = i + 1;
        proof {
            assert(rest@ =~= all.skip(i as int));
            assert(all.take(gi + 1).drop_last() =~= all.take(gi));
            assert(all.take(gi + 1).last() == all[gi]);
        }
    }
    proof {
        assert(all.take(all.len() as int) =~= all);
    }
    r
}

/// The respends [`create_utxo_data`] makes of a list of outputs, in order,
/// skipping the outputs it cannot respend.
pub open spec fn spec_new_outputs(
    srcid: OutPointSourceId,
    outs: Seq<TxOutput>,
    spent: Seq<Amount>,
    n: int,
) -> Seq<(InputWitness, TxInput, TxOutput)>
    decreases n,
{
    if n <= 0 || outs.len() < n || spent.len() < n {
        Seq::empty()
    } else {
        match crate::builder::spec_utxo_data(srcid, (n - 1) as u32, outs[n - 1], spent[n - 1]) {
            Some(t) => spec_new_outputs(srcid, outs, spent, n - 1).push(t),
            None => spec_new_outputs(srcid, outs, spent, n - 1),
        }
    }
}

/// What [`create_utxo_data`] yields for one output.
pub open spec fn spec_utxo_data(
    outsrc: OutPointSourceId,
    index: u32,
    output: TxOutput,
    spent_value: Amount,
) -> Option<(InputWitness, TxInput, TxOutput)> {
    match output {
        TxOutput::Transfer(v, _) | TxOutput::LockThenTransfer(v, _, _) => match v {
            OutputValue::Coin(a) => if spent_value.atoms() < a.atoms() {
                Some(
                    (
                        InputWitness::NoSignature(None),
                        TxInput::Utxo(crate::chain::UtxoOutPoint { source_id: outsrc, index }),
                        TxOutput::Transfer(
                            OutputValue::Coin(
                                Amount { atoms: (a.atoms() - spent_value.atoms()) as u128 },
                            ),
                            Destination::AnyoneCanSpend,
                        ),
                    ),
                )
            } else {
                None
            },
            OutputValue::TokenV1(tid, a) => if spent_value.atoms() < a.atoms() {
                Some(
                    (
                        InputWitness::NoSignature(None),
                        TxInput::Utxo(crate::chain::UtxoOutPoint { source_id: outsrc, index }),
                        TxOutput::Transfer(
                            OutputValue::TokenV1(
                                tid,
                                Amount { atoms: (a.atoms() - spent_value.atoms()) as u128 },
                            ),
                            Destination::AnyoneCanSpend,
                        ),
                    ),
                )
            } else {
                None
            },
            OutputValue::TokenV0(_) => None,
        },
        _ => None,
    }
}

/// Respends each respendable output of one source: an input for it and a
/// transfer of what the given spent value leaves.
pub fn create_new_outputs(
    srcid: OutPointSourceId,
    outs: Vec<TxOutput>,
    spent_values: &Vec<Amount>,
) -> (r: Vec<(InputWitness, TxInput, TxOutput)>)
    requires
        outs@.len() == spent_values@.len(),
        outs@.len() <= u32::MAX,
    ensures
        r@ == spec_new_outputs(srcid, outs@, spent_values@, outs@.len() as int),
{
    let ghost all = outs@;
    let n = outs.len();
    let mut r: Vec<(InputWitness, TxInput, TxOutput)> = Vec::new();
    let mut rest = outs;
    let mut i: usize = 0;
    while rest.len() > 0
        invariant
            i + rest@.len() == all.len(),
            all.len() == spent_values@.len(),
            all.len() <= u32::MAX,
            rest@ == all.skip(i as int),
            r@ == spec_new_outputs(srcid, all, spent_values@, i as int),
        decreases rest@.len(),
    {
        let ghost gi = i as int;
        let output = rest.remove(0);
        proof {
            assert(all.skip(gi)[0] == all[gi]);
        }
        let made = create_utxo_data(srcid, i as u32, output, spent_values[i]);
        proof {
            assert(made == spec_utxo_data(srcid, gi as u32, all[gi], spent_values@[gi]));
        }
        if let Some(t) = made {
            r.push(t);
        }
        i = i + 1;
        proof {
            assert(rest@ =~= all.skip(i as int));
        }
    }
    r
}

/// A chain configuration whose genesis mints coins and declares a staking
/// pool, as staking tests start from.
pub fn create_chain_config_with_staking_pool(
    mint_amount: Amount,
    pool_id: PoolId,
    pool_data: StakePoolData,
) -> (r: (ChainConfig, Block))
    ensures
        r.1.id == BlockId(0),
        r.1.reward.spec_outputs().len() == 2,
        r.1.reward.spec_outputs()[0] == TxOutput::Transfer(
            OutputValue::Coin(mint_amount),
            Destination::AnyoneCanSpend,
        ),
        r.1.reward.spec_outputs()[1] == TxOutput::CreateStakePool(pool_id, pool_data),
{
    let config = ChainConfig {
        maturity_distance: 100,
        token_supply_change_fee: Amount::from_atoms(50),
        token_freeze_fee: Amount::from_atoms(50),
        token_change_authority_fee: Amount::from_atoms(50),
        data_deposit_fee: Amount::from_atoms(20),
        fungible_token_issuance_fee: Amount::from_atoms(100),
        nft_issuance_fee: Amount::from_atoms(100),
        min_hash_len: 16,
        max_hash_len: 64,
        token_max_ticker_len: 12,
        token_max_name_len: 16,
        token_max_description_len: 100,
        token_max_uri_len: 200,
        min_stake_pool_pledge: Amount::from_atoms(1000),
        accounts_balances_v1_from: 0,
    };
    let mint_output = TxOutput::Transfer(
        OutputValue::Coin(mint_amount),
        Destination::AnyoneCanSpend,
    );
    let pool = TxOutput::CreateStakePool(pool_id, pool_data);
    let mut outputs: Vec<TxOutput> = Vec::new();
    outputs.push(mint_output);
    outputs.push(pool);
    let genesis = Block {
        id: BlockId(0),
        prev_block_hash: BlockId(0),
        timestamp: 0,
        consensus_data: ConsensusData::IgnoreConsensus,
        reward: BlockReward::new(outputs),
        transactions: Vec::new(),
    };
    (config, genesis)
}

/// The staking-pool configuration most tests start from: a large mint and
/// a pool pledging the configured minimum, keyed to the given staker.
pub fn create_chain_config_with_default_staking_pool(staking_pk: u64, vrf_pk: u64) -> (r: (
    (ChainConfig, Block),
    PoolId,
))
    ensures
        r.1 == PoolId(1),
{
    let pool_id = PoolId(1);
    let pool_data = StakePoolData {
        pledge: Amount::from_atoms(1000),
        staker: Destination::PublicKey(staking_pk),
        vrf_public_key: vrf_pk,
        decommission_key: Destination::PublicKey(staking_pk),
        margin_ratio_per_thousand: 1000,
        cost_per_block: Amount::from_atoms(0),
    };
    let pair = create_chain_config_with_staking_pool(
        Amount::from_atoms(100_000_000),
        pool_id,
        pool_data,
    );
    (pair, pool_id)
}

/// A block builder: collects transactions and header fields, then builds.
pub struct BlockBuilder {
    pub transactions: Vec<SignedTransaction>,
    pub prev_block_hash: BlockId,
    pub timestamp: u64,
    pub consensus_data: ConsensusData,
    pub reward: BlockReward,
    pub block_id: BlockId,
}

impl BlockBuilder {
    /// A builder on top of the chainstate's current tip.
    pub fn new(chainstate: &Chainstate, block_id: BlockId) -> (r: BlockBuilder)
        ensures
            r.transactions@.len() == 0,
            r.prev_block_hash == chainstate.chain_index.best_tip,
            r.timestamp == 0,
            r.consensus_data == ConsensusData::IgnoreConsensus,
            r.reward.spec_outputs().len() == 0,
            r.block_id == block_id,
    {
        BlockBuilder {
            transactions: Vec::new(),
            prev_block_hash: chainstate.best_block_id(),
            timestamp: 0,
            consensus_data: ConsensusData::IgnoreConsensus,
            reward: BlockReward::new(Vec::new()),
            block_id,
        }
    }

    /// Replaces the transactions.
    pub fn with_transactions(self, transactions: Vec<SignedTransaction>) -> (r: BlockBuilder)
        ensures
            r == (BlockBuilder { transactions, ..self }),
    {
        BlockBuilder { transactions, ..self }
    }

    /// Appends one transaction.
    pub fn add_transaction(self, transaction: SignedTransaction) -> (r: BlockBuilder)
        ensures
            r.transactions@ == self.transactions@.push(transaction),
            r.prev_block_hash == self.prev_block_hash,
            r.timestamp == self.timestamp,
            r.consensus_data == self.consensus_data,
            r.reward == self.reward,
            r.block_id == self.block_id,
    {
        let mut b = self;
        b.transactions.push(transaction);
        b
    }

    /// Overrides the parent, deduced from the tip by default.
    pub fn with_parent(self, prev_block_hash: BlockId) -> (r: BlockBuilder)
        ensures
            r == (BlockBuilder { prev_block_hash, ..self }),
    {
        BlockBuilder { prev_block_hash, ..self }
    }

    /// Points the block at the given unknown parent, making it an orphan.
    pub fn make_orphan(self, unknown_parent: BlockId) -> (r: BlockBuilder)
        ensures
            r == (BlockBuilder { prev_block_hash: unknown_parent, ..self }),
    {
        BlockBuilder { prev_block_hash: unknown_parent, ..self }
    }

    /// Overrides the timestamp.
    pub fn with_timestamp(self, timestamp: u64) -> (r: BlockBuilder)
        ensures
            r == (BlockBuilder { timestamp, ..self }),
    {
        BlockBuilder { timestamp, ..self }
    }

    /// Overrides the consensus data.
    pub fn with_consensus_data(self, consensus_data: ConsensusData) -> (r: BlockBuilder)
        ensures
            r == (BlockBuilder { consensus_data, ..self }),
    {
        BlockBuilder { consensus_data, ..self }
    }

    /// Overrides the reward outputs.
    pub fn with_reward(self, reward: Vec<TxOutput>) -> (r: BlockBuilder)
        ensures
            r.reward.spec_outputs() == reward@,
            r.transactions == self.transactions,
            r.prev_block_hash == self.prev_block_hash,
            r.timestamp == self.timestamp,
            r.consensus_data == self.consensus_data,
            r.block_id == self.block_id,
    {
        let mut b = self;
        b.reward = BlockReward::new(reward);
        b
    }

    /// Assembles the block.
    pub fn build(self) -> (r: Block)
        ensures
            r.id == self.block_id,
            r.prev_block_hash == self.prev_block_hash,
            r.timestamp == self.timestamp,
            r.consensus_data == self.consensus_data,
            r.reward == self.reward,
            r.transactions == self.transactions,
    {
        Block {
            id: self.block_id,
            prev_block_hash: self.prev_block_hash,
            timestamp: self.timestamp,
            consensus_data: self.consensus_data,
            reward: self.reward,
            transactions: self.transactions,
        }
    }
}

} // verus!
