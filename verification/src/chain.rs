//! The chain data model: identifiers, outputs, inputs, transactions, blocks.
//!
//! Identifiers stand for content hashes of the wire encoding;
//! hashing is a cryptographic primitive outside this crate, so every item
//! carries its identifier as a plain value and the ledgers enforce the
//! uniqueness that a hash would give.

use vstd::prelude::*;

use crate::amount::Amount;
use crate::tokens::{IsTokenUnfreezable, TokenIssuance};

verus! {

/// Identifier of a stake pool.
#[derive(Clone, Copy, Debug, PartialEq, Eq, Hash, PartialOrd, Ord, Structural)]
pub struct PoolId(pub u64);

/// Identifier of a delegation account.
#[derive(Clone, Copy, Debug, PartialEq, Eq, Hash, PartialOrd, Ord, Structural)]
pub struct DelegationId(pub u64);

/// Identifier of a fungible token or an NFT.
#[derive(Clone, Copy, Debug, PartialEq, Eq, Hash, PartialOrd, Ord, Structural)]
pub struct TokenId(pub u64);

/// Identifier of a block (genesis included).
#[derive(Clone, Copy, Debug, PartialEq, Eq, Hash, PartialOrd, Ord, Structural)]
pub struct BlockId(pub u64);

/// Where value may be sent.
#[derive(Clone, Copy, Debug, PartialEq, Eq, Hash, PartialOrd, Ord, Structural)]
pub enum Destination {
    /// Spendable by anybody: no signature asked.
    AnyoneCanSpend,
    /// A public-key-hash address.
    Address(u64),
    /// A bare public key.
    PublicKey(u64),
}

/// The counter an account-spending input must match exactly.
#[derive(Clone, Copy, Debug, PartialEq, Eq, Hash, PartialOrd, Ord, Structural)]
pub struct AccountNonce(pub u64);

impl AccountNonce {
    pub fn new(value: u64) -> (r: AccountNonce)
        ensures
            r.0 == value,
    {
        AccountNonce(value)
    }

    pub fn value(self) -> (r: u64)
        ensures
            r == self.0,
    {
        self.0
    }

    /// The next nonce; `None` exactly when the counter is exhausted.
    pub fn increment(self) -> (r: Option<AccountNonce>)
        ensures
            self.0 < u64::MAX ==> (r matches Some(n) && n.0 == self.0 + 1),
            self.0 == u64::MAX ==> r is None,
    {
        if self.0 < u64::MAX {
            Some(AccountNonce(self.0 + 1))
        } else {
            None
        }
    }
}

/// A block height.
#[derive(Clone, Copy, Debug, PartialEq, Eq, Hash, PartialOrd, Ord, Structural)]
pub struct BlockHeight(pub u64);

impl BlockHeight {
    pub fn new(value: u64) -> (r: BlockHeight)
        ensures
            r.0 == value,
    {
        BlockHeight(value)
    }

    pub fn value(self) -> (r: u64)
        ensures
            r == self.0,
    {
        self.0
    }
}

/// The currency a constrained or unconstrained value is counted in.
#[derive(Clone, Copy, Debug, PartialEq, Eq, Hash, PartialOrd, Ord, Structural)]
pub enum CoinOrTokenId {
    Coin,
    TokenId(TokenId),
}

impl CoinOrTokenId {
    /// The map key of the currency; injective by construction.
    pub open spec fn spec_key(self) -> u128 {
        match self {
            CoinOrTokenId::Coin => 0,
            CoinOrTokenId::TokenId(t) => (1 + t.0 as u128) as u128,
        }
    }

    pub fn key(self) -> (r: u128)
        ensures
            r == self.spec_key(),
    {
        match self {
            CoinOrTokenId::Coin => 0,
            CoinOrTokenId::TokenId(t) => 1 + t.0 as u128,
        }
    }
}

/// The value an output carries.
#[derive(Clone, Copy, Debug, PartialEq, Eq, Structural)]
pub enum OutputValue {
    Coin(Amount),
    /// A deprecated token format; carries no accountable value.
    TokenV0(TokenId),
    TokenV1(TokenId, Amount),
}

/// A timelock on an output.
#[derive(Clone, Copy, Debug, PartialEq, Eq, Structural)]
pub enum OutputTimeLock {
    UntilHeight(u64),
    UntilTime(u64),
    ForSeconds(u64),
    ForBlockCount(u64),
}

/// The declared parameters of a new stake pool.
#[derive(Clone, Copy, Debug, PartialEq, Eq, Structural)]
pub struct StakePoolData {
    pub pledge: Amount,
    pub staker: Destination,
    pub vrf_public_key: u64,
    pub decommission_key: Destination,
    pub margin_ratio_per_thousand: u64,
    pub cost_per_block: Amount,
}

impl StakePoolData {
    pub fn new(
        pledge: Amount,
        staker: Destination,
        vrf_public_key: u64,
        decommission_key: Destination,
        margin_ratio_per_thousand: u64,
        cost_per_block: Amount,
    ) -> (r: StakePoolData)
        ensures
            r == (StakePoolData {
                pledge,
                staker,
                vrf_public_key,
                decommission_key,
                margin_ratio_per_thousand,
                cost_per_block,
            }),
    {
        StakePoolData { pledge, staker, vrf_public_key, decommission_key, margin_ratio_per_thousand, cost_per_block }
    }

    pub fn pledge(&self) -> (r: Amount)
        ensures
            r == self.pledge,
    {
        self.pledge
    }
}

/// One output of a transaction or a block reward.
#[derive(Clone, Debug, PartialEq, Eq)]
pub enum TxOutput {
    Transfer(OutputValue, Destination),
    LockThenTransfer(OutputValue, Destination, OutputTimeLock),
    Burn(OutputValue),
    CreateStakePool(PoolId, StakePoolData),
    ProduceBlockFromStake(Destination, PoolId),
    CreateDelegationId(Destination, PoolId),
    DelegateStaking(Amount, DelegationId),
    IssueFungibleToken(TokenIssuance),
    IssueNft(TokenId, Destination),
    DataDeposit(Vec<u8>),
}

/// What produced the output an outpoint refers to.
#[derive(Clone, Copy, Debug, PartialEq, Eq, Hash, PartialOrd, Ord, Structural)]
pub enum OutPointSourceId {
    Transaction(u64),
    BlockReward(BlockId),
}

/// A reference to one output of one source.
#[derive(Clone, Copy, Debug, PartialEq, Eq, Hash, PartialOrd, Ord, Structural)]
pub struct UtxoOutPoint {
    pub source_id: OutPointSourceId,
    pub index: u32,
}

impl UtxoOutPoint {
    pub fn new(source_id: OutPointSourceId, index: u32) -> (r: UtxoOutPoint)
        ensures
            r.source_id == source_id,
            r.index == index,
    {
        UtxoOutPoint { source_id, index }
    }

    /// The UTXO-map key of the outpoint; injective (see
    /// [`lemma_outpoint_key_injective`]).
    pub open spec fn spec_key(self) -> u128 {
        let kind: u128 = match self.source_id {
            OutPointSourceId::Transaction(_) => 0,
            OutPointSourceId::BlockReward(_) => 1,
        };
        let id: u128 = match self.source_id {
            OutPointSourceId::Transaction(tx) => tx as u128,
            OutPointSourceId::BlockReward(b) => b.0 as u128,
        };
        (kind * 0x1000000000000000000000000 + id * 0x100000000 + self.index as u128) as u128
    }

    pub fn key(self) -> (r: u128)
        ensures
            r == self.spec_key(),
    {
        let kind: u128 = match self.source_id {
            OutPointSourceId::Transaction(_) => 0,
            OutPointSourceId::BlockReward(_) => 1,
        };
        let id: u128 = match self.source_id {
            OutPointSourceId::Transaction(tx) => tx as u128,
            OutPointSourceId::BlockReward(b) => b.0 as u128,
        };
        kind * 0x1000000000000000000000000 + id * 0x100000000 + self.index as u128
    }
}

/// Two distinct outpoints never share a UTXO-map key.
pub proof fn lemma_outpoint_key_injective(a: UtxoOutPoint, b: UtxoOutPoint)
    requires
        a.spec_key() == b.spec_key(),
    ensures
        a == b,
{
    assert(a == b) by (nonlinear_arith)
        requires
            a.spec_key() == b.spec_key(),
    {
    }
}

/// One account an account-spending input draws from.
#[derive(Clone, Copy, Debug, PartialEq, Eq, Structural)]
pub enum AccountSpending {
    DelegationBalance(DelegationId, Amount),
}

/// A command to a token account; carried by an input and paid for by a fee.
#[derive(Clone, Copy, Debug, PartialEq, Eq, Structural)]
pub enum AccountCommand {
    MintTokens(TokenId, Amount),
    UnmintTokens(TokenId),
    LockTokenSupply(TokenId),
    FreezeToken(TokenId, IsTokenUnfreezable),
    UnfreezeToken(TokenId),
    ChangeTokenAuthority(TokenId, Destination),
}

/// One input of a transaction.
#[derive(Clone, Copy, Debug, PartialEq, Eq, Structural)]
pub enum TxInput {
    Utxo(UtxoOutPoint),
    Account(AccountNonce, AccountSpending),
    AccountCommand(AccountNonce, AccountCommand),
}

impl TxInput {
    /// An input spending the given output of the given source.
    pub fn from_utxo(source_id: OutPointSourceId, index: u32) -> (r: TxInput)
        ensures
            r == TxInput::Utxo(UtxoOutPoint { source_id, index }),
    {
        TxInput::Utxo(UtxoOutPoint { source_id, index })
    }
}

/// The witness attached to one input.
#[derive(Clone, Debug, PartialEq, Eq)]
pub enum InputWitness {
    NoSignature(Option<Vec<u8>>),
    Standard(u64),
}

/// A transaction: its identifier stands for its content hash.
#[derive(Clone, Debug, PartialEq, Eq)]
pub struct Transaction {
    pub id: u64,
    pub flags: u32,
    pub inputs: Vec<TxInput>,
    pub outputs: Vec<TxOutput>,
}

impl Transaction {
    pub fn new(id: u64, flags: u32, inputs: Vec<TxInput>, outputs: Vec<TxOutput>) -> (r:
        Transaction)
        ensures
            r == (Transaction { id, flags, inputs, outputs }),
    {
        Transaction { id, flags, inputs, outputs }
    }

    pub fn get_id(&self) -> (r: u64)
        ensures
            r == self.id,
    {
        self.id
    }

    pub fn inputs(&self) -> (r: &Vec<TxInput>)
        ensures
            r == &self.inputs,
    {
        &self.inputs
    }

    pub fn outputs(&self) -> (r: &Vec<TxOutput>)
        ensures
            r == &self.outputs,
    {
        &self.outputs
    }
}

/// A transaction together with one witness per input.
#[derive(Clone, Debug, PartialEq, Eq)]
pub struct SignedTransaction {
    pub transaction: Transaction,
    pub signatures: Vec<InputWitness>,
}

/// The one way constructing a signed transaction fails.
#[derive(Clone, Copy, Debug, PartialEq, Eq, Structural)]
pub struct InvalidWitnessCount;

impl SignedTransaction {
    pub open spec fn spec_transaction(self) -> Transaction {
        self.transaction
    }

    pub open spec fn spec_signatures(self) -> Seq<InputWitness> {
        self.signatures@
    }

    /// Pairs a transaction with its witnesses; rejected if and only if
    /// their count differs from the input count.
    pub fn new(transaction: Transaction, signatures: Vec<InputWitness>) -> (r: Result<
        SignedTransaction,
        InvalidWitnessCount,
    >)
        ensures
            match r {
                Ok(s) => signatures@.len() == transaction.inputs@.len()
                    && s.spec_transaction() == transaction && s.spec_signatures() == signatures@,
                Err(_) => signatures@.len() != transaction.inputs@.len(),
            },
    {
        if signatures.len() == transaction.inputs.len() {
            Ok(SignedTransaction { transaction, signatures })
        } else {
            Err(InvalidWitnessCount)
        }
    }

    pub fn transaction(&self) -> (r: &Transaction)
        ensures
            r == &self.transaction,
    {
        &self.transaction
    }

    pub fn inputs(&self) -> (r: &Vec<TxInput>)
        ensures
            r == &self.transaction.inputs,
    {
        &self.transaction.inputs
    }

    pub fn outputs(&self) -> (r: &Vec<TxOutput>)
        ensures
            r == &self.transaction.outputs,
    {
        &self.transaction.outputs
    }
}

/// The consensus data of a block header; its weight drives fork choice.
#[derive(Clone, Copy, Debug, PartialEq, Eq, Structural)]
pub enum ConsensusData {
    /// No consensus checked (regtest-style schedules).
    IgnoreConsensus,
    /// Proof of work with the given achieved work.
    PoW(u64),
    /// Proof of stake staked by the given pool.
    PoS(PoolId),
}

impl ConsensusData {
    /// The chain-trust a block with this consensus data contributes;
    /// strictly positive, so trust strictly increases along every chain.
    pub open spec fn spec_trust(self) -> u128 {
        match self {
            ConsensusData::IgnoreConsensus => 1,
            ConsensusData::PoW(work) => (1 + work as u128) as u128,
            ConsensusData::PoS(_) => 1,
        }
    }

    pub fn trust(self) -> (r: u128)
        ensures
            r == self.spec_trust(),
            r >= 1,
    {
        match self {
            ConsensusData::IgnoreConsensus => 1,
            ConsensusData::PoW(work) => 1 + work as u128,
            ConsensusData::PoS(_) => 1,
        }
    }
}

/// The reward part of a block body.
#[derive(Clone, Debug, PartialEq, Eq)]
pub struct BlockReward {
    pub outputs: Vec<TxOutput>,
}

impl BlockReward {
    pub fn new(outputs: Vec<TxOutput>) -> (r: BlockReward)
        ensures
            r.spec_outputs() == outputs@,
    {
        BlockReward { outputs }
    }

    pub open spec fn spec_outputs(self) -> Seq<TxOutput> {
        self.outputs@
    }

    pub fn outputs(&self) -> (r: &Vec<TxOutput>)
        ensures
            r@ == self.spec_outputs(),
    {
        &self.outputs
    }
}

/// A block: its identifier stands for its header hash.
#[derive(Clone, Debug, PartialEq, Eq)]
pub struct Block {
    pub id: BlockId,
    pub prev_block_hash: BlockId,
    pub timestamp: u64,
    pub consensus_data: ConsensusData,
    pub reward: BlockReward,
    pub transactions: Vec<SignedTransaction>,
}

impl Block {
    pub fn get_id(&self) -> (r: BlockId)
        ensures
            r == self.id,
    {
        self.id
    }

    pub fn prev_block_id(&self) -> (r: BlockId)
        ensures
            r == self.prev_block_hash,
    {
        self.prev_block_hash
    }

    pub fn block_reward(&self) -> (r: &BlockReward)
        ensures
            r == &self.reward,
    {
        &self.reward
    }

    pub fn transactions(&self) -> (r: &Vec<SignedTransaction>)
        ensures
            r == &self.transactions,
    {
        &self.transactions
    }
}

} // verus!
