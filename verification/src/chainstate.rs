//! The four coupled ledgers and the transaction connect/disconnect steps.
//!
//! Connecting a transaction applies its effects to the UTXO set, the
//! proof-of-stake accounting, and the tokens ledger, and records an undo
//! whose application is the exact inverse.  Every step names, for every
//! state, exactly when it is rejected.

use std::collections::BTreeMap;
use vstd::prelude::*;

use crate::amount::Amount;
use crate::chain::{
    AccountNonce, Destination, DelegationId, PoolId, StakePoolData, TokenId, TxOutput, UtxoOutPoint,
};
use crate::delta::{lemma_single_edit_undo, lemma_undo_log_unsnoc, undo_entry, undo_log, UndoEntry};
use crate::delta_amount::balances_wf;
use crate::tokens::TokensAccountingData;
use crate::tokens_ledger::{spec_undo_tokens_log, tokens_log_applicable, TokensLedgerUndo};

verus! {

broadcast use {vstd::std_specs::btree::group_btree_axioms, vstd::laws_cmp::group_laws_cmp};

/// The standing data of a delegation account.
#[derive(Clone, Copy, Debug, PartialEq, Eq, Structural)]
pub struct DelegationData {
    pub spend_destination: Destination,
    pub source_pool: PoolId,
}

/// Errors of connecting a transaction.
#[derive(Clone, Copy, Debug, PartialEq, Eq, Structural)]
pub enum ChainstateError {
    UtxoAlreadyExists(u128),
    MissingOutputOrSpent(UtxoOutPoint),
    PoolAlreadyExists(PoolId),
    PoolNotFound(PoolId),
    DelegationAlreadyExists(DelegationId),
    DelegationNotFound(DelegationId),
    NonceGap(DelegationId, u64, u64),
    NonceOverflow,
    BalanceUnderflow,
    BalanceOverflow,
    TokensError(crate::tokens_ledger::TokensError),
    ConstraintsError(crate::constraints::Error),
    BlockAlreadyProcessed(crate::chain::BlockId),
    ParentNotFound(crate::chain::BlockId),
    BlockIndexError(crate::chain_index::PropertyQueryError),
    BlockUndoMissing(crate::chain::BlockId),
    BlockDataMissing(crate::chain::BlockId),
    TooManyOutputs,
}

/// The in-memory state of the coupled ledgers.
#[derive(Debug)]
pub struct Ledgers {
    pub utxos: BTreeMap<u128, TxOutput>,
    pub pool_data: BTreeMap<u128, StakePoolData>,
    pub pool_balances: BTreeMap<u128, Amount>,
    pub delegation_data: BTreeMap<u128, DelegationData>,
    pub delegation_balances: BTreeMap<u128, Amount>,
    pub delegation_nonces: BTreeMap<u128, AccountNonce>,
    pub tokens: TokensAccountingData,
}

/// The abstract state of the ledgers: one map per ledger.
#[verifier::ext_equal]
pub ghost struct LedgersView {
    pub utxos: Map<u128, TxOutput>,
    pub pool_data: Map<u128, StakePoolData>,
    pub pool_balances: Map<u128, Amount>,
    pub delegation_data: Map<u128, DelegationData>,
    pub delegation_balances: Map<u128, Amount>,
    pub delegation_nonces: Map<u128, AccountNonce>,
    pub token_data: Map<u128, crate::tokens::TokenData>,
    pub token_supply: Map<u128, Amount>,
}

impl Ledgers {
    pub open spec fn view(self) -> LedgersView {
        LedgersView {
            utxos: self.utxos@,
            pool_data: self.pool_data@,
            pool_balances: self.pool_balances@,
            delegation_data: self.delegation_data@,
            delegation_balances: self.delegation_balances@,
            delegation_nonces: self.delegation_nonces@,
            token_data: self.tokens.token_data@,
            token_supply: self.tokens.circulating_supply@,
        }
    }

    /// The balance aggregates never store a zero.
    pub open spec fn wf(self) -> bool {
        &&& balances_wf(self.pool_balances@)
        &&& balances_wf(self.delegation_balances@)
        &&& balances_wf(self.tokens.circulating_supply@)
    }

    /// Empty ledgers.
    pub fn new() -> (r: Ledgers)
        ensures
            r.wf(),
            r.view().utxos == Map::<u128, TxOutput>::empty(),
            r.view().pool_data == Map::<u128, StakePoolData>::empty(),
            r.view().pool_balances == Map::<u128, Amount>::empty(),
            r.view().delegation_data == Map::<u128, DelegationData>::empty(),
            r.view().delegation_balances == Map::<u128, Amount>::empty(),
            r.view().delegation_nonces == Map::<u128, AccountNonce>::empty(),
            r.view().token_data == Map::<u128, crate::tokens::TokenData>::empty(),
            r.view().token_supply == Map::<u128, Amount>::empty(),
    {
        Ledgers {
            utxos: BTreeMap::new(),
            pool_data: BTreeMap::new(),
            pool_balances: BTreeMap::new(),
            delegation_data: BTreeMap::new(),
            delegation_balances: BTreeMap::new(),
            delegation_nonces: BTreeMap::new(),
            tokens: TokensAccountingData::new(),
        }
    }

    /// The next nonce a delegation account accepts: zero for a fresh one.
    pub open spec fn spec_next_nonce(nonces: Map<u128, AccountNonce>, key: u128) -> u64 {
        if nonces.contains_key(key) {
            nonces[key].0
        } else {
            0
        }
    }

    /// The stored balance of an aggregate key, absence as zero.
    pub open spec fn spec_balance(m: Map<u128, Amount>, key: u128) -> int {
        if m.contains_key(key) {
            m[key].atoms() as int
        } else {
            0
        }
    }

    /// Spends from a delegation account under a nonce.  Accepted exactly
    /// when the delegation exists, the nonce is exactly the next one the
    /// account expects and is not exhausted, and the balance covers the
    /// spend; the account's next nonce then moves up by exactly one.
    pub fn spend_delegation(
        &mut self,
        id: DelegationId,
        nonce: AccountNonce,
        amount: Amount,
        balance_log: &mut Vec<UndoEntry<Amount>>,
        nonce_log: &mut Vec<UndoEntry<AccountNonce>>,
    ) -> (r: Result<(), ChainstateError>)
        requires
            old(self).wf(),
        ensures
            final(self).wf(),
            final(self).utxos@ == old(self).utxos@,
            final(self).pool_data@ == old(self).pool_data@,
            final(self).pool_balances@ == old(self).pool_balances@,
            final(self).delegation_data@ == old(self).delegation_data@,
            final(self).tokens.token_data@ == old(self).tokens.token_data@,
            final(self).tokens.circulating_supply@ == old(self).tokens.circulating_supply@,
            balances_log_ok(old(balance_log)@) ==> balances_log_ok(final(balance_log)@),
            r is Ok <==> {
                &&& old(self).delegation_data@.contains_key(id.0 as u128)
                &&& nonce.0 == Self::spec_next_nonce(old(self).delegation_nonces@, id.0 as u128)
                &&& nonce.0 < u64::MAX
                &&& amount.atoms() <= Self::spec_balance(
                    old(self).delegation_balances@,
                    id.0 as u128,
                )
            },
            match r {
                Ok(_) => {
                    let key = id.0 as u128;
                    let rest = Self::spec_balance(old(self).delegation_balances@, key)
                        - amount.atoms();
                    &&& final(self).delegation_balances@ == (if rest == 0 {
                        old(self).delegation_balances@.remove(key)
                    } else {
                        old(self).delegation_balances@.insert(key, Amount { atoms: rest as u128 })
                    })
                    &&& final(self).delegation_nonces@ == old(self).delegation_nonces@.insert(
                        key,
                        AccountNonce((nonce.0 + 1) as u64),
                    )
                    &&& Self::spec_next_nonce(final(self).delegation_nonces@, key) == nonce.0 + 1
                    &&& final(balance_log)@ == old(balance_log)@.push(
                        (
                            key,
                            if old(self).delegation_balances@.contains_key(key) {
                                Some(old(self).delegation_balances@[key])
                            } else {
                                None
                            },
                        ),
                    )
                    &&& final(nonce_log)@ == old(nonce_log)@.push(
                        (
                            key,
                            if old(self).delegation_nonces@.contains_key(key) {
                                Some(old(self).delegation_nonces@[key])
                            } else {
                                None
                            },
                        ),
                    )
                    &&& undo_entry(final(self).delegation_balances@, final(balance_log)@.last()) == old(
                        self,
                    ).delegation_balances@
                    &&& undo_entry(final(self).delegation_nonces@, final(nonce_log)@.last()) == old(
                        self,
                    ).delegation_nonces@
                    &&& undo_log(final(self).delegation_balances@, final(balance_log)@)
                        == undo_log(old(self).delegation_balances@, old(balance_log)@)
                    &&& undo_log(final(self).delegation_nonces@, final(nonce_log)@) == undo_log(
                        old(self).delegation_nonces@,
                        old(nonce_log)@,
                    )
                },
                Err(e) => {
                    &&& final(self).delegation_balances@ == old(self).delegation_balances@
                    &&& final(self).delegation_nonces@ == old(self).delegation_nonces@
                    &&& final(balance_log)@ == old(balance_log)@
                    &&& final(nonce_log)@ == old(nonce_log)@
                    &&& (e matches ChainstateError::DelegationNotFound(_) || e
                        matches ChainstateError::NonceGap(_, _, _) || e
                        == ChainstateError::NonceOverflow || e
                        == ChainstateError::BalanceUnderflow)
                },
            },
    {
        let key = id.0 as u128;
        if !self.delegation_data.contains_key(&key) {
            return Err(ChainstateError::DelegationNotFound(id));
        }
        let expected: u64 = match self.delegation_nonces.get(&key) {
            Some(n) => n.0,
            None => 0,
        };
        if nonce.0 != expected {
            return Err(ChainstateError::NonceGap(id, expected, nonce.0));
        }
        if nonce.0 == u64::MAX {
            return Err(ChainstateError::NonceOverflow);
        }
        let balance: Amount = match self.delegation_balances.get(&key) {
            Some(b) => *b,
            None => Amount::zero(),
        };
        let rest = match balance.sub(amount) {
            Some(b) => b,
            None => {
                return Err(ChainstateError::BalanceUnderflow);
            },
        };
        let prior_balance: Option<Amount> = if rest.is_zero() {
            self.delegation_balances.remove(&key)
        } else {
            self.delegation_balances.insert(key, rest)
        };
        let prior_nonce = self.delegation_nonces.insert(key, AccountNonce(nonce.0 + 1));
        balance_log.push((key, prior_balance));
        nonce_log.push((key, prior_nonce));
        proof {
            lemma_single_edit_undo(
                old(self).delegation_balances@,
                self.delegation_balances@,
                key,
                prior_balance,
            );
            lemma_single_edit_undo(
                old(self).delegation_nonces@,
                self.delegation_nonces@,
                key,
                prior_nonce,
            );
            assert(balance_log@.drop_last() =~= old(balance_log)@);
            lemma_undo_log_unsnoc(self.delegation_balances@, balance_log@);
            assert(nonce_log@.drop_last() =~= old(nonce_log)@);
            lemma_undo_log_unsnoc(self.delegation_nonces@, nonce_log@);
        }
        Ok(())
    }

    /// Adds an amount to a balance aggregate; a zero addition is a no-op.
    /// Rejected exactly on overflow.
    pub fn increase_balance(
        m: &mut BTreeMap<u128, Amount>,
        key: u128,
        amount: Amount,
        log: &mut Vec<UndoEntry<Amount>>,
    ) -> (r: Result<(), ChainstateError>)
        requires
            balances_wf(old(m)@),
        ensures
            balances_wf(final(m)@),
            balances_log_ok(old(log)@) ==> balances_log_ok(final(log)@),
            r is Ok <==> Self::spec_balance(old(m)@, key) + amount.atoms() <= u128::MAX,
            match r {
                Ok(_) => {
                    let total = Self::spec_balance(old(m)@, key) + amount.atoms();
                    &&& final(m)@ == (if amount.atoms() == 0 {
                        old(m)@
                    } else {
                        old(m)@.insert(key, Amount { atoms: total as u128 })
                    })
                    &&& Self::spec_balance(final(m)@, key) == total
                    &&& final(log)@ == (if amount.atoms() == 0 {
                        old(log)@
                    } else {
                        old(log)@.push(
                            (
                                key,
                                if old(m)@.contains_key(key) {
                                    Some(old(m)@[key])
                                } else {
                                    None
                                },
                            ),
                        )
                    })
                    &&& undo_log(final(m)@, final(log)@) == undo_log(old(m)@, old(log)@)
                },
                Err(e) => final(m)@ == old(m)@ && final(log)@ == old(log)@ && e
                    == ChainstateError::BalanceOverflow,
            },
    {
        if amount.is_zero() {
            return Ok(());
        }
        let current: Amount = match m.get(&key) {
            Some(b) => *b,
            None => Amount::zero(),
        };
        let total = match current.add(amount) {
            Some(t) => t,
            None => {
                return Err(ChainstateError::BalanceOverflow);
            },
        };
        let ghost log0 = log@;
        let prior = m.insert(key, total);
        log.push((key, prior));
        proof {
            lemma_single_edit_undo(old(m)@, m@, key, prior);
            assert(log@.drop_last() =~= log0);
            lemma_undo_log_unsnoc(m@, log@);
        }
        Ok(())
    }

    /// Takes an amount away from a balance aggregate; a zero removal is a
    /// no-op.  Rejected exactly when the balance cannot cover it.
    pub fn decrease_balance(
        m: &mut BTreeMap<u128, Amount>,
        key: u128,
        amount: Amount,
        log: &mut Vec<UndoEntry<Amount>>,
    ) -> (r: Result<(), ChainstateError>)
        requires
            balances_wf(old(m)@),
        ensures
            balances_wf(final(m)@),
            balances_log_ok(old(log)@) ==> balances_log_ok(final(log)@),
            r is Ok <==> amount.atoms() <= Self::spec_balance(old(m)@, key),
            match r {
                Ok(_) => {
                    let rest = Self::spec_balance(old(m)@, key) - amount.atoms();
                    &&& final(m)@ == (if amount.atoms() == 0 {
                        old(m)@
                    } else if rest == 0 {
                        old(m)@.remove(key)
                    } else {
                        old(m)@.insert(key, Amount { atoms: rest as u128 })
                    })
                    &&& Self::spec_balance(final(m)@, key) == rest
                    &&& final(log)@ == (if amount.atoms() == 0 {
                        old(log)@
                    } else {
                        old(log)@.push(
                            (
                                key,
                                if old(m)@.contains_key(key) {
                                    Some(old(m)@[key])
                                } else {
                                    None
                                },
                            ),
                        )
                    })
                    &&& undo_log(final(m)@, final(log)@) == undo_log(old(m)@, old(log)@)
                },
                Err(e) => final(m)@ == old(m)@ && final(log)@ == old(log)@ && e
                    == ChainstateError::BalanceUnderflow,
            },
    {
        if amount.is_zero() {
            return Ok(());
        }
        let current: Amount = match m.get(&key) {
            Some(b) => *b,
            None => Amount::zero(),
        };
        let rest = match current.sub(amount) {
            Some(t) => t,
            None => {
                return Err(ChainstateError::BalanceUnderflow);
            },
        };
        let ghost log0 = log@;
        let prior: Option<Amount> = if rest.is_zero() {
            m.remove(&key)
        } else {
            m.insert(key, rest)
        };
        log.push((key, prior));
        proof {
            lemma_single_edit_undo(old(m)@, m@, key, prior);
            assert(log@.drop_last() =~= log0);
            lemma_undo_log_unsnoc(m@, log@);
        }
        Ok(())
    }

    /// Files a freshly created output.  Rejected exactly when the outpoint
    /// is already live.
    pub fn create_utxo(
        &mut self,
        key: u128,
        output: TxOutput,
        log: &mut Vec<UndoEntry<TxOutput>>,
    ) -> (r: Result<(), ChainstateError>)
        ensures
            final(self).pool_data@ == old(self).pool_data@,
            final(self).pool_balances@ == old(self).pool_balances@,
            final(self).delegation_data@ == old(self).delegation_data@,
            final(self).delegation_balances@ == old(self).delegation_balances@,
            final(self).delegation_nonces@ == old(self).delegation_nonces@,
            final(self).tokens.token_data@ == old(self).tokens.token_data@,
            final(self).tokens.circulating_supply@ == old(self).tokens.circulating_supply@,
            r is Ok <==> !old(self).utxos@.contains_key(key),
            match r {
                Ok(_) => {
                    &&& final(self).utxos@ == old(self).utxos@.insert(key, output)
                    &&& final(log)@ == old(log)@.push((key, None::<TxOutput>))
                    &&& undo_log(final(self).utxos@, final(log)@) == undo_log(
                        old(self).utxos@,
                        old(log)@,
                    )
                },
                Err(e) => final(self).utxos@ == old(self).utxos@ && final(log)@ == old(log)@
                    && e == ChainstateError::UtxoAlreadyExists(key),
            },
    {
        if self.utxos.contains_key(&key) {
            return Err(ChainstateError::UtxoAlreadyExists(key));
        }
        let ghost log0 = log@;
        self.utxos.insert(key, output);
        log.push((key, None));
        proof {
            lemma_single_edit_undo(old(self).utxos@, self.utxos@, key, None::<TxOutput>);
            assert(log@.drop_last() =~= log0);
            lemma_undo_log_unsnoc(self.utxos@, log@);
        }
        Ok(())
    }

    /// Registers a new stake pool with its pledge as its starting balance.
    /// Rejected exactly when the pool exists or the pledge overflows its
    /// (empty or stale) balance slot.
    pub fn create_pool(
        &mut self,
        pool_id: PoolId,
        data: StakePoolData,
        data_log: &mut Vec<UndoEntry<StakePoolData>>,
        balance_log: &mut Vec<UndoEntry<Amount>>,
    ) -> (r: Result<(), ChainstateError>)
        requires
            balances_wf(old(self).pool_balances@),
        ensures
            balances_wf(final(self).pool_balances@),
            final(self).utxos@ == old(self).utxos@,
            final(self).delegation_data@ == old(self).delegation_data@,
            final(self).delegation_balances@ == old(self).delegation_balances@,
            final(self).delegation_nonces@ == old(self).delegation_nonces@,
            final(self).tokens.token_data@ == old(self).tokens.token_data@,
            final(self).tokens.circulating_supply@ == old(self).tokens.circulating_supply@,
            balances_log_ok(old(balance_log)@) ==> balances_log_ok(final(balance_log)@),
            r is Ok <==> (!old(self).pool_data@.contains_key(pool_id.0 as u128) && Self::spec_balance(
                old(self).pool_balances@,
                pool_id.0 as u128,
            ) + data.pledge.atoms() <= u128::MAX),
            match r {
                Ok(_) => {
                    &&& final(self).pool_data@ == old(self).pool_data@.insert(
                        pool_id.0 as u128,
                        data,
                    )
                    &&& final(data_log)@ == old(data_log)@.push(
                        (pool_id.0 as u128, None::<StakePoolData>),
                    )
                    &&& undo_log(final(self).pool_data@, final(data_log)@) == undo_log(
                        old(self).pool_data@,
                        old(data_log)@,
                    )
                    &&& undo_log(final(self).pool_balances@, final(balance_log)@) == undo_log(
                        old(self).pool_balances@,
                        old(balance_log)@,
                    )
                    &&& Self::spec_balance(final(self).pool_balances@, pool_id.0 as u128)
                        == Self::spec_balance(old(self).pool_balances@, pool_id.0 as u128)
                        + data.pledge.atoms()
                    &&& forall|k2: u128|
                        k2 != pool_id.0 as u128 ==> Self::spec_balance(
                            final(self).pool_balances@,
                            k2,
                        ) == Self::spec_balance(old(self).pool_balances@, k2)
                },
                Err(e) => {
                    &&& final(self).pool_data@ == old(self).pool_data@
                    &&& final(self).pool_balances@ == old(self).pool_balances@
                    &&& final(data_log)@ == old(data_log)@
                    &&& final(balance_log)@ == old(balance_log)@
                    &&& (e == ChainstateError::PoolAlreadyExists(pool_id) || e
                        == ChainstateError::BalanceOverflow)
                    &&& (e == ChainstateError::PoolAlreadyExists(pool_id)
                        <==> old(self).pool_data@.contains_key(pool_id.0 as u128))
                },
            },
    {
        let key = pool_id.0 as u128;
        if self.pool_data.contains_key(&key) {
            return Err(ChainstateError::PoolAlreadyExists(pool_id));
        }
        let pledge = data.pledge();
        let ghost dlog0 = data_log@;
        match Self::increase_balance(&mut self.pool_balances, key, pledge, balance_log) {
            Ok(_) => {},
            Err(e) => {
                return Err(e);
            },
        }
        self.pool_data.insert(key, data);
        data_log.push((key, None));
        proof {
            lemma_single_edit_undo(old(self).pool_data@, self.pool_data@, key, None::<StakePoolData>);
            assert(data_log@.drop_last() =~= dlog0);
            lemma_undo_log_unsnoc(self.pool_data@, data_log@);
        }
        Ok(())
    }

    /// Removes a pool and empties its balance: the decommission.  Rejected
    /// exactly when the pool is unknown.  The pool's whole balance leaves
    /// the ledger; the conservation check has already routed it to the
    /// transaction's timelocked outputs.
    pub fn decommission_pool(
        &mut self,
        pool_id: PoolId,
        data_log: &mut Vec<UndoEntry<StakePoolData>>,
        balance_log: &mut Vec<UndoEntry<Amount>>,
    ) -> (r: Result<(), ChainstateError>)
        requires
            balances_wf(old(self).pool_balances@),
        ensures
            balances_wf(final(self).pool_balances@),
            final(self).utxos@ == old(self).utxos@,
            final(self).delegation_data@ == old(self).delegation_data@,
            final(self).delegation_balances@ == old(self).delegation_balances@,
            final(self).delegation_nonces@ == old(self).delegation_nonces@,
            final(self).tokens.token_data@ == old(self).tokens.token_data@,
            final(self).tokens.circulating_supply@ == old(self).tokens.circulating_supply@,
            balances_log_ok(old(balance_log)@) ==> balances_log_ok(final(balance_log)@),
            r is Ok <==> old(self).pool_data@.contains_key(pool_id.0 as u128),
            match r {
                Ok(_) => {
                    &&& final(self).pool_data@ == old(self).pool_data@.remove(pool_id.0 as u128)
                    &&& final(self).pool_balances@ == old(self).pool_balances@.remove(
                        pool_id.0 as u128,
                    )
                    &&& Self::spec_balance(final(self).pool_balances@, pool_id.0 as u128) == 0
                    &&& undo_log(final(self).pool_data@, final(data_log)@) == undo_log(
                        old(self).pool_data@,
                        old(data_log)@,
                    )
                    &&& undo_log(final(self).pool_balances@, final(balance_log)@) == undo_log(
                        old(self).pool_balances@,
                        old(balance_log)@,
                    )
                },
                Err(e) => {
                    &&& final(self).pool_data@ == old(self).pool_data@
                    &&& final(self).pool_balances@ == old(self).pool_balances@
                    &&& final(data_log)@ == old(data_log)@
                    &&& final(balance_log)@ == old(balance_log)@
                    &&& e == ChainstateError::PoolNotFound(pool_id)
                },
            },
    {
        let key = pool_id.0 as u128;
        let ghost dlog0 = data_log@;
        let ghost blog0 = balance_log@;
        let prior_data = match self.pool_data.remove(&key) {
            Some(d) => d,
            None => {
                return Err(ChainstateError::PoolNotFound(pool_id));
            },
        };
        data_log.push((key, Some(prior_data)));
        let prior_balance = self.pool_balances.remove(&key);
        balance_log.push((key, prior_balance));
        proof {
            lemma_single_edit_undo(old(self).pool_data@, self.pool_data@, key, Some(prior_data));
            assert(data_log@.drop_last() =~= dlog0);
            lemma_undo_log_unsnoc(self.pool_data@, data_log@);
            lemma_single_edit_undo(
                old(self).pool_balances@,
                self.pool_balances@,
                key,
                prior_balance,
            );
            assert(balance_log@.drop_last() =~= blog0);
            lemma_undo_log_unsnoc(self.pool_balances@, balance_log@);
            assert(self.pool_data@ =~= old(self).pool_data@.remove(key));
            assert(self.pool_balances@ =~= old(self).pool_balances@.remove(key));
        }
        Ok(())
    }

    /// Registers a new delegation to an existing pool.  Rejected exactly
    /// when the delegation exists or the pool does not.
    pub fn create_delegation(
        &mut self,
        id: DelegationId,
        data: DelegationData,
        log: &mut Vec<UndoEntry<DelegationData>>,
    ) -> (r: Result<(), ChainstateError>)
        ensures
            final(self).utxos@ == old(self).utxos@,
            final(self).pool_data@ == old(self).pool_data@,
            final(self).pool_balances@ == old(self).pool_balances@,
            final(self).delegation_balances@ == old(self).delegation_balances@,
            final(self).delegation_nonces@ == old(self).delegation_nonces@,
            final(self).tokens.token_data@ == old(self).tokens.token_data@,
            final(self).tokens.circulating_supply@ == old(self).tokens.circulating_supply@,
            r is Ok <==> (!old(self).delegation_data@.contains_key(id.0 as u128) && old(
                self,
            ).pool_data@.contains_key(data.source_pool.0 as u128)),
            match r {
                Ok(_) => {
                    &&& final(self).delegation_data@ == old(self).delegation_data@.insert(
                        id.0 as u128,
                        data,
                    )
                    &&& undo_log(final(self).delegation_data@, final(log)@) == undo_log(
                        old(self).delegation_data@,
                        old(log)@,
                    )
                },
                Err(e) => final(self).delegation_data@ == old(self).delegation_data@
                    && final(log)@ == old(log)@ && (e
                    == ChainstateError::DelegationAlreadyExists(id) || e
                    == ChainstateError::PoolNotFound(data.source_pool)),
            },
    {
        let key = id.0 as u128;
        if self.delegation_data.contains_key(&key) {
            return Err(ChainstateError::DelegationAlreadyExists(id));
        }
        if !self.pool_data.contains_key(&(data.source_pool.0 as u128)) {
            return Err(ChainstateError::PoolNotFound(data.source_pool));
        }
        let ghost log0 = log@;
        self.delegation_data.insert(key, data);
        log.push((key, None));
        proof {
            lemma_single_edit_undo(
                old(self).delegation_data@,
                self.delegation_data@,
                key,
                None::<DelegationData>,
            );
            assert(log@.drop_last() =~= log0);
            lemma_undo_log_unsnoc(self.delegation_data@, log@);
        }
        Ok(())
    }
}

/// Restoring one spent input: a consumed output goes back under its
/// outpoint; inputs that consumed no output restore nothing.
pub open spec fn reinsert_step(
    m: Map<u128, TxOutput>,
    input: crate::chain::TxInput,
    out: Option<TxOutput>,
) -> Map<u128, TxOutput> {
    match (input, out) {
        (crate::chain::TxInput::Utxo(op), Some(o)) => m.insert(op.spec_key(), o),
        _ => m,
    }
}

/// Restoring all spent inputs, last spend first.
pub open spec fn spec_reinsert_spent(
    m: Map<u128, TxOutput>,
    inputs: Seq<crate::chain::TxInput>,
    outs: Seq<Option<TxOutput>>,
) -> Map<u128, TxOutput>
    decreases inputs.len(),
{
    if inputs.len() == 0 || inputs.len() != outs.len() {
        m
    } else {
        reinsert_step(
            spec_reinsert_spent(m, inputs.drop_first(), outs.drop_first()),
            inputs[0],
            outs[0],
        )
    }
}

/// Peeling the last spend first is the same as peeling it last.
proof fn lemma_reinsert_unsnoc(
    m: Map<u128, TxOutput>,
    inputs: Seq<crate::chain::TxInput>,
    outs: Seq<Option<TxOutput>>,
)
    requires
        inputs.len() > 0,
        inputs.len() == outs.len(),
    ensures
        spec_reinsert_spent(m, inputs, outs) == spec_reinsert_spent(
            reinsert_step(m, inputs.last(), outs.last()),
            inputs.drop_last(),
            outs.drop_last(),
        ),
    decreases inputs.len(),
{
    if inputs.len() == 1 {
        assert(inputs.drop_first() =~= Seq::<crate::chain::TxInput>::empty());
        assert(outs.drop_first() =~= Seq::<Option<TxOutput>>::empty());
        assert(inputs.drop_last() =~= Seq::<crate::chain::TxInput>::empty());
        assert(outs.drop_last() =~= Seq::<Option<TxOutput>>::empty());
        assert(spec_reinsert_spent(m, inputs, outs) == reinsert_step(
            spec_reinsert_spent(m, inputs.drop_first(), outs.drop_first()),
            inputs[0],
            outs[0],
        ));
        assert(spec_reinsert_spent(m, inputs.drop_first(), outs.drop_first()) == m);
        assert(spec_reinsert_spent(
            reinsert_step(m, inputs.last(), outs.last()),
            inputs.drop_last(),
            outs.drop_last(),
        ) == reinsert_step(m, inputs.last(), outs.last()));
        assert(inputs.last() == inputs[0]);
        assert(outs.last() == outs[0]);
    } else {
        lemma_reinsert_unsnoc(m, inputs.drop_first(), outs.drop_first());
        assert(inputs.drop_first().last() == inputs.last());
        assert(outs.drop_first().last() == outs.last());
        assert(inputs.drop_first().drop_last() =~= inputs.drop_last().drop_first());
        assert(outs.drop_first().drop_last() =~= outs.drop_last().drop_first());
        assert(inputs.drop_last()[0] == inputs[0]);
        assert(outs.drop_last()[0] == outs[0]);
        assert(spec_reinsert_spent(m, inputs, outs) == reinsert_step(
            spec_reinsert_spent(m, inputs.drop_first(), outs.drop_first()),
            inputs[0],
            outs[0],
        ));
        assert(spec_reinsert_spent(
            reinsert_step(m, inputs.last(), outs.last()),
            inputs.drop_last(),
            outs.drop_last(),
        ) == reinsert_step(
            spec_reinsert_spent(
                reinsert_step(m, inputs.last(), outs.last()),
                inputs.drop_last().drop_first(),
                outs.drop_last().drop_first(),
            ),
            inputs.drop_last()[0],
            outs.drop_last()[0],
        ));
    }
}

/// Puts the consumed outputs of the first `upto` inputs back, last first.
fn reinsert_spent(
    utxos: &mut BTreeMap<u128, TxOutput>,
    inputs: &Vec<crate::chain::TxInput>,
    spent: Vec<Option<TxOutput>>,
    upto: usize,
)
    requires
        upto <= inputs@.len(),
        spent@.len() == upto,
    ensures
        final(utxos)@ == spec_reinsert_spent(old(utxos)@, inputs@.take(upto as int), spent@),
{
    let ghost m0 = utxos@;
    let ghost spent0 = spent@;
    let mut rest = spent;
    while rest.len() > 0
        invariant
            rest@.len() <= upto,
            upto <= inputs@.len(),
            spent0.len() == upto,
            rest@ == spent0.take(rest@.len() as int),
            spec_reinsert_spent(utxos@, inputs@.take(rest@.len() as int), rest@)
                == spec_reinsert_spent(m0, inputs@.take(upto as int), spent0),
        decreases rest@.len(),
    {
        let ghost i = rest@.len() - 1;
        let ghost before = utxos@;
        let out = rest.pop().unwrap();
        let input = inputs[rest.len()];
        match (input, out) {
            (crate::chain::TxInput::Utxo(op), Some(o)) => {
                utxos.insert(op.key(), o);
            },
            _ => {},
        }
        proof {
            assert(rest@ =~= spent0.take(i));
            assert(inputs@.take(i + 1).last() == inputs@[i]);
            assert(spent0.take(i + 1).last() == spent0[i]);
            assert(inputs@.take(i + 1).drop_last() =~= inputs@.take(i));
            assert(spent0.take(i + 1).drop_last() =~= spent0.take(i));
            lemma_reinsert_unsnoc(before, inputs@.take(i + 1), spent0.take(i + 1));
            assert(utxos@ == reinsert_step(before, inputs@[i], spent0[i]));
        }
    }
    proof {
        assert(spent0.take(0) =~= Seq::<Option<TxOutput>>::empty());
        assert(inputs@.take(0) =~= Seq::<crate::chain::TxInput>::empty());
    }
}

/// Whether every recorded prior balance in an undo log is non-zero, as
/// logs recorded against well-formed balance maps are.
pub open spec fn balances_log_ok(s: Seq<UndoEntry<Amount>>) -> bool {
    forall|i: int|
        0 <= i < s.len() ==> (#[trigger] s[i].1 matches Some(v) ==> v.atoms() != 0)
}

/// Restores a balance map from an undo log, keeping it well-formed: a
/// record of a zero balance (which no well-formed connect produces) is
/// skipped rather than stored.
fn undo_balances_log(m: &mut BTreeMap<u128, Amount>, undo: Vec<UndoEntry<Amount>>)
    requires
        balances_wf(old(m)@),
    ensures
        balances_wf(final(m)@),
        balances_log_ok(undo@) ==> final(m)@ == undo_log(old(m)@, undo@),
{
    let ghost m0 = m@;
    let ghost log0 = undo@;
    let ghost log_ok = balances_log_ok(log0);
    let mut log = undo;
    while log.len() > 0
        invariant
            log@.len() <= log0.len(),
            log@ == log0.take(log@.len() as int),
            log_ok == balances_log_ok(log0),
            balances_wf(m@),
            log_ok ==> undo_log(m@, log@) == undo_log(m0, log0),
        decreases log@.len(),
    {
        let ghost before = m@;
        let ghost i = log@.len() - 1;
        let (key, prior) = log.pop().unwrap();
        match prior {
            Some(v) => {
                if !v.is_zero() {
                    m.insert(key, v);
                }
            },
            None => {
                m.remove(&key);
            },
        }
        proof {
            assert(log0.take(i + 1).last() == log0[i]);
            assert(log0.take(i + 1).drop_last() =~= log0.take(i));
            assert(log@ =~= log0.take(i));
            if log_ok {
                assert(log0[i].1 matches Some(v) ==> v.atoms() != 0);
                crate::delta::lemma_undo_log_unsnoc(before, log0.take(i + 1));
                assert(m@ == undo_entry(before, log0[i]));
            }
        }
    }
    proof {
        assert(log0.take(0) =~= Seq::<UndoEntry<Amount>>::empty());
    }
}

/// Everything that undoes one connected transaction.
#[derive(Clone, Debug)]
pub struct TxUndo {
    pub inputs: Vec<crate::chain::TxInput>,
    pub spent_utxos: Vec<Option<TxOutput>>,
    pub created_utxo_log: Vec<UndoEntry<TxOutput>>,
    pub pool_data_log: Vec<UndoEntry<StakePoolData>>,
    pub pool_balance_log: Vec<UndoEntry<Amount>>,
    pub delegation_data_log: Vec<UndoEntry<DelegationData>>,
    pub delegation_balance_log: Vec<UndoEntry<Amount>>,
    pub nonce_log: Vec<UndoEntry<AccountNonce>>,
    pub token_log: Vec<TokensLedgerUndo>,
    pub fee: Amount,
}

/// The state disconnecting one transaction restores.
pub open spec fn spec_disconnect_tx(v: LedgersView, u: TxUndo) -> LedgersView {
    LedgersView {
        utxos: spec_reinsert_spent(
            undo_log(v.utxos, u.created_utxo_log@),
            u.inputs@,
            u.spent_utxos@,
        ),
        pool_data: undo_log(v.pool_data, u.pool_data_log@),
        pool_balances: undo_log(v.pool_balances, u.pool_balance_log@),
        delegation_data: undo_log(v.delegation_data, u.delegation_data_log@),
        delegation_balances: undo_log(v.delegation_balances, u.delegation_balance_log@),
        delegation_nonces: undo_log(v.delegation_nonces, u.nonce_log@),
        token_data: spec_undo_tokens_log(v.token_data, v.token_supply, u.token_log@).0,
        token_supply: spec_undo_tokens_log(v.token_data, v.token_supply, u.token_log@).1,
    }
}

/// Whether a transaction undo fits the state it is to be applied to.
pub open spec fn tx_undo_applicable(v: LedgersView, u: TxUndo) -> bool {
    &&& tokens_log_applicable(v.token_data, v.token_supply, u.token_log@)
    &&& u.inputs@.len() == u.spent_utxos@.len()
    &&& balances_log_ok(u.pool_balance_log@)
    &&& balances_log_ok(u.delegation_balance_log@)
}

impl Ledgers {
    /// Disconnects one transaction: the exact inverse of connecting it,
    /// for every undo that fits the state, which connecting guarantees of
    /// the undo it recorded.
    pub fn disconnect_transaction(&mut self, undo: TxUndo)
        requires
            old(self).wf(),
        ensures
            final(self).wf(),
            tx_undo_applicable(old(self).view(), undo) ==> final(self).view()
                == spec_disconnect_tx(old(self).view(), undo),
    {
        if undo.inputs.len() != undo.spent_utxos.len() {
            return ;
        }
        let TxUndo {
            inputs,
            spent_utxos,
            created_utxo_log,
            pool_data_log,
            pool_balance_log,
            delegation_data_log,
            delegation_balance_log,
            nonce_log,
            token_log,
            fee,
        } = undo;
        self.tokens.undo_log(token_log);
        crate::delta::undo_data_log(&mut self.delegation_nonces, nonce_log);
        undo_balances_log(&mut self.delegation_balances, delegation_balance_log);
        crate::delta::undo_data_log(&mut self.delegation_data, delegation_data_log);
        undo_balances_log(&mut self.pool_balances, pool_balance_log);
        crate::delta::undo_data_log(&mut self.pool_data, pool_data_log);
        crate::delta::undo_data_log(&mut self.utxos, created_utxo_log);
        let upto = inputs.len();
        proof {
            assert(inputs@.take(upto as int) =~= inputs@);
        }
        reinsert_spent(&mut self.utxos, &inputs, spent_utxos, upto);
    }
}

/// The first `upto` inputs, copied.
fn copy_inputs(v: &Vec<crate::chain::TxInput>, upto: usize) -> (r: Vec<crate::chain::TxInput>)
    requires
        upto <= v@.len(),
    ensures
        r@ == v@.take(upto as int),
{
    let mut r: Vec<crate::chain::TxInput> = Vec::new();
    let mut i: usize = 0;
    while i < upto
        invariant
            i <= upto,
            upto <= v@.len(),
            r@ == v@.take(i as int),
        decreases upto - i,
    {
        r.push(v[i]);
        i = i + 1;
        proof {
            assert(r@ =~= v@.take(i as int));
        }
    }
    r
}

/// The coins of one output when it burns the given token.
pub open spec fn burn_contrib(o: TxOutput, t: crate::chain::TokenId) -> int {
    match o {
        TxOutput::Burn(crate::chain::OutputValue::TokenV1(t2, a)) => if t2 == t {
            a.atoms() as int
        } else {
            0
        },
        _ => 0,
    }
}

/// How many tokens of one kind a list of outputs burns in all.
pub open spec fn spec_burned_total(outs: Seq<TxOutput>, t: crate::chain::TokenId) -> int
    decreases outs.len(),
{
    if outs.len() == 0 {
        0
    } else {
        spec_burned_total(outs.drop_last(), t) + burn_contrib(outs.last(), t)
    }
}

/// The tokens of one kind a transaction burns: the amount an unmint
/// command takes out of circulation.  `None` exactly on overflow.
fn burned_total(outputs: &Vec<TxOutput>, t: crate::chain::TokenId) -> (r: Option<Amount>)
    ensures
        match r {
            Some(a) => a.atoms() == spec_burned_total(outputs@, t),
            None => spec_burned_total(outputs@, t) > u128::MAX,
        },
{
    let n = outputs.len();
    let mut total = Amount::zero();
    let mut i: usize = 0;
    while i < n
        invariant
            i <= n,
            n == outputs@.len(),
            total.atoms() == spec_burned_total(outputs@.take(i as int), t),
        decreases n - i,
    {
        let ghost gi = i as int;
        proof {
            assert(outputs@.take(gi + 1).drop_last() =~= outputs@.take(gi));
            assert(outputs@.take(gi + 1).last() == outputs@[gi]);
        }
        let burned_here: Amount = match &outputs[i] {
            TxOutput::Burn(crate::chain::OutputValue::TokenV1(t2, a)) => {
                if t2.0 == t.0 {
                    *a
                } else {
                    Amount::zero()
                }
            },
            _ => Amount::zero(),
        };
        total = match total.add(burned_here) {
            Some(v) => v,
            None => {
                proof {
                    lemma_burned_mono(outputs@, t, gi + 1);
                }
                return None;
            },
        };
        i = i + 1;
    }
    proof {
        assert(outputs@.take(n as int) =~= outputs@);
    }
    Some(total)
}

/// A prefix of the burn total never exceeds the whole.
proof fn lemma_burned_mono(outs: Seq<TxOutput>, t: crate::chain::TokenId, i: int)
    requires
        0 <= i <= outs.len(),
    ensures
        spec_burned_total(outs.take(i), t) <= spec_burned_total(outs, t),
    decreases outs.len() - i,
{
    if i == outs.len() {
        assert(outs.take(i) =~= outs);
    } else {
        assert(outs.take(i + 1).drop_last() =~= outs.take(i));
        assert(outs.take(i + 1).last() == outs[i]);
        lemma_burned_mono(outs, t, i + 1);
    }
}

/// The output a single input consumes, read from a UTXO ledger.
pub open spec fn spec_input_utxo(
    utxos: Map<u128, TxOutput>,
    input: crate::chain::TxInput,
) -> Option<TxOutput> {
    match input {
        crate::chain::TxInput::Utxo(op) => if utxos.contains_key(op.spec_key()) {
            Some(utxos[op.spec_key()])
        } else {
            None
        },
        _ => None,
    }
}

/// The outputs a list of inputs consumes, read from a UTXO ledger.
pub open spec fn spec_inputs_utxos(
    utxos: Map<u128, TxOutput>,
    inputs: Seq<crate::chain::TxInput>,
) -> Seq<Option<TxOutput>> {
    Seq::new(inputs.len(), |i: int| spec_input_utxo(utxos, inputs[i]))
}

/// The UTXO key of a transaction's output at an index.
pub open spec fn spec_tx_outpoint_key(txid: u64, idx: int) -> u128 {
    crate::chain::UtxoOutPoint {
        source_id: crate::chain::OutPointSourceId::Transaction(txid),
        index: idx as u32,
    }.spec_key()
}

/// The UTXO key of a block reward's output at an index.
pub open spec fn spec_reward_outpoint_key(block_id: crate::chain::BlockId, idx: int) -> u128 {
    crate::chain::UtxoOutPoint {
        source_id: crate::chain::OutPointSourceId::BlockReward(block_id),
        index: idx as u32,
    }.spec_key()
}

/// Whether an output kind takes a place in the UTXO set.
pub open spec fn spec_creates_utxo(o: TxOutput) -> bool {
    match o {
        TxOutput::Transfer(_, _) => true,
        TxOutput::LockThenTransfer(_, _, _) => true,
        TxOutput::IssueNft(_, _) => true,
        TxOutput::ProduceBlockFromStake(_, _) => true,
        TxOutput::CreateStakePool(_, _) => true,
        _ => false,
    }
}

/// Whether one of the first inputs spends the outpoint with this key.
pub open spec fn spec_key_spent(inputs: Seq<crate::chain::TxInput>, k: u128) -> bool {
    exists|p: int|
        0 <= p < inputs.len() && (match #[trigger] inputs[p] {
            crate::chain::TxInput::Utxo(op) => op.spec_key() == k,
            _ => false,
        })
}

/// One more input spends its own outpoint and nothing else.
proof fn lemma_key_spent_snoc(inputs: Seq<crate::chain::TxInput>, i: int, k: u128)
    requires
        0 <= i < inputs.len(),
    ensures
        spec_key_spent(inputs.take(i + 1), k) <==> (spec_key_spent(inputs.take(i), k) || (
        match inputs[i] {
            crate::chain::TxInput::Utxo(op) => op.spec_key() == k,
            _ => false,
        })),
{
    assert(inputs.take(i + 1)[i] == inputs[i]);
    if spec_key_spent(inputs.take(i + 1), k) {
        let p = choose|p: int|
            0 <= p < inputs.take(i + 1).len() && (match #[trigger] inputs.take(i + 1)[p] {
                crate::chain::TxInput::Utxo(op) => op.spec_key() == k,
                _ => false,
            });
        if p < i {
            assert(inputs.take(i)[p] == inputs.take(i + 1)[p]);
            assert(spec_key_spent(inputs.take(i), k));
        }
    }
    if spec_key_spent(inputs.take(i), k) {
        let p = choose|p: int|
            0 <= p < inputs.take(i).len() && (match #[trigger] inputs.take(i)[p] {
                crate::chain::TxInput::Utxo(op) => op.spec_key() == k,
                _ => false,
            });
        assert(inputs.take(i + 1)[p] == inputs.take(i)[p]);
        assert(spec_key_spent(inputs.take(i + 1), k));
    }
}

/// A plain spend: every input consumes a live transfer or timelocked
/// transfer output, and no two inputs name the same outpoint.
pub open spec fn spec_plain_inputs(
    utxos: Map<u128, TxOutput>,
    inputs: Seq<crate::chain::TxInput>,
) -> bool {
    &&& forall|p: int|
        0 <= p < inputs.len() ==> (match #[trigger] inputs[p] {
            crate::chain::TxInput::Utxo(op) => utxos.contains_key(op.spec_key()) && (
            match utxos[op.spec_key()] {
                TxOutput::Transfer(_, _) | TxOutput::LockThenTransfer(_, _, _) => true,
                _ => false,
            }),
            _ => false,
        })
    &&& forall|p: int, p2: int|
        0 <= p < p2 < inputs.len() ==> (match (#[trigger] inputs[p], #[trigger] inputs[p2]) {
            (crate::chain::TxInput::Utxo(a), crate::chain::TxInput::Utxo(b)) => a.spec_key()
                != b.spec_key(),
            _ => true,
        })
}

/// Outputs that touch no pool, delegation or token ledger.
pub open spec fn spec_plain_outputs(outputs: Seq<TxOutput>) -> bool {
    forall|q: int|
        0 <= q < outputs.len() ==> (match #[trigger] outputs[q] {
            TxOutput::Transfer(_, _) | TxOutput::LockThenTransfer(_, _, _) | TxOutput::Burn(_) => true,
            _ => false,
        })
}

impl Ledgers {
    /// Connects one transaction: spends its inputs, checks conservation of
    /// value through the constrained-value accumulator, applies account and
    /// token effects, files its outputs, and hands back the undo whose
    /// application restores the ledgers exactly.  On any rejection the
    /// ledgers come back unchanged.  The exact accept and reject conditions
    /// of each effect are the contracts of the step functions above and of
    /// the accumulator; delegation spends are the nonce-checked accounts,
    /// token commands are authorised by reaching the ledger here.
    pub fn connect_transaction(
        &mut self,
        chain_config: &crate::config::ChainConfig,
        block_height: crate::chain::BlockHeight,
        tx: crate::chain::Transaction,
    ) -> (r: Result<TxUndo, ChainstateError>)
        requires
            old(self).wf(),
        ensures
            final(self).wf(),
            // Success owed: a plain spend with no outputs cannot fail; the
            // whole residual becomes the fee.
            (spec_plain_inputs(old(self).utxos@, tx.inputs@) && tx.outputs@.len() == 0
                && crate::constraints::from_inputs_ok(
                *chain_config,
                old(self).pool_balances@,
                old(self).delegation_balances@,
                chain_config.spec_accounts_balances_version(block_height),
                tx.inputs@,
                spec_inputs_utxos(old(self).utxos@, tx.inputs@),
            )) ==> r is Ok,
            // A plain transfer to fresh outpoints is decided by the
            // conservation check alone.
            (spec_plain_inputs(old(self).utxos@, tx.inputs@) && spec_plain_outputs(tx.outputs@)
                && tx.outputs@.len() <= u32::MAX && (forall|q: int|
                0 <= q < tx.outputs@.len() ==> !old(self).utxos@.contains_key(
                    #[trigger] spec_tx_outpoint_key(tx.id, q),
                ))) ==> (r is Ok || r matches Err(ChainstateError::ConstraintsError(_))),
            match r {
                Ok(u) => {
                    &&& tx_undo_applicable(final(self).view(), u)
                    &&& spec_disconnect_tx(final(self).view(), u) == old(self).view()
                    &&& u.inputs@ == tx.inputs@
                    &&& u.spent_utxos@ == spec_inputs_utxos(old(self).utxos@, tx.inputs@)
                    &&& forall|i: int|
                        0 <= i < tx.inputs@.len() ==> (match #[trigger] tx.inputs@[i] {
                            crate::chain::TxInput::Utxo(op) => old(self).utxos@.contains_key(
                                op.spec_key(),
                            ),
                            _ => true,
                        })
                    &&& forall|q: int|
                        0 <= q < tx.outputs@.len() && spec_creates_utxo(#[trigger] tx.outputs@[q])
                            ==> final(self).utxos@.contains_key(spec_tx_outpoint_key(tx.id, q))
                            && final(self).utxos@[spec_tx_outpoint_key(tx.id, q)]
                            == tx.outputs@[q]
                },
                Err(e) => {
                    &&& final(self).view() == old(self).view()
                    &&& (match e {
                        ChainstateError::BlockAlreadyProcessed(_) => false,
                        ChainstateError::ParentNotFound(_) => false,
                        ChainstateError::BlockIndexError(_) => false,
                        ChainstateError::BlockUndoMissing(_) => false,
                        ChainstateError::BlockDataMissing(_) => false,
                        _ => true,
                    })
                },
            },
    {
        let ghost orig = self.view();
        if tx.outputs.len() > u32::MAX as usize {
            return Err(ChainstateError::TooManyOutputs);
        }
        let n_inputs = tx.inputs.len();
        let mut spent: Vec<Option<TxOutput>> = Vec::new();
        let mut clog: Vec<UndoEntry<TxOutput>> = Vec::new();
        let mut pdlog: Vec<UndoEntry<StakePoolData>> = Vec::new();
        let mut pblog: Vec<UndoEntry<Amount>> = Vec::new();
        let mut ddlog: Vec<UndoEntry<DelegationData>> = Vec::new();
        let mut dblog: Vec<UndoEntry<Amount>> = Vec::new();
        let mut nlog: Vec<UndoEntry<AccountNonce>> = Vec::new();
        let mut tlog: Vec<TokensLedgerUndo> = Vec::new();

        // Spend the consumed outputs, collecting them for the checks below.
        let mut i: usize = 0;
        while i < n_inputs
            invariant
                i <= n_inputs,
                n_inputs == tx.inputs@.len(),
                spent@.len() == i,
                self.wf(),
                old(self).wf(),
                orig == old(self).view(),
                spec_reinsert_spent(self.utxos@, tx.inputs@.take(i as int), spent@) == orig.utxos,
                forall|k: u128|
                    #[trigger] self.utxos@.contains_key(k) ==> orig.utxos.contains_key(k)
                        && self.utxos@[k] == orig.utxos[k],
                forall|k: u128|
                    #[trigger] self.utxos@.contains_key(k) <==> (orig.utxos.contains_key(k)
                        && !spec_key_spent(tx.inputs@.take(i as int), k)),
                forall|p: int|
                    0 <= p < i ==> #[trigger] spent@[p] == spec_input_utxo(
                        orig.utxos,
                        tx.inputs@[p],
                    ),
                forall|p: int|
                    0 <= p < i && tx.inputs@[p] is Utxo ==> (#[trigger] spent@[p]) is Some,
                self.pool_data@ == orig.pool_data,
                self.pool_balances@ == orig.pool_balances,
                self.delegation_data@ == orig.delegation_data,
                self.delegation_balances@ == orig.delegation_balances,
                self.delegation_nonces@ == orig.delegation_nonces,
                self.tokens.token_data@ == orig.token_data,
                self.tokens.circulating_supply@ == orig.token_supply,
            decreases n_inputs - i,
        {
            let ghost gi = i as int;
            let ghost u_before = self.utxos@;
            let ghost spent_before = spent@;
            let entry: Option<TxOutput> = match tx.inputs[i] {
                crate::chain::TxInput::Utxo(outpoint) => {
                    match self.utxos.remove(&outpoint.key()) {
                        Some(out) => Some(out),
                        None => {
                            proof {
                                assert(self.utxos@ =~= u_before);
                                // A plain spend never reaches this exit:
                                // the outpoint is live and not yet spent.
                                if spec_plain_inputs(orig.utxos, tx.inputs@) {
                                    assert(orig.utxos.contains_key(outpoint.spec_key()));
                                    assert(!spec_key_spent(
                                        tx.inputs@.take(gi),
                                        outpoint.spec_key(),
                                    )) by {
                                        if spec_key_spent(
                                            tx.inputs@.take(gi),
                                            outpoint.spec_key(),
                                        ) {
                                            let p = choose|p: int|
                                                0 <= p < tx.inputs@.take(gi).len() && (
                                                match #[trigger] tx.inputs@.take(gi)[p] {
                                                    crate::chain::TxInput::Utxo(op) => op.spec_key()
                                                        == outpoint.spec_key(),
                                                    _ => false,
                                                });
                                            assert(tx.inputs@.take(gi)[p] == tx.inputs@[p]);
                                        }
                                    }
                                    assert(u_before.contains_key(outpoint.spec_key()));
                                    assert(false);
                                }
                            }
                            reinsert_spent(&mut self.utxos, &tx.inputs, spent, i);
                            proof {
                                assert(self.view() =~= orig);
                            }
                            return Err(ChainstateError::MissingOutputOrSpent(outpoint));
                        },
                    }
                },
                _ => None,
            };
            spent.push(entry);
            i = i + 1;
            proof {
                assert forall|k: u128|
                    #[trigger] self.utxos@.contains_key(k) <==> (orig.utxos.contains_key(k)
                        && !spec_key_spent(tx.inputs@.take(gi + 1), k)) by {
                    lemma_key_spent_snoc(tx.inputs@, gi, k);
                }
                match tx.inputs@[gi] {
                    crate::chain::TxInput::Utxo(op) => {
                        assert(u_before.contains_key(op.spec_key()));
                        assert(entry == spec_input_utxo(orig.utxos, tx.inputs@[gi]));
                    },
                    _ => {
                        assert(entry == spec_input_utxo(orig.utxos, tx.inputs@[gi]));
                    },
                }
                assert(tx.inputs@.take(gi + 1).last() == tx.inputs@[gi]);
                assert(spent@.last() == entry);
                assert(tx.inputs@.take(gi + 1).drop_last() =~= tx.inputs@.take(gi));
                assert(spent@.drop_last() =~= spent_before);
                lemma_reinsert_unsnoc(self.utxos@, tx.inputs@.take(gi + 1), spent@);
                match tx.inputs@[gi] {
                    crate::chain::TxInput::Utxo(outpoint) => {
                        assert(reinsert_step(self.utxos@, tx.inputs@[gi], entry) =~= u_before);
                    },
                    _ => {
                        assert(reinsert_step(self.utxos@, tx.inputs@[gi], entry) == u_before);
                    },
                }
            }
        }
        proof {
            assert(tx.inputs@.take(n_inputs as int) =~= tx.inputs@);
        }

        // Conservation of value: inputs must cover outputs; the residual
        // liquid coins are the fee.
        let inputs_acc = crate::constraints::ConstrainedValueAccumulator::from_inputs(
            chain_config,
            block_height,
            &self.pool_balances,
            &self.delegation_balances,
            &tx.inputs,
            &spent,
        );
        proof {
            assert(spent@ =~= spec_inputs_utxos(orig.utxos, tx.inputs@));
        }
        let inputs_acc = match inputs_acc {
            Ok(a) => a,
            Err(e) => {
                reinsert_spent(&mut self.utxos, &tx.inputs, spent, n_inputs);
                proof {
                    assert(self.view() =~= orig);
                }
                return Err(ChainstateError::ConstraintsError(e));
            },
        };
        let outputs_acc = crate::constraints::ConstrainedValueAccumulator::from_outputs(
            chain_config,
            block_height,
            &tx.outputs,
        );
        let outputs_acc = match outputs_acc {
            Ok(a) => a,
            Err(e) => {
                proof {
                    // An empty output list never overflows an accumulator.
                    if tx.outputs@.len() == 0 {
                        assert forall|k: u128| #[trigger] crate::constraints::outputs_unconstrained_sum(
                            *chain_config,
                            tx.outputs@,
                            k,
                        ) <= u128::MAX by {
                            assert(crate::constraints::outputs_unconstrained_sum(
                                *chain_config,
                                tx.outputs@,
                                k,
                            ) == 0);
                        }
                        assert forall|b: u128| #[trigger] crate::constraints::outputs_timelocked_sum(
                            tx.outputs@,
                            b,
                        ) <= u128::MAX by {
                            assert(crate::constraints::outputs_timelocked_sum(tx.outputs@, b)
                                == 0);
                        }
                        assert(crate::constraints::from_outputs_ok(*chain_config, tx.outputs@));
                        assert(false);
                    }
                }
                reinsert_spent(&mut self.utxos, &tx.inputs, spent, n_inputs);
                proof {
                    assert(self.view() =~= orig);
                }
                return Err(ChainstateError::ConstraintsError(e));
            },
        };
        let fee_acc = match inputs_acc.satisfy_with(outputs_acc) {
            Ok(f) => f,
            Err(e) => {
                proof {
                    // With no outputs nothing is demanded, so the
                    // satisfaction cannot fail.
                    if tx.outputs@.len() == 0 {
                        crate::constraints::lemma_satisfy_empty_demand(inputs_acc, outputs_acc);
                        assert(false);
                    }
                }
                reinsert_spent(&mut self.utxos, &tx.inputs, spent, n_inputs);
                proof {
                    assert(self.view() =~= orig);
                }
                return Err(ChainstateError::ConstraintsError(e));
            },
        };
        let fee = fee_acc.coin_fee();

        // Account and token effects of the inputs.
        let mut i: usize = 0;
        while i < n_inputs
            invariant
                i <= n_inputs,
                n_inputs == tx.inputs@.len(),
                spent@.len() == n_inputs,
                self.wf(),
                old(self).wf(),
                orig == old(self).view(),
                forall|k: u128|
                    #[trigger] self.utxos@.contains_key(k) ==> orig.utxos.contains_key(k),
                spec_reinsert_spent(
                    undo_log(self.utxos@, clog@),
                    tx.inputs@,
                    spent@,
                ) == orig.utxos,
                forall|p: int|
                    0 <= p < n_inputs ==> #[trigger] spent@[p] == spec_input_utxo(
                        orig.utxos,
                        tx.inputs@[p],
                    ),
                forall|p: int|
                    0 <= p < n_inputs && tx.inputs@[p] is Utxo ==> (#[trigger] spent@[p]) is Some,
                clog@.len() == 0,
                undo_log(self.pool_data@, pdlog@) == orig.pool_data,
                undo_log(self.pool_balances@, pblog@) == orig.pool_balances,
                undo_log(self.delegation_data@, ddlog@) == orig.delegation_data,
                undo_log(self.delegation_balances@, dblog@) == orig.delegation_balances,
                undo_log(self.delegation_nonces@, nlog@) == orig.delegation_nonces,
                balances_log_ok(pblog@),
                balances_log_ok(dblog@),
                tokens_log_applicable(self.tokens.token_data@, self.tokens.circulating_supply@, tlog@),
                spec_undo_tokens_log(
                    self.tokens.token_data@,
                    self.tokens.circulating_supply@,
                    tlog@,
                ) == (orig.token_data, orig.token_supply),
            decreases n_inputs - i,
        {
            let ghost gi2 = i as int;
            let step: Result<(), ChainstateError> = match tx.inputs[i] {
                crate::chain::TxInput::Utxo(_) => {
                    let pool: Option<PoolId> = match &spent[i] {
                        Some(TxOutput::CreateStakePool(p, _)) => Some(*p),
                        Some(TxOutput::ProduceBlockFromStake(_, p)) => Some(*p),
                        _ => None,
                    };
                    match pool {
                        Some(p) => self.decommission_pool(p, &mut pdlog, &mut pblog),
                        None => Ok(()),
                    }
                },
                crate::chain::TxInput::Account(nonce, spending) => {
                    let crate::chain::AccountSpending::DelegationBalance(id, amount) = spending;
                    match self.spend_delegation(id, nonce, amount, &mut dblog, &mut nlog) {
                        Ok(_) => {
                            let source_pool: Option<PoolId> = match self.delegation_data.get(
                                &(id.0 as u128),
                            ) {
                                Some(d) => Some(d.source_pool),
                                None => None,
                            };
                            match source_pool {
                                Some(p) => Self::decrease_balance(
                                    &mut self.pool_balances,
                                    p.0 as u128,
                                    amount,
                                    &mut pblog,
                                ),
                                None => Ok(()),
                            }
                        },
                        Err(e) => Err(e),
                    }
                },
                crate::chain::TxInput::AccountCommand(_, command) => {
                    let op: Result<TokensLedgerUndo, crate::tokens_ledger::TokensError> =
                        match command {
                        crate::chain::AccountCommand::MintTokens(t, a) => self.tokens.mint_tokens(
                            t,
                            a,
                        ),
                        crate::chain::AccountCommand::UnmintTokens(t) => {
                            match burned_total(&tx.outputs, t) {
                                Some(burned) => self.tokens.unmint_tokens(t, burned),
                                None => Err(crate::tokens_ledger::TokensError::AmountOverflow),
                            }
                        },
                        crate::chain::AccountCommand::LockTokenSupply(t) => self
                            .tokens
                            .lock_circulating_supply(t),
                        crate::chain::AccountCommand::FreezeToken(t, unfreezable) => self
                            .tokens
                            .freeze_token(t, unfreezable),
                        crate::chain::AccountCommand::UnfreezeToken(t) => self
                            .tokens
                            .unfreeze_token(t),
                        crate::chain::AccountCommand::ChangeTokenAuthority(t, dest) => self
                            .tokens
                            .change_token_authority(t, dest),
                    };
                    match op {
                        Ok(u) => {
                            let ghost tlog_before = tlog@;
                            tlog.push(u);
                            proof {
                                assert(tlog@.last() == u);
                                assert(tlog@.drop_last() =~= tlog_before);
                            }
                            Ok(())
                        },
                        Err(e) => Err(ChainstateError::TokensError(e)),
                    }
                },
            };
            if let Err(e) = step {
                proof {
                    // A plain spend touches no pool, account or token: this
                    // exit refutes it.
                    if spec_plain_inputs(orig.utxos, tx.inputs@) {
                        match tx.inputs@[gi2] {
                            crate::chain::TxInput::Utxo(op) => {
                                assert(spent@[gi2] == spec_input_utxo(
                                    orig.utxos,
                                    tx.inputs@[gi2],
                                ));
                                assert(orig.utxos.contains_key(op.spec_key()));
                                assert(false);
                            },
                            _ => {
                                assert(false);
                            },
                        }
                    }
                }
                let undo = TxUndo {
                    inputs: copy_inputs(&tx.inputs, n_inputs),
                    spent_utxos: spent,
                    created_utxo_log: clog,
                    pool_data_log: pdlog,
                    pool_balance_log: pblog,
                    delegation_data_log: ddlog,
                    delegation_balance_log: dblog,
                    nonce_log: nlog,
                    token_log: tlog,
                    fee: Amount::zero(),
                };
                proof {
                    assert(undo.inputs@ =~= tx.inputs@);
                }
                self.disconnect_transaction(undo);
                proof {
                    assert(self.view().utxos == orig.utxos);
                    assert(self.view().pool_data == orig.pool_data);
                    assert(self.view().pool_balances == orig.pool_balances);
                    assert(self.view().delegation_data == orig.delegation_data);
                    assert(self.view().delegation_balances == orig.delegation_balances);
                    assert(self.view().delegation_nonces == orig.delegation_nonces);
                    assert(self.view().token_data == orig.token_data);
                    assert(self.view().token_supply == orig.token_supply);
                    assert(self.view() =~= orig);
                    assert(self.pool_balances@ == old(self).pool_balances@);
                    assert(self.delegation_balances@ == old(self).delegation_balances@);
                    assert(self.tokens.circulating_supply@ == old(self).tokens.circulating_supply@);
                    assert(old(self).wf());
                    assert(balances_wf(old(self).pool_balances@));
                    assert(balances_wf(self.pool_balances@));
                    assert(balances_wf(self.delegation_balances@));
                    assert(balances_wf(self.tokens.circulating_supply@));
                    assert(self.wf());
                }
                return Err(e);
            }
            i = i + 1;
        }

        // File the outputs.
        let mut outs = tx.outputs;
        let ghost all_outs = outs@;
        let mut idx: u32 = 0;
        while outs.len() > 0
            invariant
                outs@.len() + idx as int <= u32::MAX + 1,
                idx as int + outs@.len() == all_outs.len(),
                all_outs == tx.outputs@,
                all_outs.len() <= u32::MAX,
                outs@ == all_outs.skip(idx as int),
                forall|q: int|
                    0 <= q < idx as int && spec_creates_utxo(#[trigger] all_outs[q])
                        ==> self.utxos@.contains_key(spec_tx_outpoint_key(tx.id, q))
                        && self.utxos@[spec_tx_outpoint_key(tx.id, q)] == all_outs[q],
                forall|k: u128|
                    #[trigger] self.utxos@.contains_key(k) ==> (orig.utxos.contains_key(k)
                        || exists|q: int|
                        0 <= q < idx as int && k == #[trigger] spec_tx_outpoint_key(tx.id, q)),
                self.wf(),
                old(self).wf(),
                orig == old(self).view(),
                spent@.len() == n_inputs,
                n_inputs == tx.inputs@.len(),
                spec_reinsert_spent(
                    undo_log(self.utxos@, clog@),
                    tx.inputs@,
                    spent@,
                ) == orig.utxos,
                forall|p: int|
                    0 <= p < n_inputs ==> #[trigger] spent@[p] == spec_input_utxo(
                        orig.utxos,
                        tx.inputs@[p],
                    ),
                forall|p: int|
                    0 <= p < n_inputs && tx.inputs@[p] is Utxo ==> (#[trigger] spent@[p]) is Some,
                undo_log(self.pool_data@, pdlog@) == orig.pool_data,
                undo_log(self.pool_balances@, pblog@) == orig.pool_balances,
                undo_log(self.delegation_data@, ddlog@) == orig.delegation_data,
                undo_log(self.delegation_balances@, dblog@) == orig.delegation_balances,
                undo_log(self.delegation_nonces@, nlog@) == orig.delegation_nonces,
                balances_log_ok(pblog@),
                balances_log_ok(dblog@),
                tokens_log_applicable(self.tokens.token_data@, self.tokens.circulating_supply@, tlog@),
                spec_undo_tokens_log(
                    self.tokens.token_data@,
                    self.tokens.circulating_supply@,
                    tlog@,
                ) == (orig.token_data, orig.token_supply),
            decreases outs@.len(),
        {
            let output = outs.remove(0);
            let ghost gout = output;
            let ghost gidx = idx as int;
            proof {
                assert(all_outs.skip(gidx)[0] == all_outs[gidx]);
                assert(gout == all_outs[gidx]);
            }
            let key = crate::chain::UtxoOutPoint::new(
                crate::chain::OutPointSourceId::Transaction(tx.id),
                idx,
            ).key();
            let ghost u3_before = self.utxos@;
            proof {
                assert(key == spec_tx_outpoint_key(tx.id, gidx));
            }
            let step: Result<(), ChainstateError> = match &output {
                TxOutput::Transfer(_, _) | TxOutput::LockThenTransfer(_, _, _)
                    | TxOutput::IssueNft(_, _) | TxOutput::ProduceBlockFromStake(_, _) => self
                    .create_utxo(key, output, &mut clog),
                TxOutput::CreateStakePool(p, data) => {
                    let p = *p;
                    let data = *data;
                    match self.create_utxo(key, output, &mut clog) {
                        Ok(_) => self.create_pool(p, data, &mut pdlog, &mut pblog),
                        Err(e) => Err(e),
                    }
                },
                TxOutput::CreateDelegationId(dest, pool) => self.create_delegation(
                    DelegationId(tx.id),
                    DelegationData { spend_destination: *dest, source_pool: *pool },
                    &mut ddlog,
                ),
                TxOutput::DelegateStaking(amount, id) => {
                    let amount = *amount;
                    let id = *id;
                    let source_pool: Option<PoolId> = match self.delegation_data.get(
                        &(id.0 as u128),
                    ) {
                        Some(d) => Some(d.source_pool),
                        None => None,
                    };
                    match source_pool {
                        Some(p) => {
                            match Self::increase_balance(
                                &mut self.delegation_balances,
                                id.0 as u128,
                                amount,
                                &mut dblog,
                            ) {
                                Ok(_) => Self::increase_balance(
                                    &mut self.pool_balances,
                                    p.0 as u128,
                                    amount,
                                    &mut pblog,
                                ),
                                Err(e) => Err(e),
                            }
                        },
                        None => Err(ChainstateError::DelegationNotFound(id)),
                    }
                },
                TxOutput::IssueFungibleToken(_) => {
                    let issuance = match output {
                        TxOutput::IssueFungibleToken(iss) => iss,
                        _ => {
                            proof {
                                assert(false);
                            }
                            return Err(ChainstateError::BalanceOverflow);
                        },
                    };
                    let data = crate::tokens::FungibleTokenData::from_issuance(issuance);
                    match self.tokens.issue_token(
                        TokenId(tx.id),
                        crate::tokens::TokenData::FungibleToken(data),
                    ) {
                        Ok(u) => {
                            let ghost tlog_before = tlog@;
                            tlog.push(u);
                            proof {
                                assert(tlog@.last() == u);
                                assert(tlog@.drop_last() =~= tlog_before);
                            }
                            Ok(())
                        },
                        Err(e) => Err(ChainstateError::TokensError(e)),
                    }
                },
                TxOutput::Burn(_) | TxOutput::DataDeposit(_) => Ok(()),
            };
            if let Err(e) = step {
                proof {
                    // Plain outputs to fresh outpoints never fail to file.
                    if spec_plain_outputs(tx.outputs@) && (forall|q: int|
                        0 <= q < tx.outputs@.len() ==> !orig.utxos.contains_key(
                            #[trigger] spec_tx_outpoint_key(tx.id, q),
                        )) {
                        match all_outs[gidx] {
                            TxOutput::Transfer(_, _) | TxOutput::LockThenTransfer(_, _, _) => {
                                assert(!u3_before.contains_key(key)) by {
                                    if u3_before.contains_key(key) {
                                        assert(!orig.utxos.contains_key(
                                            spec_tx_outpoint_key(tx.id, gidx),
                                        ));
                                        let q = choose|q: int|
                                            0 <= q < gidx && key
                                                == #[trigger] spec_tx_outpoint_key(tx.id, q);
                                        assert(spec_tx_outpoint_key(tx.id, q)
                                            != spec_tx_outpoint_key(tx.id, gidx));
                                    }
                                }
                                assert(false);
                            },
                            TxOutput::Burn(_) => {
                                assert(false);
                            },
                            _ => {
                                assert(false);
                            },
                        }
                    }
                }
                let undo = TxUndo {
                    inputs: copy_inputs(&tx.inputs, n_inputs),
                    spent_utxos: spent,
                    created_utxo_log: clog,
                    pool_data_log: pdlog,
                    pool_balance_log: pblog,
                    delegation_data_log: ddlog,
                    delegation_balance_log: dblog,
                    nonce_log: nlog,
                    token_log: tlog,
                    fee: Amount::zero(),
                };
                proof {
                    assert(undo.inputs@ =~= tx.inputs@);
                }
                self.disconnect_transaction(undo);
                proof {
                    assert(self.view().utxos == orig.utxos);
                    assert(self.view().pool_data == orig.pool_data);
                    assert(self.view().pool_balances == orig.pool_balances);
                    assert(self.view().delegation_data == orig.delegation_data);
                    assert(self.view().delegation_balances == orig.delegation_balances);
                    assert(self.view().delegation_nonces == orig.delegation_nonces);
                    assert(self.view().token_data == orig.token_data);
                    assert(self.view().token_supply == orig.token_supply);
                    assert(self.view() =~= orig);
                    assert(self.pool_balances@ == old(self).pool_balances@);
                    assert(self.delegation_balances@ == old(self).delegation_balances@);
                    assert(self.tokens.circulating_supply@ == old(self).tokens.circulating_supply@);
                    assert(old(self).wf());
                    assert(balances_wf(old(self).pool_balances@));
                    assert(balances_wf(self.pool_balances@));
                    assert(balances_wf(self.delegation_balances@));
                    assert(balances_wf(self.tokens.circulating_supply@));
                    assert(self.wf());
                }
                return Err(e);
            }
            proof {
                assert(outs@ =~= all_outs.skip(gidx + 1));
                assert forall|q: int|
                    0 <= q <= gidx && spec_creates_utxo(#[trigger] all_outs[q]) implies self
                    .utxos@
                    .contains_key(spec_tx_outpoint_key(tx.id, q)) && self.utxos@[
                spec_tx_outpoint_key(tx.id, q)] == all_outs[q] by {
                    if q < gidx {
                        assert(spec_tx_outpoint_key(tx.id, q) != spec_tx_outpoint_key(
                            tx.id,
                            gidx,
                        ));
                    }
                }
                assert forall|k: u128|
                    #[trigger] self.utxos@.contains_key(k) implies (orig.utxos.contains_key(k)
                        || exists|q: int|
                        0 <= q < gidx + 1 && k == #[trigger] spec_tx_outpoint_key(
                            tx.id,
                            q,
                        )) by {
                    if !u3_before.contains_key(k) {
                        assert(k == spec_tx_outpoint_key(tx.id, gidx));
                    }
                }
            }
            if idx < u32::MAX {
                idx = idx + 1;
            } else {
                proof {
                    assert(outs@.len() == 0);
                }
            }
        }

        let undo = TxUndo {
            inputs: copy_inputs(&tx.inputs, n_inputs),
            spent_utxos: spent,
            created_utxo_log: clog,
            pool_data_log: pdlog,
            pool_balance_log: pblog,
            delegation_data_log: ddlog,
            delegation_balance_log: dblog,
            nonce_log: nlog,
            token_log: tlog,
            fee,
        };
        proof {
            assert(undo.inputs@ =~= tx.inputs@);
            assert(spec_disconnect_tx(self.view(), undo) =~= orig);
            assert(undo.spent_utxos@ =~= spec_inputs_utxos(orig.utxos, tx.inputs@));
            assert forall|p: int|
                0 <= p < tx.inputs@.len() implies (match #[trigger] tx.inputs@[p] {
                crate::chain::TxInput::Utxo(op) => orig.utxos.contains_key(op.spec_key()),
                _ => true,
            }) by {
                match tx.inputs@[p] {
                    crate::chain::TxInput::Utxo(op) => {
                        assert(undo.spent_utxos@[p] is Some);
                        assert(undo.spent_utxos@[p] == spec_input_utxo(
                            orig.utxos,
                            tx.inputs@[p],
                        ));
                    },
                    _ => {},
                }
            }
        }
        Ok(undo)
    }
}

/// Everything that undoes one connected block: the per-transaction undos
/// in connect order, and the reward outputs' undo log.
#[derive(Clone, Debug)]
pub struct BlockUndo {
    pub tx_undos: Vec<TxUndo>,
    pub reward_log: Vec<UndoEntry<TxOutput>>,
}

/// The state disconnecting a list of transactions restores, last first.
pub open spec fn spec_disconnect_txs(v: LedgersView, us: Seq<TxUndo>) -> LedgersView
    decreases us.len(),
{
    if us.len() == 0 {
        v
    } else {
        spec_disconnect_txs(spec_disconnect_tx(v, us.last()), us.drop_last())
    }
}

/// Whether a list of transaction undos fits the state, each fitting the
/// state the ones after it restore.
pub open spec fn txs_undo_applicable(v: LedgersView, us: Seq<TxUndo>) -> bool
    decreases us.len(),
{
    if us.len() == 0 {
        true
    } else {
        tx_undo_applicable(v, us.last()) && txs_undo_applicable(
            spec_disconnect_tx(v, us.last()),
            us.drop_last(),
        )
    }
}

/// The state disconnecting one block restores: the reward outputs leave
/// first, then the transactions, last first.
pub open spec fn spec_disconnect_block(v: LedgersView, u: BlockUndo) -> LedgersView {
    spec_disconnect_txs(
        LedgersView { utxos: undo_log(v.utxos, u.reward_log@), ..v },
        u.tx_undos@,
    )
}

/// Whether a block undo fits the state.
pub open spec fn block_undo_applicable(v: LedgersView, u: BlockUndo) -> bool {
    txs_undo_applicable(LedgersView { utxos: undo_log(v.utxos, u.reward_log@), ..v }, u.tx_undos@)
}

impl Ledgers {
    /// Disconnects one block: the exact inverse of connecting it, for
    /// every undo that fits the state.
    pub fn disconnect_block(&mut self, undo: BlockUndo)
        requires
            old(self).wf(),
        ensures
            final(self).wf(),
            block_undo_applicable(old(self).view(), undo) ==> final(self).view()
                == spec_disconnect_block(old(self).view(), undo),
    {
        let BlockUndo { tx_undos, reward_log } = undo;
        crate::delta::undo_data_log(&mut self.utxos, reward_log);
        let ghost mid = self.view();
        let ghost fits = txs_undo_applicable(mid, tx_undos@);
        let ghost us0 = tx_undos@;
        let mut rest = tx_undos;
        while rest.len() > 0
            invariant
                rest@.len() <= us0.len(),
                rest@ == us0.take(rest@.len() as int),
                self.wf(),
                fits == txs_undo_applicable(mid, us0),
                fits ==> txs_undo_applicable(self.view(), rest@),
                fits ==> spec_disconnect_txs(self.view(), rest@) == spec_disconnect_txs(mid, us0),
            decreases rest@.len(),
        {
            let ghost i = rest@.len() - 1;
            let u = rest.pop().unwrap();
            proof {
                assert(us0.take(i + 1).last() == us0[i]);
                assert(us0.take(i + 1).drop_last() =~= us0.take(i));
                assert(rest@ =~= us0.take(i));
            }
            self.disconnect_transaction(u);
        }
        proof {
            assert(us0.take(0) =~= Seq::<TxUndo>::empty());
            if block_undo_applicable(old(self).view(), undo) {
                assert(mid =~= (LedgersView { utxos: undo_log(old(self).view().utxos, undo.reward_log@), ..old(self).view() }));
            }
        }
    }

    /// Connects one block: its transactions in their declared order, then
    /// the conservation check of the reward against the collected fees and
    /// the subsidy, then the reward outputs.  On any rejection the ledgers
    /// come back unchanged; on success the returned undo restores them
    /// exactly.
    pub fn connect_block(
        &mut self,
        chain_config: &crate::config::ChainConfig,
        block_height: crate::chain::BlockHeight,
        block_id: crate::chain::BlockId,
        transactions: Vec<crate::chain::SignedTransaction>,
        reward: crate::chain::BlockReward,
        subsidy: Amount,
    ) -> (r: Result<BlockUndo, ChainstateError>)
        requires
            old(self).wf(),
        ensures
            final(self).wf(),
            // Success owed: a block with no transactions and no reward
            // outputs always connects.
            (transactions@.len() == 0 && reward.spec_outputs().len() == 0) ==> r is Ok,
            match r {
                Ok(u) => {
                    &&& block_undo_applicable(final(self).view(), u)
                    &&& spec_disconnect_block(final(self).view(), u) == old(self).view()
                    &&& u.tx_undos@.len() == transactions@.len()
                    &&& forall|t: int|
                        0 <= t < transactions@.len() ==> (#[trigger] u.tx_undos@[t]).inputs@
                            == transactions@[t].transaction.inputs@
                    &&& u.reward_log@.len() == reward.spec_outputs().len()
                    &&& forall|q: int|
                        0 <= q < reward.spec_outputs().len() ==> final(self).utxos@.contains_key(
                            #[trigger] spec_reward_outpoint_key(block_id, q),
                        ) && final(self).utxos@[spec_reward_outpoint_key(block_id, q)]
                            == reward.spec_outputs()[q]
                },
                Err(e) => {
                    &&& final(self).view() == old(self).view()
                    &&& (match e {
                        ChainstateError::BlockAlreadyProcessed(_) => false,
                        ChainstateError::ParentNotFound(_) => false,
                        ChainstateError::BlockIndexError(_) => false,
                        ChainstateError::BlockUndoMissing(_) => false,
                        ChainstateError::BlockDataMissing(_) => false,
                        _ => true,
                    })
                },
            },
    {
        let ghost orig = self.view();
        let ghost all_txs = transactions@;
        let mut undos: Vec<TxUndo> = Vec::new();
        let mut txs = transactions;
        let mut total_fee = Amount::zero();
        while txs.len() > 0
            invariant
                self.wf(),
                old(self).wf(),
                orig == old(self).view(),
                txs_undo_applicable(self.view(), undos@),
                spec_disconnect_txs(self.view(), undos@) == orig,
                undos@.len() + txs@.len() == all_txs.len(),
                txs@ == all_txs.skip(undos@.len() as int),
                forall|t: int|
                    0 <= t < undos@.len() ==> (#[trigger] undos@[t]).inputs@
                        == all_txs[t].transaction.inputs@,
                all_txs.len() == 0 ==> total_fee.atoms() == 0,
                all_txs == transactions@,
            decreases txs@.len(),
        {
            let ghost gt = undos@.len() as int;
            proof {
                assert(all_txs.skip(gt)[0] == all_txs[gt]);
            }
            let signed = txs.remove(0);
            let ghost gsigned = signed;
            let ghost undos_before = undos@;
            let ghost view_before = self.view();
            let step = self.connect_transaction(
                chain_config,
                block_height,
                signed.transaction,
            );
            match step {
                Ok(u) => {
                    let fee = u.fee;
                    undos.push(u);
                    proof {
                        assert(undos@.last() == u);
                        assert(undos@.drop_last() =~= undos_before);
                        assert(txs@ =~= all_txs.skip(undos@.len() as int));
                        assert(u.inputs@ == gsigned.transaction.inputs@);
                    }
                    total_fee = match total_fee.add(fee) {
                        Some(f) => f,
                        None => {
                            self.rollback_transactions(undos);
                            proof {
                                assert(self.view() =~= orig);
                            }
                            return Err(ChainstateError::BalanceOverflow);
                        },
                    };
                },
                Err(e) => {
                    self.rollback_transactions(undos);
                    proof {
                        assert(self.view() =~= orig);
                    }
                    return Err(e);
                },
            }
        }

        // The reward may draw the collected fees plus the subsidy.
        let reward_acc = crate::constraints::ConstrainedValueAccumulator::from_block_reward(
            crate::amount::Fee(total_fee),
            crate::amount::Subsidy(subsidy),
        );
        let reward_acc = match reward_acc {
            Some(a) => a,
            None => {
                proof {
                    // With no fees collected the subsidy alone always fits.
                    if all_txs.len() == 0 {
                        assert(total_fee.atoms() + subsidy.atoms() <= u128::MAX);
                        assert(false);
                    }
                }
                self.rollback_transactions(undos);
                proof {
                    assert(self.view() =~= orig);
                }
                return Err(ChainstateError::BalanceOverflow);
            },
        };
        let reward_outputs_acc = crate::constraints::ConstrainedValueAccumulator::from_outputs(
            chain_config,
            block_height,
            &reward.outputs,
        );
        let reward_outputs_acc = match reward_outputs_acc {
            Ok(a) => a,
            Err(e) => {
                proof {
                    // An empty reward never overflows an accumulator.
                    if reward.spec_outputs().len() == 0 {
                        assert forall|k: u128| #[trigger] crate::constraints::outputs_unconstrained_sum(
                            *chain_config,
                            reward.outputs@,
                            k,
                        ) <= u128::MAX by {
                            assert(crate::constraints::outputs_unconstrained_sum(
                                *chain_config,
                                reward.outputs@,
                                k,
                            ) == 0);
                        }
                        assert forall|b: u128| #[trigger] crate::constraints::outputs_timelocked_sum(
                            reward.outputs@,
                            b,
                        ) <= u128::MAX by {
                            assert(crate::constraints::outputs_timelocked_sum(reward.outputs@, b)
                                == 0);
                        }
                        assert(crate::constraints::from_outputs_ok(
                            *chain_config,
                            reward.outputs@,
                        ));
                        assert(false);
                    }
                }
                self.rollback_transactions(undos);
                proof {
                    assert(self.view() =~= orig);
                }
                return Err(ChainstateError::ConstraintsError(e));
            },
        };
        match reward_acc.satisfy_with(reward_outputs_acc) {
            Ok(_) => {},
            Err(e) => {
                proof {
                    if reward.spec_outputs().len() == 0 {
                        crate::constraints::lemma_satisfy_empty_demand(
                            reward_acc,
                            reward_outputs_acc,
                        );
                        assert(false);
                    }
                }
                self.rollback_transactions(undos);
                proof {
                    assert(self.view() =~= orig);
                }
                return Err(ChainstateError::ConstraintsError(e));
            },
        }

        // File the reward outputs.
        let mut rlog: Vec<UndoEntry<TxOutput>> = Vec::new();
        if reward.outputs.len() > u32::MAX as usize {
            self.rollback_transactions(undos);
            proof {
                assert(self.view() =~= orig);
            }
            return Err(ChainstateError::TooManyOutputs);
        }
        let ghost all_rewards = reward.spec_outputs();
        let mut routs = reward.outputs;
        let ghost mid_view = self.view();
        let mut idx: u32 = 0;
        while routs.len() > 0
            invariant
                routs@.len() + idx as int <= u32::MAX + 1,
                idx as int + routs@.len() == all_rewards.len(),
                all_rewards == reward.spec_outputs(),
                all_rewards.len() <= u32::MAX,
                routs@ == all_rewards.skip(idx as int),
                rlog@.len() == idx as int,
                forall|q: int|
                    0 <= q < idx as int ==> self.utxos@.contains_key(
                        #[trigger] spec_reward_outpoint_key(block_id, q),
                    ) && self.utxos@[spec_reward_outpoint_key(block_id, q)] == all_rewards[q],
                self.wf(),
                old(self).wf(),
                orig == old(self).view(),
                undo_log(self.utxos@, rlog@) == mid_view.utxos,
                self.pool_data@ == mid_view.pool_data,
                self.pool_balances@ == mid_view.pool_balances,
                self.delegation_data@ == mid_view.delegation_data,
                self.delegation_balances@ == mid_view.delegation_balances,
                self.delegation_nonces@ == mid_view.delegation_nonces,
                self.tokens.token_data@ == mid_view.token_data,
                self.tokens.circulating_supply@ == mid_view.token_supply,
                txs_undo_applicable(mid_view, undos@),
                spec_disconnect_txs(mid_view, undos@) == orig,
            decreases routs@.len(),
        {
            let output = routs.remove(0);
            let ghost gout = output;
            let ghost gidx = idx as int;
            proof {
                assert(all_rewards.skip(gidx)[0] == all_rewards[gidx]);
                assert(gout == all_rewards[gidx]);
            }
            let key = crate::chain::UtxoOutPoint::new(
                crate::chain::OutPointSourceId::BlockReward(block_id),
                idx,
            ).key();
            match self.create_utxo(key, output, &mut rlog) {
                Ok(_) => {},
                Err(e) => {
                    crate::delta::undo_data_log(&mut self.utxos, rlog);
                    proof {
                        assert(self.view() =~= mid_view);
                    }
                    self.rollback_transactions(undos);
                    proof {
                        assert(self.view() =~= orig);
                    }
                    return Err(e);
                },
            }
            proof {
                assert(routs@ =~= all_rewards.skip(gidx + 1));
                assert forall|q: int|
                    0 <= q <= gidx implies self.utxos@.contains_key(
                    #[trigger] spec_reward_outpoint_key(block_id, q),
                ) && self.utxos@[spec_reward_outpoint_key(block_id, q)] == all_rewards[q] by {
                    if q < gidx {
                        assert(spec_reward_outpoint_key(block_id, q) != spec_reward_outpoint_key(
                            block_id,
                            gidx,
                        ));
                    }
                }
            }
            if idx < u32::MAX {
                idx = idx + 1;
            } else {
                proof {
                    assert(routs@.len() == 0);
                }
            }
        }
        let undo = BlockUndo { tx_undos: undos, reward_log: rlog };
        proof {
            assert((LedgersView { utxos: undo_log(self.view().utxos, undo.reward_log@), ..self.view() })
                =~= mid_view);
            assert(spec_disconnect_block(self.view(), undo) =~= orig);
        }
        Ok(undo)
    }

    /// Disconnects a list of just-connected transactions, last first.
    fn rollback_transactions(&mut self, undos: Vec<TxUndo>)
        requires
            old(self).wf(),
            txs_undo_applicable(old(self).view(), undos@),
        ensures
            final(self).wf(),
            final(self).view() == spec_disconnect_txs(old(self).view(), undos@),
    {
        let ghost v0 = self.view();
        let ghost us0 = undos@;
        let mut rest = undos;
        while rest.len() > 0
            invariant
                rest@.len() <= us0.len(),
                rest@ == us0.take(rest@.len() as int),
                self.wf(),
                txs_undo_applicable(self.view(), rest@),
                spec_disconnect_txs(self.view(), rest@) == spec_disconnect_txs(v0, us0),
            decreases rest@.len(),
        {
            let ghost i = rest@.len() - 1;
            let u = rest.pop().unwrap();
            proof {
                assert(us0.take(i + 1).last() == us0[i]);
                assert(us0.take(i + 1).drop_last() =~= us0.take(i));
                assert(rest@ =~= us0.take(i));
            }
            self.disconnect_transaction(u);
        }
        proof {
            assert(us0.take(0) =~= Seq::<TxUndo>::empty());
        }
    }
}

/// Nonce monotonicity: two spends from the same account accepted one after
/// the other carry nonces exactly one apart, so the accepted nonces of an
/// account, in connect order, increase by exactly one with no gaps.
pub proof fn lemma_nonce_monotonicity(
    nonces_before: Map<u128, AccountNonce>,
    nonces_between: Map<u128, AccountNonce>,
    key: u128,
    first: AccountNonce,
    second: AccountNonce,
)
    requires
        first.0 == Ledgers::spec_next_nonce(nonces_before, key),
        nonces_between == nonces_before.insert(key, AccountNonce((first.0 + 1) as u64)),
        first.0 < u64::MAX,
        second.0 == Ledgers::spec_next_nonce(nonces_between, key),
    ensures
        second.0 == first.0 + 1,
{
}

} // verus!

