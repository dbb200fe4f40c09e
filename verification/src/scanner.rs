//! Derived per-address chain state, as a block scanner stores it: spendable
//! outputs, delegations with their nonces, and token issuance records.

use vstd::prelude::*;

use crate::amount::Amount;
use crate::chain::{AccountNonce, Destination, OutputValue, PoolId, TxOutput};
use crate::tokens::{IsTokenFreezable, IsTokenFrozen, IsTokenUnfreezable, TokenTotalSupply};

verus! {

/// Errors of the scanner storage layer.
#[derive(Clone, Debug, PartialEq, Eq)]
pub enum ApiServerStorageError {
    LowLevelStorageError(u64),
    DeserializationError(u64),
    InitializationError(u64),
    InvalidInitializedState(u64),
    AcquiringConnectionFailed(u64),
    RoTxBeginFailed(u64),
    RwTxBeginFailed(u64),
    TxCommitFailed(u64),
    TxRwRollbackFailed(u64),
    InvalidBlock(u64),
}

/// A delegation as the scanner tracks it: where it may be spent to, the
/// pool it delegates to, its balance, and the next nonce it will accept.
#[derive(Debug, Eq, PartialEq, Clone)]
pub struct Delegation {
    pub spend_destination: Destination,
    pub pool_id: PoolId,
    pub balance: Amount,
    pub next_nonce: AccountNonce,
}

impl Delegation {
    pub fn new(
        spend_destination: Destination,
        pool_id: PoolId,
        balance: Amount,
        next_nonce: AccountNonce,
    ) -> (r: Delegation)
        ensures
            r == (Delegation { spend_destination, pool_id, balance, next_nonce }),
    {
        Delegation { spend_destination, pool_id, balance, next_nonce }
    }

    pub fn spend_destination(&self) -> (r: &Destination)
        ensures
            r == &self.spend_destination,
    {
        &self.spend_destination
    }

    pub fn pool_id(&self) -> (r: PoolId)
        ensures
            r == self.pool_id,
    {
        self.pool_id
    }

    pub fn balance(&self) -> (r: &Amount)
        ensures
            r == &self.balance,
    {
        &self.balance
    }

    pub fn next_nonce(&self) -> (r: &AccountNonce)
        ensures
            r == &self.next_nonce,
    {
        &self.next_nonce
    }

    /// Adds staking rewards to the balance; the nonce does not move.
    /// The rewards must fit, which connecting the block has established.
    pub fn stake(&self, rewards: Amount) -> (r: Delegation)
        requires
            self.balance.atoms() + rewards.atoms() <= u128::MAX,
        ensures
            r.spend_destination == self.spend_destination,
            r.pool_id == self.pool_id,
            r.balance.atoms() == self.balance.atoms() + rewards.atoms(),
            r.next_nonce == self.next_nonce,
    {
        let new_balance = match self.balance.add(rewards) {
            Some(b) => b,
            None => {
                proof {
                    assert(false);
                }
                Amount::zero()
            },
        };
        Delegation {
            spend_destination: self.spend_destination,
            pool_id: self.pool_id,
            balance: new_balance,
            next_nonce: self.next_nonce,
        }
    }

    /// Spends a share of the balance under the given nonce; the next nonce
    /// the delegation accepts is one past it.  The balance must cover the
    /// spend and the nonce must not be exhausted, which the nonce and
    /// balance checks of connecting the block have established.
    pub fn spend_share(&self, amount: Amount, nonce: AccountNonce) -> (r: Delegation)
        requires
            amount.atoms() <= self.balance.atoms(),
            nonce.0 < u64::MAX,
        ensures
            r.spend_destination == self.spend_destination,
            r.pool_id == self.pool_id,
            r.balance.atoms() == self.balance.atoms() - amount.atoms(),
            r.next_nonce.0 == nonce.0 + 1,
    {
        let new_balance = match self.balance.sub(amount) {
            Some(b) => b,
            None => {
                proof {
                    assert(false);
                }
                Amount::zero()
            },
        };
        let next_nonce = match nonce.increment() {
            Some(n) => n,
            None => {
                proof {
                    assert(false);
                }
                AccountNonce(0)
            },
        };
        Delegation {
            spend_destination: self.spend_destination,
            pool_id: self.pool_id,
            balance: new_balance,
            next_nonce,
        }
    }
}

/// An output plus its spent flag, as the scanner stores it.
#[derive(Debug, Clone, PartialEq, Eq)]
pub struct Utxo {
    pub output: TxOutput,
    pub spent: bool,
}

impl Utxo {
    pub fn new(output: TxOutput, spent: bool) -> (r: Utxo)
        ensures
            r.output == output,
            r.spent == spent,
    {
        Utxo { output, spent }
    }

    pub fn output(&self) -> (r: &TxOutput)
        ensures
            r == &self.output,
    {
        &self.output
    }

    pub fn into_output(self) -> (r: TxOutput)
        ensures
            r == self.output,
    {
        self.output
    }

    pub fn spent(&self) -> (r: bool)
        ensures
            r == self.spent,
    {
        self.spent
    }
}

/// The coins an output pays to a destination: a plain transfer or a
/// lock-then-transfer of coins to it pays its amount; every other output
/// pays the destination nothing.
pub open spec fn spec_output_coins_to(output: TxOutput, dest: Destination) -> int {
    match output {
        TxOutput::Transfer(value, d) => match value {
            OutputValue::Coin(a) => if d == dest {
                a.atoms() as int
            } else {
                0
            },
            _ => 0,
        },
        TxOutput::LockThenTransfer(value, d, _) => match value {
            OutputValue::Coin(a) => if d == dest {
                a.atoms() as int
            } else {
                0
            },
            _ => 0,
        },
        _ => 0,
    }
}

/// The address-balance aggregate over scanned records: the coins the
/// unspent ones pay to the destination, summed.
pub open spec fn spec_address_balance(utxos: Seq<Utxo>, dest: Destination) -> int
    decreases utxos.len(),
{
    if utxos.len() == 0 {
        0
    } else {
        spec_address_balance(utxos.drop_last(), dest) + (if utxos.last().spent {
            0
        } else {
            spec_output_coins_to(utxos.last().output, dest)
        })
    }
}

/// Marking one record spent takes exactly its own payment out of the
/// address-balance aggregate; every other record still counts as before.
pub proof fn lemma_address_balance_after_spend(utxos: Seq<Utxo>, i: int, dest: Destination)
    requires
        0 <= i < utxos.len(),
        !utxos[i].spent,
    ensures
        spec_address_balance(utxos.update(i, Utxo { spent: true, ..utxos[i] }), dest)
            == spec_address_balance(utxos, dest) - spec_output_coins_to(utxos[i].output, dest),
    decreases utxos.len(),
{
    let updated = utxos.update(i, Utxo { spent: true, ..utxos[i] });
    if i == utxos.len() - 1 {
        assert(updated.drop_last() =~= utxos.drop_last());
        assert(updated.last() == (Utxo { spent: true, ..utxos[i] }));
    } else {
        assert(updated.drop_last() =~= utxos.drop_last().update(i, Utxo { spent: true, ..utxos[i] }));
        assert(updated.last() == utxos.last());
        lemma_address_balance_after_spend(utxos.drop_last(), i, dest);
    }
}

/// A prefix of the records never pays more than all of them.
pub proof fn lemma_address_balance_prefix_le(utxos: Seq<Utxo>, dest: Destination, i: int)
    requires
        0 <= i <= utxos.len(),
    ensures
        spec_address_balance(utxos.take(i), dest) <= spec_address_balance(utxos, dest),
    decreases utxos.len() - i,
{
    if i == utxos.len() {
        assert(utxos.take(i) =~= utxos);
    } else {
        assert(utxos.take(i + 1).drop_last() =~= utxos.take(i));
        assert(utxos.take(i + 1).last() == utxos[i]);
        lemma_address_balance_prefix_le(utxos, dest, i + 1);
    }
}

/// Sums the coins the unspent records pay to one destination; `None`
/// exactly when the total does not fit in an amount.
pub fn address_balance(utxos: &Vec<Utxo>, dest: &Destination) -> (r: Option<Amount>)
    ensures
        spec_address_balance(utxos@, *dest) <= u128::MAX ==> r == Some(
            Amount { atoms: spec_address_balance(utxos@, *dest) as u128 },
        ),
        spec_address_balance(utxos@, *dest) > u128::MAX ==> r is None,
{
    let ghost all = utxos@;
    let mut total: u128 = 0;
    let mut i: usize = 0;
    proof {
        assert(all.take(0) =~= Seq::<Utxo>::empty());
    }
    while i < utxos.len()
        invariant
            i <= utxos.len(),
            all == utxos@,
            total as int == spec_address_balance(all.take(i as int), *dest),
        decreases utxos.len() - i,
    {
        let ghost gi = i as int;
        proof {
            assert(all.take(gi + 1).drop_last() =~= all.take(gi));
            assert(all.take(gi + 1).last() == all[gi]);
        }
        let u = &utxos[i];
        let pays: u128 = if u.spent {
            0
        } else {
            match &u.output {
                TxOutput::Transfer(value, d) => match value {
                    OutputValue::Coin(a) => if *d == *dest {
                        a.into_atoms()
                    } else {
                        0
                    },
                    _ => 0,
                },
                TxOutput::LockThenTransfer(value, d, _) => match value {
                    OutputValue::Coin(a) => if *d == *dest {
                        a.into_atoms()
                    } else {
                        0
                    },
                    _ => 0,
                },
                _ => 0,
            }
        };
        if pays > u128::MAX - total {
            proof {
                lemma_address_balance_prefix_le(all, *dest, gi + 1);
            }
            return None;
        }
        total = total + pays;
        i = i + 1;
    }
    proof {
        assert(all.take(utxos@.len() as int) =~= all);
    }
    Some(Amount { atoms: total })
}

/// A fungible token as the scanner stores it, the circulating supply
/// denormalised into the record.
#[derive(Debug, Clone, PartialEq, Eq)]
pub struct FungibleTokenData {
    pub token_ticker: Vec<u8>,
    pub number_of_decimals: u8,
    pub metadata_uri: Vec<u8>,
    pub circulating_supply: Amount,
    pub total_supply: TokenTotalSupply,
    pub is_locked: bool,
    pub frozen: IsTokenFrozen,
    pub authority: Destination,
}

impl FungibleTokenData {
    /// Adds minted tokens to the circulating supply.  The mint must fit,
    /// which the tokens ledger has established.
    pub fn mint_tokens(self, amount: Amount) -> (r: FungibleTokenData)
        requires
            self.circulating_supply.atoms() + amount.atoms() <= u128::MAX,
        ensures
            r == (FungibleTokenData {
                circulating_supply: Amount { atoms: (self.circulating_supply.atoms()
                    + amount.atoms()) as u128 },
                ..self
            }),
    {
        let supply = match self.circulating_supply.add(amount) {
            Some(s) => s,
            None => {
                proof {
                    assert(false);
                }
                Amount::zero()
            },
        };
        FungibleTokenData { circulating_supply: supply, ..self }
    }

    /// Removes burnt tokens from the circulating supply.  The burn must be
    /// covered, which the tokens ledger has established.
    pub fn unmint_tokens(self, amount: Amount) -> (r: FungibleTokenData)
        requires
            amount.atoms() <= self.circulating_supply.atoms(),
        ensures
            r == (FungibleTokenData {
                circulating_supply: Amount { atoms: (self.circulating_supply.atoms()
                    - amount.atoms()) as u128 },
                ..self
            }),
    {
        let supply = match self.circulating_supply.sub(amount) {
            Some(s) => s,
            None => {
                proof {
                    assert(false);
                }
                Amount::zero()
            },
        };
        FungibleTokenData { circulating_supply: supply, ..self }
    }

    /// Marks the token frozen, recording whether unfreezing stays allowed.
    pub fn freeze(self, is_token_unfreezable: IsTokenUnfreezable) -> (r: FungibleTokenData)
        ensures
            r == (FungibleTokenData { frozen: IsTokenFrozen::Yes(is_token_unfreezable), ..self }),
    {
        FungibleTokenData { frozen: IsTokenFrozen::Yes(is_token_unfreezable), ..self }
    }

    /// Marks the token unfrozen again; it stays freezable.
    pub fn unfreeze(self) -> (r: FungibleTokenData)
        ensures
            r == (FungibleTokenData { frozen: IsTokenFrozen::No(IsTokenFreezable::Yes), ..self }),
    {
        FungibleTokenData { frozen: IsTokenFrozen::No(IsTokenFreezable::Yes), ..self }
    }

    /// Marks the supply locked for good.
    pub fn lock(self) -> (r: FungibleTokenData)
        ensures
            r == (FungibleTokenData { is_locked: true, ..self }),
    {
        FungibleTokenData { is_locked: true, ..self }
    }

    /// Hands the token to a new authority.
    pub fn change_authority(self, authority: Destination) -> (r: FungibleTokenData)
        ensures
            r == (FungibleTokenData { authority, ..self }),
    {
        FungibleTokenData { authority, ..self }
    }
}

} // verus!
