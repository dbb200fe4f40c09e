//! Chain-wide constants: maturity distances, fee schedules, size limits,
//! and the height-indexed switch of the accounts-balances check.  Read-only
//! input to every component.

use vstd::prelude::*;

use crate::amount::Amount;
use crate::chain::BlockHeight;

verus! {

/// Which accounts-balances check is active at a height.
#[derive(Clone, Copy, Debug, PartialEq, Eq, Structural)]
pub enum AccountsBalancesCheckVersion {
    /// Each account-spending input is checked against the stored balance
    /// alone.
    V0,
    /// A per-transaction tracker charges each spend against a running
    /// balance, so one transaction cannot draw the same account twice over.
    V1,
}

/// The chain configuration.
#[derive(Clone, Copy, Debug, PartialEq, Eq, Structural)]
pub struct ChainConfig {
    /// How many blocks funds stay locked after leaving a pool or delegation.
    /// Kept constant over heights; a height-indexed schedule would replace
    /// this field by a table, as the version switch below models.
    pub maturity_distance: u64,
    /// The fee burnt by a mint, unmint or supply-lock command.
    pub token_supply_change_fee: Amount,
    /// The fee burnt by a freeze or unfreeze command.
    pub token_freeze_fee: Amount,
    /// The fee burnt by an authority change.
    pub token_change_authority_fee: Amount,
    /// The fee burnt by a data deposit output.
    pub data_deposit_fee: Amount,
    /// The fee burnt by a fungible-token issuance output.
    pub fungible_token_issuance_fee: Amount,
    /// The fee burnt by an NFT issuance output.
    pub nft_issuance_fee: Amount,
    /// The shortest media hash accepted.
    pub min_hash_len: usize,
    /// The longest media hash accepted.
    pub max_hash_len: usize,
    /// The longest token ticker accepted.
    pub token_max_ticker_len: usize,
    /// The longest NFT name accepted.
    pub token_max_name_len: usize,
    /// The longest NFT description accepted.
    pub token_max_description_len: usize,
    /// The longest metadata URI accepted.
    pub token_max_uri_len: usize,
    /// The least pledge a new stake pool must carry.
    pub min_stake_pool_pledge: Amount,
    /// The height from which the tracked accounts-balances check holds.
    pub accounts_balances_v1_from: u64,
}

impl ChainConfig {
    /// How long funds leaving a pool or delegation stay locked, at a height.
    pub fn staking_pool_spend_maturity_block_count(&self, height: BlockHeight) -> (r: u64)
        ensures
            r == self.maturity_distance,
    {
        self.maturity_distance
    }

    pub fn token_supply_change_fee(&self, height: BlockHeight) -> (r: Amount)
        ensures
            r == self.token_supply_change_fee,
    {
        self.token_supply_change_fee
    }

    pub fn token_freeze_fee(&self, height: BlockHeight) -> (r: Amount)
        ensures
            r == self.token_freeze_fee,
    {
        self.token_freeze_fee
    }

    pub fn token_change_authority_fee(&self, height: BlockHeight) -> (r: Amount)
        ensures
            r == self.token_change_authority_fee,
    {
        self.token_change_authority_fee
    }

    pub fn data_deposit_fee(&self) -> (r: Amount)
        ensures
            r == self.data_deposit_fee,
    {
        self.data_deposit_fee
    }

    pub fn fungible_token_issuance_fee(&self) -> (r: Amount)
        ensures
            r == self.fungible_token_issuance_fee,
    {
        self.fungible_token_issuance_fee
    }

    pub fn nft_issuance_fee(&self, height: BlockHeight) -> (r: Amount)
        ensures
            r == self.nft_issuance_fee,
    {
        self.nft_issuance_fee
    }

    pub fn min_hash_len(&self) -> (r: usize)
        ensures
            r == self.min_hash_len,
    {
        self.min_hash_len
    }

    pub fn max_hash_len(&self) -> (r: usize)
        ensures
            r == self.max_hash_len,
    {
        self.max_hash_len
    }

    pub fn token_max_ticker_len(&self) -> (r: usize)
        ensures
            r == self.token_max_ticker_len,
    {
        self.token_max_ticker_len
    }

    pub fn token_max_name_len(&self) -> (r: usize)
        ensures
            r == self.token_max_name_len,
    {
        self.token_max_name_len
    }

    pub fn token_max_description_len(&self) -> (r: usize)
        ensures
            r == self.token_max_description_len,
    {
        self.token_max_description_len
    }

    pub fn token_max_uri_len(&self) -> (r: usize)
        ensures
            r == self.token_max_uri_len,
    {
        self.token_max_uri_len
    }

    pub fn min_stake_pool_pledge(&self) -> (r: Amount)
        ensures
            r == self.min_stake_pool_pledge,
    {
        self.min_stake_pool_pledge
    }

    /// Which accounts-balances check holds at a height.
    pub open spec fn spec_accounts_balances_version(
        self,
        height: BlockHeight,
    ) -> AccountsBalancesCheckVersion {
        if height.0 >= self.accounts_balances_v1_from {
            AccountsBalancesCheckVersion::V1
        } else {
            AccountsBalancesCheckVersion::V0
        }
    }

    pub fn accounts_balances_version(&self, height: BlockHeight) -> (r:
        AccountsBalancesCheckVersion)
        ensures
            r == self.spec_accounts_balances_version(height),
    {
        if height.0 >= self.accounts_balances_v1_from {
            AccountsBalancesCheckVersion::V1
        } else {
            AccountsBalancesCheckVersion::V0
        }
    }
}

} // verus!
