//! Token accounting: issuance data, supply policy, freezing, and the
//! tokens ledger built on the delta framework.

use std::collections::BTreeMap;
use vstd::prelude::*;

use crate::amount::Amount;
use crate::chain::{Destination, TokenId};
use crate::delta::{DataDelta, DeltaDataCollection};
use crate::delta_amount::DeltaAmountCollection;

verus! {

/// The declared total-supply policy of a fungible token.
#[derive(Clone, Copy, Debug, PartialEq, Eq, Structural)]
pub enum TokenTotalSupply {
    /// Minting beyond the declared cap is rejected.
    Fixed(Amount),
    /// Minting is free until the supply is locked, then behaves as fixed.
    Lockable,
    /// Minting is never capped.
    Unlimited,
}

/// Whether the issuer may freeze the token.
#[derive(Clone, Copy, Debug, PartialEq, Eq, Structural)]
pub enum IsTokenFreezable {
    No,
    Yes,
}

/// Whether a frozen token may be unfrozen again.
#[derive(Clone, Copy, Debug, PartialEq, Eq, Structural)]
pub enum IsTokenUnfreezable {
    No,
    Yes,
}

/// The freeze state a token is in.
#[derive(Clone, Copy, Debug, PartialEq, Eq, Structural)]
pub enum IsTokenFrozen {
    No(IsTokenFreezable),
    Yes(IsTokenUnfreezable),
}

/// The declared parameters of a newly issued fungible token.
#[derive(Clone, Debug, PartialEq, Eq)]
pub struct TokenIssuanceV1 {
    pub token_ticker: Vec<u8>,
    pub number_of_decimals: u8,
    pub metadata_uri: Vec<u8>,
    pub total_supply: TokenTotalSupply,
    pub authority: Destination,
    pub is_freezable: IsTokenFreezable,
}

/// A versioned token issuance.
#[derive(Clone, Debug, PartialEq, Eq)]
pub enum TokenIssuance {
    V1(TokenIssuanceV1),
}

/// The ledger entry of one token.
#[derive(Clone, Debug, PartialEq, Eq)]
pub enum TokenData {
    FungibleToken(FungibleTokenData),
}

/// The accounting state of one fungible token.
#[derive(Clone, Debug, PartialEq, Eq)]
pub struct FungibleTokenData {
    pub token_ticker: Vec<u8>,
    pub number_of_decimals: u8,
    pub metadata_uri: Vec<u8>,
    pub total_supply: TokenTotalSupply,
    pub locked: bool,
    pub is_freezable: IsTokenFreezable,
    pub is_unfreezable: IsTokenUnfreezable,
    pub frozen: bool,
    pub authority: Destination,
}

impl FungibleTokenData {
    pub open spec fn spec_ticker(self) -> Seq<u8> {
        self.token_ticker@
    }

    pub open spec fn spec_number_of_decimals(self) -> u8 {
        self.number_of_decimals
    }

    pub open spec fn spec_metadata_uri(self) -> Seq<u8> {
        self.metadata_uri@
    }

    pub open spec fn spec_total_supply(self) -> TokenTotalSupply {
        self.total_supply
    }

    pub open spec fn spec_is_locked(self) -> bool {
        self.locked
    }

    pub open spec fn spec_is_freezable(self) -> IsTokenFreezable {
        self.is_freezable
    }

    pub open spec fn spec_is_unfreezable(self) -> IsTokenUnfreezable {
        self.is_unfreezable
    }

    pub open spec fn spec_is_frozen(self) -> bool {
        self.frozen
    }

    pub open spec fn spec_authority(self) -> Destination {
        self.authority
    }

    /// Assembles the accounting state field by field, checking nothing.
    pub fn new_unchecked(
        token_ticker: Vec<u8>,
        number_of_decimals: u8,
        metadata_uri: Vec<u8>,
        total_supply: TokenTotalSupply,
        locked: bool,
        is_freezable: IsTokenFreezable,
        is_unfreezable: IsTokenUnfreezable,
        frozen: bool,
        authority: Destination,
    ) -> (r: FungibleTokenData)
        ensures
            r.spec_ticker() == token_ticker@,
            r.spec_number_of_decimals() == number_of_decimals,
            r.spec_metadata_uri() == metadata_uri@,
            r.spec_total_supply() == total_supply,
            r.spec_is_locked() == locked,
            r.spec_is_freezable() == is_freezable,
            r.spec_is_unfreezable() == is_unfreezable,
            r.spec_is_frozen() == frozen,
            r.spec_authority() == authority,
    {
        FungibleTokenData {
            token_ticker,
            number_of_decimals,
            metadata_uri,
            total_supply,
            locked,
            is_freezable,
            is_unfreezable,
            frozen,
            authority,
        }
    }

    pub fn token_ticker(&self) -> (r: &Vec<u8>)
        ensures
            r@ == self.spec_ticker(),
    {
        &self.token_ticker
    }

    pub fn number_of_decimals(&self) -> (r: u8)
        ensures
            r == self.spec_number_of_decimals(),
    {
        self.number_of_decimals
    }

    pub fn metadata_uri(&self) -> (r: &Vec<u8>)
        ensures
            r@ == self.spec_metadata_uri(),
    {
        &self.metadata_uri
    }

    pub fn total_supply(&self) -> (r: &TokenTotalSupply)
        ensures
            r == &self.total_supply,
    {
        &self.total_supply
    }

    pub fn is_locked(&self) -> (r: bool)
        ensures
            r == self.spec_is_locked(),
    {
        self.locked
    }

    pub fn authority(&self) -> (r: &Destination)
        ensures
            r == &self.authority,
    {
        &self.authority
    }

    pub fn is_frozen(&self) -> (r: bool)
        ensures
            r == self.spec_is_frozen(),
    {
        self.frozen
    }

    pub fn is_freezable(&self) -> (r: IsTokenFreezable)
        ensures
            r == self.spec_is_freezable(),
    {
        self.is_freezable
    }

    pub fn is_unfreezable(&self) -> (r: IsTokenUnfreezable)
        ensures
            r == self.spec_is_unfreezable(),
    {
        self.is_unfreezable
    }

    /// Locks the supply.  Succeeds exactly for a `Lockable` policy; every
    /// other field is kept; on failure the state comes back unchanged.
    pub fn try_lock(self) -> (r: Result<FungibleTokenData, FungibleTokenData>)
        ensures
            match r {
                Ok(d) => self.spec_total_supply() == TokenTotalSupply::Lockable && d == (
                FungibleTokenData { locked: true, ..self }),
                Err(d) => self.spec_total_supply() != TokenTotalSupply::Lockable && d == self,
            },
    {
        match self.total_supply {
            TokenTotalSupply::Lockable => Ok(FungibleTokenData { locked: true, ..self }),
            TokenTotalSupply::Fixed(_) => Err(self),
            TokenTotalSupply::Unlimited => Err(self),
        }
    }

    /// Freezes the token.  Succeeds exactly when it was issued freezable;
    /// records whether unfreezing will be allowed; on failure the state
    /// comes back unchanged.
    pub fn try_freeze(self, is_unfreezable: IsTokenUnfreezable) -> (r: Result<
        FungibleTokenData,
        FungibleTokenData,
    >)
        ensures
            match r {
                Ok(d) => self.spec_is_freezable() == IsTokenFreezable::Yes && d == (
                FungibleTokenData { frozen: true, is_unfreezable, ..self }),
                Err(d) => self.spec_is_freezable() == IsTokenFreezable::No && d == self,
            },
    {
        match self.is_freezable {
            IsTokenFreezable::No => Err(self),
            IsTokenFreezable::Yes => Ok(FungibleTokenData { frozen: true, is_unfreezable, ..self }),
        }
    }

    /// Unfreezes the token.  Succeeds exactly when the freeze allowed it;
    /// on failure the state comes back unchanged.
    pub fn try_unfreeze(self) -> (r: Result<FungibleTokenData, FungibleTokenData>)
        ensures
            match r {
                Ok(d) => self.spec_is_unfreezable() == IsTokenUnfreezable::Yes && d == (
                FungibleTokenData { frozen: false, ..self }),
                Err(d) => self.spec_is_unfreezable() == IsTokenUnfreezable::No && d == self,
            },
    {
        match self.is_unfreezable {
            IsTokenUnfreezable::No => Err(self),
            IsTokenUnfreezable::Yes => Ok(FungibleTokenData { frozen: false, ..self }),
        }
    }

    /// The accounting state a fresh issuance starts in: unlocked, unfrozen,
    /// unfreezable exactly when freezable.
    pub fn from_issuance(issuance: TokenIssuance) -> (r: FungibleTokenData)
        ensures
            match issuance {
                TokenIssuance::V1(v1) => {
                    &&& r.spec_ticker() == v1.token_ticker@
                    &&& r.spec_number_of_decimals() == v1.number_of_decimals
                    &&& r.spec_metadata_uri() == v1.metadata_uri@
                    &&& r.spec_total_supply() == v1.total_supply
                    &&& !r.spec_is_locked()
                    &&& r.spec_is_freezable() == v1.is_freezable
                    &&& r.spec_is_unfreezable() == (match v1.is_freezable {
                        IsTokenFreezable::Yes => IsTokenUnfreezable::Yes,
                        IsTokenFreezable::No => IsTokenUnfreezable::No,
                    })
                    &&& !r.spec_is_frozen()
                    &&& r.spec_authority() == v1.authority
                },
            },
    {
        match issuance {
            TokenIssuance::V1(v1) => {
                let is_unfreezable = match v1.is_freezable {
                    IsTokenFreezable::Yes => IsTokenUnfreezable::Yes,
                    IsTokenFreezable::No => IsTokenUnfreezable::No,
                };
                FungibleTokenData {
                    token_ticker: v1.token_ticker,
                    number_of_decimals: v1.number_of_decimals,
                    metadata_uri: v1.metadata_uri,
                    total_supply: v1.total_supply,
                    locked: false,
                    is_freezable: v1.is_freezable,
                    is_unfreezable,
                    frozen: false,
                    authority: v1.authority,
                }
            },
        }
    }
}

/// The tokens ledger: per-token entries and the circulating supply
/// aggregate, both keyed by the token identifier.
#[derive(Debug)]
pub struct TokensAccountingData {
    pub token_data: BTreeMap<u128, TokenData>,
    pub circulating_supply: BTreeMap<u128, Amount>,
}

impl TokensAccountingData {
    /// An empty tokens ledger.
    pub fn new() -> (r: TokensAccountingData)
        ensures
            r.token_data@ == Map::<u128, TokenData>::empty(),
            r.circulating_supply@ == Map::<u128, Amount>::empty(),
    {
        TokensAccountingData { token_data: BTreeMap::new(), circulating_supply: BTreeMap::new() }
    }
}

/// The in-flight changes one block makes to the tokens ledger.
#[derive(Clone, Debug, PartialEq, Eq)]
pub struct TokensAccountingDeltaData {
    pub token_data: DeltaDataCollection<TokenData>,
    pub circulating_supply: DeltaAmountCollection,
}

/// What undoes one merge of token deltas: the lengths the two logs had
/// before the merge appended to them.
#[derive(Clone, Copy, Debug, PartialEq, Eq, Structural)]
pub struct TokensAccountingDeltaUndoData {
    pub token_data_len: usize,
    pub circulating_supply_len: usize,
}

impl TokensAccountingDeltaData {
    /// An empty delta.
    pub fn new() -> (r: TokensAccountingDeltaData)
        ensures
            r.token_data.ops_seq() == Seq::<(u128, DataDelta<TokenData>)>::empty(),
            r.circulating_supply.ops_seq().len() == 0,
    {
        TokensAccountingDeltaData {
            token_data: DeltaDataCollection::new(),
            circulating_supply: DeltaAmountCollection::new(),
        }
    }

    /// Folds the changes of `other` into this delta, in order; undone
    /// exactly by truncating both logs to the returned lengths.
    pub fn merge_with_delta(&mut self, other: TokensAccountingDeltaData) -> (r:
        TokensAccountingDeltaUndoData)
        ensures
            final(self).token_data.ops_seq() == old(self).token_data.ops_seq()
                + other.token_data.ops_seq(),
            final(self).circulating_supply.ops_seq() == old(self).circulating_supply.ops_seq()
                + other.circulating_supply.ops_seq(),
            r.token_data_len == old(self).token_data.ops_seq().len(),
            r.circulating_supply_len == old(self).circulating_supply.ops_seq().len(),
    {
        let token_data_len = self.token_data.merge_with_delta(other.token_data);
        let circulating_supply_len = self.circulating_supply.merge_delta_amounts(
            other.circulating_supply,
        );
        TokensAccountingDeltaUndoData { token_data_len, circulating_supply_len }
    }

    /// Undoes a merge recorded by [`Self::merge_with_delta`].
    pub fn undo_merge(&mut self, undo: TokensAccountingDeltaUndoData)
        requires
            undo.token_data_len <= old(self).token_data.ops_seq().len(),
            undo.circulating_supply_len <= old(self).circulating_supply.ops_seq().len(),
        ensures
            final(self).token_data.ops_seq() == old(self).token_data.ops_seq().take(
                undo.token_data_len as int,
            ),
            final(self).circulating_supply.ops_seq() == old(
                self,
            ).circulating_supply.ops_seq().take(undo.circulating_supply_len as int),
    {
        self.token_data.truncate_to(undo.token_data_len);
        self.circulating_supply.truncate_to(undo.circulating_supply_len);
    }
}

} // verus!
