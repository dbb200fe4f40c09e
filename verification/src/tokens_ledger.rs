//! The tokens ledger view: policy-checked operations with exact undo.
//!
//! Each operation applies one change to [`TokensAccountingData`] and hands
//! back the inverse operation.  The contracts say, for every state, exactly
//! which error an operation reports and exactly how the state moves; the
//! undo contracts say that the inverse restores the previous state exactly.

use vstd::prelude::*;

use crate::amount::Amount;
use crate::delta_amount::balances_wf;
use crate::chain::{Destination, TokenId};
use crate::tokens::{
    FungibleTokenData, IsTokenFreezable, IsTokenUnfreezable, TokenData, TokenTotalSupply,
    TokensAccountingData,
};

verus! {

broadcast use {vstd::std_specs::btree::group_btree_axioms, vstd::laws_cmp::group_laws_cmp};

/// Errors of the tokens ledger.
#[derive(Clone, Copy, Debug, PartialEq, Eq, Structural)]
pub enum TokensError {
    TokenAlreadyExists,
    TokenNotFound,
    AmountOverflow,
    CannotMintFrozenToken,
    CannotMintFromLockedSupply,
    MintExceedsSupplyLimit,
    CannotUnmintFrozenToken,
    NotEnoughCirculatingSupply,
    CannotLockNotLockableSupply,
    SupplyIsAlreadyLocked,
    CannotLockFrozenToken,
    CannotFreezeNotFreezableToken,
    TokenIsAlreadyFrozen,
    CannotUnfreezeTokenThatIsNotFrozen,
    CannotUnfreezeNotUnfreezableToken,
    CannotChangeAuthorityForFrozenToken,
}

/// The inverse of one tokens-ledger operation.
#[derive(Clone, Copy, Debug, PartialEq, Eq, Structural)]
pub enum TokensLedgerUndo {
    Issued(u128),
    Minted(u128, Amount),
    Unminted(u128, Amount),
    Locked(u128),
    Frozen(u128, IsTokenUnfreezable),
    Unfrozen(u128, IsTokenUnfreezable),
    AuthorityChanged(u128, Destination),
}

/// The fungible-token entry a key holds, if any.
pub open spec fn spec_token_of(t: Map<u128, TokenData>, k: u128) -> Option<FungibleTokenData> {
    if t.contains_key(k) {
        match t[k] {
            TokenData::FungibleToken(d) => Some(d),
        }
    } else {
        None
    }
}

/// The circulating supply of a key, with absence read as zero.
pub open spec fn spec_supply_of(s: Map<u128, Amount>, k: u128) -> int {
    if s.contains_key(k) {
        s[k].atoms() as int
    } else {
        0
    }
}

/// Whether an undo record fits the state it is to be applied to.
pub open spec fn undo_applicable(
    t: Map<u128, TokenData>,
    s: Map<u128, Amount>,
    u: TokensLedgerUndo,
) -> bool {
    match u {
        TokensLedgerUndo::Issued(k) => t.contains_key(k),
        TokensLedgerUndo::Minted(k, a) => a.atoms() <= spec_supply_of(s, k),
        TokensLedgerUndo::Unminted(k, a) => spec_supply_of(s, k) + a.atoms() <= u128::MAX,
        TokensLedgerUndo::Locked(k) => spec_token_of(t, k) is Some,
        TokensLedgerUndo::Frozen(k, _) => spec_token_of(t, k) is Some,
        TokensLedgerUndo::Unfrozen(k, _) => spec_token_of(t, k) is Some,
        TokensLedgerUndo::AuthorityChanged(k, _) => spec_token_of(t, k) is Some,
    }
}

/// The state an undo record restores.
pub open spec fn spec_undo_ledger(
    t: Map<u128, TokenData>,
    s: Map<u128, Amount>,
    u: TokensLedgerUndo,
) -> (Map<u128, TokenData>, Map<u128, Amount>) {
    match u {
        TokensLedgerUndo::Issued(k) => (t.remove(k), s),
        TokensLedgerUndo::Minted(k, a) => {
            let rest = spec_supply_of(s, k) - a.atoms();
            (
                t,
                if rest == 0 {
                    s.remove(k)
                } else {
                    s.insert(k, Amount { atoms: rest as u128 })
                },
            )
        },
        TokensLedgerUndo::Unminted(k, a) => {
            let total = spec_supply_of(s, k) + a.atoms();
            (
                t,
                if total == 0 {
                    s.remove(k)
                } else {
                    s.insert(k, Amount { atoms: total as u128 })
                },
            )
        },
        TokensLedgerUndo::Locked(k) => {
            let d = spec_token_of(t, k).unwrap();
            (t.insert(k, TokenData::FungibleToken(FungibleTokenData { locked: false, ..d })), s)
        },
        TokensLedgerUndo::Frozen(k, unfreezable) => {
            let d = spec_token_of(t, k).unwrap();
            (
                t.insert(
                    k,
                    TokenData::FungibleToken(
                        FungibleTokenData { frozen: false, is_unfreezable: unfreezable, ..d },
                    ),
                ),
                s,
            )
        },
        TokensLedgerUndo::Unfrozen(k, unfreezable) => {
            let d = spec_token_of(t, k).unwrap();
            (
                t.insert(
                    k,
                    TokenData::FungibleToken(
                        FungibleTokenData { frozen: true, is_unfreezable: unfreezable, ..d },
                    ),
                ),
                s,
            )
        },
        TokensLedgerUndo::AuthorityChanged(k, authority) => {
            let d = spec_token_of(t, k).unwrap();
            (t.insert(k, TokenData::FungibleToken(FungibleTokenData { authority, ..d })), s)
        },
    }
}


/// The exact error minting reports, or `None` when minting is allowed.
pub open spec fn mint_check(
    t: Map<u128, TokenData>,
    s: Map<u128, Amount>,
    k: u128,
    amount: Amount,
) -> Option<TokensError> {
    match spec_token_of(t, k) {
        None => Some(TokensError::TokenNotFound),
        Some(d) => if d.frozen {
            Some(TokensError::CannotMintFrozenToken)
        } else if d.locked {
            Some(TokensError::CannotMintFromLockedSupply)
        } else if spec_supply_of(s, k) + amount.atoms() > u128::MAX {
            Some(TokensError::AmountOverflow)
        } else {
            match d.total_supply {
                TokenTotalSupply::Fixed(cap) => if spec_supply_of(s, k) + amount.atoms()
                    > cap.atoms() {
                    Some(TokensError::MintExceedsSupplyLimit)
                } else {
                    None
                },
                TokenTotalSupply::Lockable => None,
                TokenTotalSupply::Unlimited => None,
            }
        },
    }
}

/// The exact error unminting reports, or `None` when it is allowed.
pub open spec fn unmint_check(
    t: Map<u128, TokenData>,
    s: Map<u128, Amount>,
    k: u128,
    amount: Amount,
) -> Option<TokensError> {
    match spec_token_of(t, k) {
        None => Some(TokensError::TokenNotFound),
        Some(d) => if d.frozen {
            Some(TokensError::CannotUnmintFrozenToken)
        } else if amount.atoms() > spec_supply_of(s, k) {
            Some(TokensError::NotEnoughCirculatingSupply)
        } else {
            None
        },
    }
}

/// The exact error locking the supply reports, or `None` when allowed.
pub open spec fn lock_check(t: Map<u128, TokenData>, k: u128) -> Option<TokensError> {
    match spec_token_of(t, k) {
        None => Some(TokensError::TokenNotFound),
        Some(d) => if d.frozen {
            Some(TokensError::CannotLockFrozenToken)
        } else if d.locked {
            Some(TokensError::SupplyIsAlreadyLocked)
        } else if d.total_supply != TokenTotalSupply::Lockable {
            Some(TokensError::CannotLockNotLockableSupply)
        } else {
            None
        },
    }
}

/// The exact error freezing reports, or `None` when allowed.
pub open spec fn freeze_check(t: Map<u128, TokenData>, k: u128) -> Option<TokensError> {
    match spec_token_of(t, k) {
        None => Some(TokensError::TokenNotFound),
        Some(d) => if d.frozen {
            Some(TokensError::TokenIsAlreadyFrozen)
        } else if d.is_freezable == IsTokenFreezable::No {
            Some(TokensError::CannotFreezeNotFreezableToken)
        } else {
            None
        },
    }
}

/// The exact error unfreezing reports, or `None` when allowed.
pub open spec fn unfreeze_check(t: Map<u128, TokenData>, k: u128) -> Option<TokensError> {
    match spec_token_of(t, k) {
        None => Some(TokensError::TokenNotFound),
        Some(d) => if !d.frozen {
            Some(TokensError::CannotUnfreezeTokenThatIsNotFrozen)
        } else if d.is_unfreezable == IsTokenUnfreezable::No {
            Some(TokensError::CannotUnfreezeNotUnfreezableToken)
        } else {
            None
        },
    }
}

/// The exact error an authority change reports, or `None` when allowed.
pub open spec fn change_authority_check(t: Map<u128, TokenData>, k: u128) -> Option<TokensError> {
    match spec_token_of(t, k) {
        None => Some(TokensError::TokenNotFound),
        Some(d) => if d.frozen {
            Some(TokensError::CannotChangeAuthorityForFrozenToken)
        } else {
            None
        },
    }
}

impl TokensAccountingData {
    /// The fungible-token entry of a token, if the token exists.
    pub fn get_token_data(&self, id: TokenId) -> (r: Option<&TokenData>)
        ensures
            match r {
                Some(d) => self.token_data@.contains_key(id.0 as u128) && *d
                    == self.token_data@[id.0 as u128],
                None => !self.token_data@.contains_key(id.0 as u128),
            },
    {
        self.token_data.get(&(id.0 as u128))
    }

    /// The circulating supply of a token; zero when nothing is minted.
    pub fn get_circulating_supply(&self, id: TokenId) -> (r: Amount)
        ensures
            r.atoms() == spec_supply_of(self.circulating_supply@, id.0 as u128),
    {
        match self.circulating_supply.get(&(id.0 as u128)) {
            Some(a) => *a,
            None => Amount::zero(),
        }
    }

    /// Issues a token: rejected exactly when the identifier is taken.
    pub fn issue_token(&mut self, id: TokenId, data: TokenData) -> (r: Result<
        TokensLedgerUndo,
        TokensError,
    >)
        ensures
            match r {
                Ok(u) => {
                    &&& !old(self).token_data@.contains_key(id.0 as u128)
                    &&& final(self).token_data@ == old(self).token_data@.insert(
                        id.0 as u128,
                        data,
                    )
                    &&& final(self).circulating_supply@ == old(self).circulating_supply@
                    &&& u == TokensLedgerUndo::Issued(id.0 as u128)
                    &&& undo_applicable(final(self).token_data@, final(self).circulating_supply@, u)
                    &&& spec_undo_ledger(
                        final(self).token_data@,
                        final(self).circulating_supply@,
                        u,
                    ) == (old(self).token_data@, old(self).circulating_supply@)
                },
                Err(e) => {
                    &&& old(self).token_data@.contains_key(id.0 as u128)
                    &&& e == TokensError::TokenAlreadyExists
                    &&& final(self).token_data@ == old(self).token_data@
                    &&& final(self).circulating_supply@ == old(self).circulating_supply@
                },
            },
    {
        let key = id.0 as u128;
        if self.token_data.contains_key(&key) {
            return Err(TokensError::TokenAlreadyExists);
        }
        self.token_data.insert(key, data);
        proof {
            assert(self.token_data@.remove(key) =~= old(self).token_data@);
        }
        Ok(TokensLedgerUndo::Issued(key))
    }

    /// Mints tokens.  The contract names, for every state, the exact error:
    /// an unknown token, a frozen token, a locked supply, an overflowing
    /// supply, or a mint past a fixed cap; otherwise the circulating supply
    /// grows by exactly the minted amount.
    pub fn mint_tokens(&mut self, id: TokenId, amount: Amount) -> (r: Result<
        TokensLedgerUndo,
        TokensError,
    >)
        requires
            balances_wf(old(self).circulating_supply@),
        ensures
            balances_wf(final(self).circulating_supply@),
            match r {
                Ok(u) => {
                    &&& mint_check(
                        old(self).token_data@,
                        old(self).circulating_supply@,
                        id.0 as u128,
                        amount,
                    ) is None
                    &&& final(self).token_data@ == old(self).token_data@
                    &&& final(self).circulating_supply@ == ({
                        let total = spec_supply_of(old(self).circulating_supply@, id.0 as u128)
                            + amount.atoms();
                        if total == 0 {
                            old(self).circulating_supply@.remove(id.0 as u128)
                        } else {
                            old(self).circulating_supply@.insert(
                                id.0 as u128,
                                Amount { atoms: total as u128 },
                            )
                        }
                    })
                    &&& u == TokensLedgerUndo::Minted(id.0 as u128, amount)
                    &&& undo_applicable(final(self).token_data@, final(self).circulating_supply@, u)
                    &&& spec_undo_ledger(
                        final(self).token_data@,
                        final(self).circulating_supply@,
                        u,
                    ) == (old(self).token_data@, old(self).circulating_supply@)
                },
                Err(e) => {
                    &&& mint_check(
                        old(self).token_data@,
                        old(self).circulating_supply@,
                        id.0 as u128,
                        amount,
                    ) == Some(e)
                    &&& final(self).token_data@ == old(self).token_data@
                    &&& final(self).circulating_supply@ == old(self).circulating_supply@
                },
            },
    {
        let key = id.0 as u128;
        let (frozen, locked, cap) = match self.token_data.get(&key) {
            Some(TokenData::FungibleToken(d)) => (
                d.frozen,
                d.locked,
                match d.total_supply {
                    TokenTotalSupply::Fixed(cap) => Some(cap),
                    TokenTotalSupply::Lockable => None,
                    TokenTotalSupply::Unlimited => None,
                },
            ),
            None => {
                return Err(TokensError::TokenNotFound);
            },
        };
        if frozen {
            return Err(TokensError::CannotMintFrozenToken);
        }
        if locked {
            return Err(TokensError::CannotMintFromLockedSupply);
        }
        let current = match self.circulating_supply.get(&key) {
            Some(c) => c.into_atoms(),
            None => 0,
        };
        if current > u128::MAX - amount.into_atoms() {
            return Err(TokensError::AmountOverflow);
        }
        let total = current + amount.into_atoms();
        if let Some(cap) = cap {
            if total > cap.into_atoms() {
                return Err(TokensError::MintExceedsSupplyLimit);
            }
        }
        let ghost s0 = self.circulating_supply@;
        if total == 0 {
            self.circulating_supply.remove(&key);
        } else {
            self.circulating_supply.insert(key, Amount::from_atoms(total));
        }
        proof {
            let u = TokensLedgerUndo::Minted(key, amount);
            let s1 = self.circulating_supply@;
            assert(spec_supply_of(s1, key) == current + amount.atoms() - amount.atoms()
                + amount.atoms());
            if current == 0 {
                assert(spec_undo_ledger(self.token_data@, s1, u).1 =~= s0);
            } else {
                assert(spec_undo_ledger(self.token_data@, s1, u).1 =~= s0);
            }
        }
        Ok(TokensLedgerUndo::Minted(key, amount))
    }

    /// Burns previously minted tokens.  Exact errors: an unknown token, a
    /// frozen token, or more than the circulating supply; otherwise the
    /// supply shrinks by exactly the burnt amount.
    pub fn unmint_tokens(&mut self, id: TokenId, amount: Amount) -> (r: Result<
        TokensLedgerUndo,
        TokensError,
    >)
        requires
            balances_wf(old(self).circulating_supply@),
        ensures
            balances_wf(final(self).circulating_supply@),
            match r {
                Ok(u) => {
                    &&& unmint_check(
                        old(self).token_data@,
                        old(self).circulating_supply@,
                        id.0 as u128,
                        amount,
                    ) is None
                    &&& final(self).token_data@ == old(self).token_data@
                    &&& final(self).circulating_supply@ == ({
                        let rest = spec_supply_of(old(self).circulating_supply@, id.0 as u128)
                            - amount.atoms();
                        if rest == 0 {
                            old(self).circulating_supply@.remove(id.0 as u128)
                        } else {
                            old(self).circulating_supply@.insert(
                                id.0 as u128,
                                Amount { atoms: rest as u128 },
                            )
                        }
                    })
                    &&& u == TokensLedgerUndo::Unminted(id.0 as u128, amount)
                    &&& undo_applicable(final(self).token_data@, final(self).circulating_supply@, u)
                    &&& spec_undo_ledger(
                        final(self).token_data@,
                        final(self).circulating_supply@,
                        u,
                    ) == (old(self).token_data@, old(self).circulating_supply@)
                },
                Err(e) => {
                    &&& unmint_check(
                        old(self).token_data@,
                        old(self).circulating_supply@,
                        id.0 as u128,
                        amount,
                    ) == Some(e)
                    &&& final(self).token_data@ == old(self).token_data@
                    &&& final(self).circulating_supply@ == old(self).circulating_supply@
                },
            },
    {
        let key = id.0 as u128;
        let frozen = match self.token_data.get(&key) {
            Some(TokenData::FungibleToken(d)) => d.frozen,
            None => {
                return Err(TokensError::TokenNotFound);
            },
        };
        if frozen {
            return Err(TokensError::CannotUnmintFrozenToken);
        }
        let current = match self.circulating_supply.get(&key) {
            Some(c) => c.into_atoms(),
            None => 0,
        };
        if amount.into_atoms() > current {
            return Err(TokensError::NotEnoughCirculatingSupply);
        }
        let rest = current - amount.into_atoms();
        let ghost s0 = self.circulating_supply@;
        if rest == 0 {
            self.circulating_supply.remove(&key);
        } else {
            self.circulating_supply.insert(key, Amount::from_atoms(rest));
        }
        proof {
            let u = TokensLedgerUndo::Unminted(key, amount);
            let s1 = self.circulating_supply@;
            if current == 0 {
                assert(spec_undo_ledger(self.token_data@, s1, u).1 =~= s0);
            } else {
                assert(spec_undo_ledger(self.token_data@, s1, u).1 =~= s0);
            }
        }
        Ok(TokensLedgerUndo::Unminted(key, amount))
    }

    /// Locks the circulating supply for good.  Exact errors: an unknown
    /// token, a frozen token, an already locked supply, or a policy that is
    /// not lockable.
    pub fn lock_circulating_supply(&mut self, id: TokenId) -> (r: Result<
        TokensLedgerUndo,
        TokensError,
    >)
        ensures
            match r {
                Ok(u) => {
                    &&& lock_check(old(self).token_data@, id.0 as u128) is None
                    &&& final(self).token_data@ == old(self).token_data@.insert(
                        id.0 as u128,
                        TokenData::FungibleToken(
                            FungibleTokenData {
                                locked: true,
                                ..spec_token_of(old(self).token_data@, id.0 as u128).unwrap()
                            },
                        ),
                    )
                    &&& final(self).circulating_supply@ == old(self).circulating_supply@
                    &&& u == TokensLedgerUndo::Locked(id.0 as u128)
                    &&& undo_applicable(final(self).token_data@, final(self).circulating_supply@, u)
                    &&& spec_undo_ledger(
                        final(self).token_data@,
                        final(self).circulating_supply@,
                        u,
                    ) == (old(self).token_data@, old(self).circulating_supply@)
                },
                Err(e) => {
                    &&& lock_check(old(self).token_data@, id.0 as u128) == Some(e)
                    &&& final(self).token_data@ == old(self).token_data@
                    &&& final(self).circulating_supply@ == old(self).circulating_supply@
                },
            },
    {
        let key = id.0 as u128;
        let (frozen, locked, lockable) = match self.token_data.get(&key) {
            Some(TokenData::FungibleToken(d)) => (
                d.frozen,
                d.locked,
                match d.total_supply {
                    TokenTotalSupply::Lockable => true,
                    TokenTotalSupply::Fixed(_) => false,
                    TokenTotalSupply::Unlimited => false,
                },
            ),
            None => {
                return Err(TokensError::TokenNotFound);
            },
        };
        if frozen {
            return Err(TokensError::CannotLockFrozenToken);
        }
        if locked {
            return Err(TokensError::SupplyIsAlreadyLocked);
        }
        if !lockable {
            return Err(TokensError::CannotLockNotLockableSupply);
        }
        let data = self.token_data.remove(&key).unwrap();
        let TokenData::FungibleToken(d) = data;
        let ghost d0 = d;
        self.token_data.insert(key, TokenData::FungibleToken(FungibleTokenData { locked: true, ..d }));
        proof {
            let u = TokensLedgerUndo::Locked(key);
            assert(spec_undo_ledger(self.token_data@, self.circulating_supply@, u).0
                =~= old(self).token_data@);
        }
        Ok(TokensLedgerUndo::Locked(key))
    }

    /// Freezes the token.  Exact errors: an unknown token, an already
    /// frozen token, or a token issued as not freezable; on success the
    /// freeze records whether unfreezing stays possible.
    pub fn freeze_token(&mut self, id: TokenId, is_unfreezable: IsTokenUnfreezable) -> (r: Result<
        TokensLedgerUndo,
        TokensError,
    >)
        ensures
            match r {
                Ok(u) => {
                    &&& freeze_check(old(self).token_data@, id.0 as u128) is None
                    &&& final(self).token_data@ == old(self).token_data@.insert(
                        id.0 as u128,
                        TokenData::FungibleToken(
                            FungibleTokenData {
                                frozen: true,
                                is_unfreezable,
                                ..spec_token_of(old(self).token_data@, id.0 as u128).unwrap()
                            },
                        ),
                    )
                    &&& final(self).circulating_supply@ == old(self).circulating_supply@
                    &&& u == TokensLedgerUndo::Frozen(
                        id.0 as u128,
                        spec_token_of(
                            old(self).token_data@,
                            id.0 as u128,
                        ).unwrap().is_unfreezable,
                    )
                    &&& undo_applicable(final(self).token_data@, final(self).circulating_supply@, u)
                    &&& spec_undo_ledger(
                        final(self).token_data@,
                        final(self).circulating_supply@,
                        u,
                    ) == (old(self).token_data@, old(self).circulating_supply@)
                },
                Err(e) => {
                    &&& freeze_check(old(self).token_data@, id.0 as u128) == Some(e)
                    &&& final(self).token_data@ == old(self).token_data@
                    &&& final(self).circulating_supply@ == old(self).circulating_supply@
                },
            },
    {
        let key = id.0 as u128;
        let (frozen, freezable) = match self.token_data.get(&key) {
            Some(TokenData::FungibleToken(d)) => (
                d.frozen,
                match d.is_freezable {
                    IsTokenFreezable::Yes => true,
                    IsTokenFreezable::No => false,
                },
            ),
            None => {
                return Err(TokensError::TokenNotFound);
            },
        };
        if frozen {
            return Err(TokensError::TokenIsAlreadyFrozen);
        }
        if !freezable {
            return Err(TokensError::CannotFreezeNotFreezableToken);
        }
        let data = self.token_data.remove(&key).unwrap();
        let TokenData::FungibleToken(d) = data;
        let former_unfreezable = d.is_unfreezable;
        self.token_data.insert(
            key,
            TokenData::FungibleToken(FungibleTokenData { frozen: true, is_unfreezable, ..d }),
        );
        proof {
            let u = TokensLedgerUndo::Frozen(key, former_unfreezable);
            assert(spec_undo_ledger(self.token_data@, self.circulating_supply@, u).0
                =~= old(self).token_data@);
        }
        Ok(TokensLedgerUndo::Frozen(key, former_unfreezable))
    }

    /// Unfreezes the token.  Exact errors: an unknown token, a token that
    /// is not frozen, or a freeze that forbade unfreezing.
    pub fn unfreeze_token(&mut self, id: TokenId) -> (r: Result<TokensLedgerUndo, TokensError>)
        ensures
            match r {
                Ok(u) => {
                    &&& unfreeze_check(old(self).token_data@, id.0 as u128) is None
                    &&& final(self).token_data@ == old(self).token_data@.insert(
                        id.0 as u128,
                        TokenData::FungibleToken(
                            FungibleTokenData {
                                frozen: false,
                                ..spec_token_of(old(self).token_data@, id.0 as u128).unwrap()
                            },
                        ),
                    )
                    &&& final(self).circulating_supply@ == old(self).circulating_supply@
                    &&& u == TokensLedgerUndo::Unfrozen(
                        id.0 as u128,
                        spec_token_of(
                            old(self).token_data@,
                            id.0 as u128,
                        ).unwrap().is_unfreezable,
                    )
                    &&& undo_applicable(final(self).token_data@, final(self).circulating_supply@, u)
                    &&& spec_undo_ledger(
                        final(self).token_data@,
                        final(self).circulating_supply@,
                        u,
                    ) == (old(self).token_data@, old(self).circulating_supply@)
                },
                Err(e) => {
                    &&& unfreeze_check(old(self).token_data@, id.0 as u128) == Some(e)
                    &&& final(self).token_data@ == old(self).token_data@
                    &&& final(self).circulating_supply@ == old(self).circulating_supply@
                },
            },
    {
        let key = id.0 as u128;
        let (frozen, unfreezable) = match self.token_data.get(&key) {
            Some(TokenData::FungibleToken(d)) => (
                d.frozen,
                match d.is_unfreezable {
                    IsTokenUnfreezable::Yes => true,
                    IsTokenUnfreezable::No => false,
                },
            ),
            None => {
                return Err(TokensError::TokenNotFound);
            },
        };
        if !frozen {
            return Err(TokensError::CannotUnfreezeTokenThatIsNotFrozen);
        }
        if !unfreezable {
            return Err(TokensError::CannotUnfreezeNotUnfreezableToken);
        }
        let data = self.token_data.remove(&key).unwrap();
        let TokenData::FungibleToken(d) = data;
        let former_unfreezable = d.is_unfreezable;
        self.token_data.insert(
            key,
            TokenData::FungibleToken(FungibleTokenData { frozen: false, ..d }),
        );
        proof {
            let u = TokensLedgerUndo::Unfrozen(key, former_unfreezable);
            assert(spec_undo_ledger(self.token_data@, self.circulating_supply@, u).0
                =~= old(self).token_data@);
        }
        Ok(TokensLedgerUndo::Unfrozen(key, former_unfreezable))
    }

    /// Hands the token to a new authority.  Exact errors: an unknown token
    /// or a frozen token.
    pub fn change_token_authority(&mut self, id: TokenId, new_authority: Destination) -> (r:
        Result<TokensLedgerUndo, TokensError>)
        ensures
            match r {
                Ok(u) => {
                    &&& change_authority_check(old(self).token_data@, id.0 as u128) is None
                    &&& final(self).token_data@ == old(self).token_data@.insert(
                        id.0 as u128,
                        TokenData::FungibleToken(
                            FungibleTokenData {
                                authority: new_authority,
                                ..spec_token_of(old(self).token_data@, id.0 as u128).unwrap()
                            },
                        ),
                    )
                    &&& final(self).circulating_supply@ == old(self).circulating_supply@
                    &&& u == TokensLedgerUndo::AuthorityChanged(
                        id.0 as u128,
                        spec_token_of(old(self).token_data@, id.0 as u128).unwrap().authority,
                    )
                    &&& undo_applicable(final(self).token_data@, final(self).circulating_supply@, u)
                    &&& spec_undo_ledger(
                        final(self).token_data@,
                        final(self).circulating_supply@,
                        u,
                    ) == (old(self).token_data@, old(self).circulating_supply@)
                },
                Err(e) => {
                    &&& change_authority_check(old(self).token_data@, id.0 as u128) == Some(e)
                    &&& final(self).token_data@ == old(self).token_data@
                    &&& final(self).circulating_supply@ == old(self).circulating_supply@
                },
            },
    {
        let key = id.0 as u128;
        let frozen = match self.token_data.get(&key) {
            Some(TokenData::FungibleToken(d)) => d.frozen,
            None => {
                return Err(TokensError::TokenNotFound);
            },
        };
        if frozen {
            return Err(TokensError::CannotChangeAuthorityForFrozenToken);
        }
        let data = self.token_data.remove(&key).unwrap();
        let TokenData::FungibleToken(d) = data;
        let former_authority = d.authority;
        self.token_data.insert(
            key,
            TokenData::FungibleToken(FungibleTokenData { authority: new_authority, ..d }),
        );
        proof {
            let u = TokensLedgerUndo::AuthorityChanged(key, former_authority);
            assert(spec_undo_ledger(self.token_data@, self.circulating_supply@, u).0
                =~= old(self).token_data@);
        }
        Ok(TokensLedgerUndo::AuthorityChanged(key, former_authority))
    }

    /// Applies one undo record.  A record that does not fit the state (one
    /// not produced against it) changes nothing; every operation's contract
    /// guarantees that the record it returned fits.
    pub fn undo_op(&mut self, u: TokensLedgerUndo)
        ensures
            balances_wf(old(self).circulating_supply@) ==> balances_wf(
                final(self).circulating_supply@,
            ),
            undo_applicable(old(self).token_data@, old(self).circulating_supply@, u) ==> (
            final(self).token_data@, final(self).circulating_supply@) == spec_undo_ledger(
                old(self).token_data@,
                old(self).circulating_supply@,
                u,
            ),
            !undo_applicable(old(self).token_data@, old(self).circulating_supply@, u)
                ==> final(self).token_data@ == old(self).token_data@
                && final(self).circulating_supply@ == old(self).circulating_supply@,
    {
        let fits: bool = match u {
            TokensLedgerUndo::Issued(k) => self.token_data.contains_key(&k),
            TokensLedgerUndo::Minted(k, a) => {
                let current = match self.circulating_supply.get(&k) {
                    Some(c) => c.into_atoms(),
                    None => 0,
                };
                a.into_atoms() <= current
            },
            TokensLedgerUndo::Unminted(k, a) => {
                let current = match self.circulating_supply.get(&k) {
                    Some(c) => c.into_atoms(),
                    None => 0,
                };
                current <= u128::MAX - a.into_atoms()
            },
            TokensLedgerUndo::Locked(k) => self.token_data.contains_key(&k),
            TokensLedgerUndo::Frozen(k, _) => self.token_data.contains_key(&k),
            TokensLedgerUndo::Unfrozen(k, _) => self.token_data.contains_key(&k),
            TokensLedgerUndo::AuthorityChanged(k, _) => self.token_data.contains_key(&k),
        };
        if !fits {
            return ;
        }
        match u {
            TokensLedgerUndo::Issued(k) => {
                self.token_data.remove(&k);
            },
            TokensLedgerUndo::Minted(k, a) => {
                let current = match self.circulating_supply.get(&k) {
                    Some(c) => c.into_atoms(),
                    None => 0,
                };
                let rest = current - a.into_atoms();
                if rest == 0 {
                    self.circulating_supply.remove(&k);
                } else {
                    self.circulating_supply.insert(k, Amount::from_atoms(rest));
                }
            },
            TokensLedgerUndo::Unminted(k, a) => {
                let current = match self.circulating_supply.get(&k) {
                    Some(c) => c.into_atoms(),
                    None => 0,
                };
                let total = current + a.into_atoms();
                if total == 0 {
                    self.circulating_supply.remove(&k);
                } else {
                    self.circulating_supply.insert(k, Amount::from_atoms(total));
                }
            },
            TokensLedgerUndo::Locked(k) => {
                let data = self.token_data.remove(&k).unwrap();
                let TokenData::FungibleToken(d) = data;
                self.token_data.insert(
                    k,
                    TokenData::FungibleToken(FungibleTokenData { locked: false, ..d }),
                );
            },
            TokensLedgerUndo::Frozen(k, unfreezable) => {
                let data = self.token_data.remove(&k).unwrap();
                let TokenData::FungibleToken(d) = data;
                self.token_data.insert(
                    k,
                    TokenData::FungibleToken(
                        FungibleTokenData { frozen: false, is_unfreezable: unfreezable, ..d },
                    ),
                );
            },
            TokensLedgerUndo::Unfrozen(k, unfreezable) => {
                let data = self.token_data.remove(&k).unwrap();
                let TokenData::FungibleToken(d) = data;
                self.token_data.insert(
                    k,
                    TokenData::FungibleToken(
                        FungibleTokenData { frozen: true, is_unfreezable: unfreezable, ..d },
                    ),
                );
            },
            TokensLedgerUndo::AuthorityChanged(k, authority) => {
                let data = self.token_data.remove(&k).unwrap();
                let TokenData::FungibleToken(d) = data;
                self.token_data.insert(k, TokenData::FungibleToken(FungibleTokenData { authority, ..d }));
            },
        }
        proof {
            match u {
                TokensLedgerUndo::Issued(k) => {},
                TokensLedgerUndo::Minted(k, a) => {},
                TokensLedgerUndo::Unminted(k, a) => {},
                TokensLedgerUndo::Locked(k) => {
                    assert(self.token_data@ =~= spec_undo_ledger(
                        old(self).token_data@,
                        old(self).circulating_supply@,
                        u,
                    ).0);
                },
                TokensLedgerUndo::Frozen(k, unfreezable) => {
                    assert(self.token_data@ =~= spec_undo_ledger(
                        old(self).token_data@,
                        old(self).circulating_supply@,
                        u,
                    ).0);
                },
                TokensLedgerUndo::Unfrozen(k, unfreezable) => {
                    assert(self.token_data@ =~= spec_undo_ledger(
                        old(self).token_data@,
                        old(self).circulating_supply@,
                        u,
                    ).0);
                },
                TokensLedgerUndo::AuthorityChanged(k, authority) => {
                    assert(self.token_data@ =~= spec_undo_ledger(
                        old(self).token_data@,
                        old(self).circulating_supply@,
                        u,
                    ).0);
                },
            }
        }
    }
}

/// Whether a whole undo log fits the state, each record fitting the state
/// the records after it restore (the log is applied last record first).
pub open spec fn tokens_log_applicable(
    t: Map<u128, TokenData>,
    s: Map<u128, Amount>,
    log: Seq<TokensLedgerUndo>,
) -> bool
    decreases log.len(),
{
    if log.len() == 0 {
        true
    } else {
        undo_applicable(t, s, log.last()) && tokens_log_applicable(
            spec_undo_ledger(t, s, log.last()).0,
            spec_undo_ledger(t, s, log.last()).1,
            log.drop_last(),
        )
    }
}

/// The state a whole undo log restores, last record first.
pub open spec fn spec_undo_tokens_log(
    t: Map<u128, TokenData>,
    s: Map<u128, Amount>,
    log: Seq<TokensLedgerUndo>,
) -> (Map<u128, TokenData>, Map<u128, Amount>)
    decreases log.len(),
{
    if log.len() == 0 {
        (t, s)
    } else {
        spec_undo_tokens_log(
            spec_undo_ledger(t, s, log.last()).0,
            spec_undo_ledger(t, s, log.last()).1,
            log.drop_last(),
        )
    }
}

impl TokensAccountingData {
    /// Applies a whole undo log, last record first.  The restoration is
    /// exact when the log fits the state, which connecting guarantees of
    /// the log it recorded.
    pub fn undo_log(&mut self, undo: Vec<TokensLedgerUndo>)
        ensures
            balances_wf(old(self).circulating_supply@) ==> balances_wf(
                final(self).circulating_supply@,
            ),
            tokens_log_applicable(old(self).token_data@, old(self).circulating_supply@, undo@)
                ==> (final(self).token_data@, final(self).circulating_supply@)
                == spec_undo_tokens_log(
                old(self).token_data@,
                old(self).circulating_supply@,
                undo@,
            ),
    {
        let ghost t0 = self.token_data@;
        let ghost s0 = self.circulating_supply@;
        let ghost log0 = undo@;
        let mut log = undo;
        let ghost fits0 = tokens_log_applicable(t0, s0, log0);
        while log.len() > 0
            invariant
                log@.len() <= log0.len(),
                log@ == log0.take(log@.len() as int),
                fits0 == tokens_log_applicable(t0, s0, log0),
                balances_wf(s0) ==> balances_wf(self.circulating_supply@),
                fits0 ==> tokens_log_applicable(
                    self.token_data@,
                    self.circulating_supply@,
                    log@,
                ),
                fits0 ==> spec_undo_tokens_log(self.token_data@, self.circulating_supply@, log@)
                    == spec_undo_tokens_log(t0, s0, log0),
            decreases log@.len(),
        {
            let ghost i = log@.len() - 1;
            let u = log.pop().unwrap();
            proof {
                assert(log0.take(i + 1).last() == log0[i]);
                assert(log0.take(i + 1).drop_last() =~= log0.take(i));
                assert(log@ =~= log0.take(i));
            }
            self.undo_op(u);
        }
        proof {
            assert(log0.take(0) =~= Seq::<TokensLedgerUndo>::empty());
        }
    }
}

} // verus!