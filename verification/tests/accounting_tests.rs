use std::collections::BTreeMap;

use chaincore::amount::{Amount, SignedAmount};
use chaincore::amounts_map::AmountsMap;
use chaincore::chain::{AccountNonce, Destination, PoolId, TokenId};
use chaincore::delta::{merge_data_delta, undo_data_delta, DataDelta, DeltaDataCollection};
use chaincore::delta_amount::{merge_amount_delta, undo_amount_delta, DeltaAmountCollection};
use chaincore::mempool::TxStatus;
use chaincore::scanner;
use chaincore::tokens::{
    FungibleTokenData, IsTokenFreezable, IsTokenUnfreezable, TokenData, TokenTotalSupply,
    TokensAccountingData, TokensAccountingDeltaData,
};
use chaincore::tokens_ledger::{TokensError, TokensLedgerUndo};
use chaincore::tokens::IsTokenFrozen;
use chaincore::chain::{OutputValue, TxOutput};

#[test]
fn amount_checked_arithmetic() {
    let a = Amount::from_atoms(10);
    let b = Amount::from_atoms(3);
    assert_eq!(a.add(b), Some(Amount::from_atoms(13)));
    assert_eq!(a.sub(b), Some(Amount::from_atoms(7)));
    assert_eq!(b.sub(a), None);
    assert_eq!(Amount::from_atoms(u128::MAX).add(Amount::from_atoms(1)), None);
    assert_eq!(SignedAmount::from_atoms(-5).add(SignedAmount::from_atoms(5)), Some(SignedAmount::from_atoms(0)));
    assert_eq!(SignedAmount::from_atoms(i128::MIN).neg(), None);
}

#[test]
fn amounts_map_insert_and_decrease() {
    let mut m = AmountsMap::new();
    m.insert_or_increase(5, Amount::from_atoms(100)).unwrap();
    m.insert_or_increase(2, Amount::from_atoms(30)).unwrap();
    m.insert_or_increase(5, Amount::from_atoms(1)).unwrap();
    assert_eq!(m.get(5).into_atoms(), 101);
    assert_eq!(m.get(2).into_atoms(), 30);
    assert_eq!(m.get(9).into_atoms(), 0);
    assert!(m.decrease_or_err(2, Amount::from_atoms(31)).is_err());
    m.decrease_or_err(2, Amount::from_atoms(30)).unwrap();
    assert_eq!(m.get(2).into_atoms(), 0);
    assert!(m.decrease_or_err(9, Amount::from_atoms(1)).is_err());
}

#[test]
fn data_delta_merge_and_undo_restores_exactly() {
    let mut base: BTreeMap<u128, u64> = BTreeMap::new();
    base.insert(1, 10);
    base.insert(2, 20);
    let snapshot = base.clone();

    let mut delta: DeltaDataCollection<u64> = DeltaDataCollection::new();
    delta.push_op(3, DataDelta::Create(30));
    delta.push_op(1, DataDelta::Modify(11));
    delta.push_op(2, DataDelta::Delete);
    let undo = merge_data_delta(&mut base, delta).unwrap();
    assert_eq!(base.get(&3), Some(&30));
    assert_eq!(base.get(&1), Some(&11));
    assert_eq!(base.get(&2), None);

    undo_data_delta(&mut base, undo);
    assert_eq!(base, snapshot);
}

#[test]
fn data_delta_rejects_double_create() {
    let mut base: BTreeMap<u128, u64> = BTreeMap::new();
    base.insert(1, 10);
    let snapshot = base.clone();
    let mut delta: DeltaDataCollection<u64> = DeltaDataCollection::new();
    delta.push_op(1, DataDelta::Create(99));
    assert!(merge_data_delta(&mut base, delta).is_err());
    assert_eq!(base, snapshot);

    let mut delta: DeltaDataCollection<u64> = DeltaDataCollection::new();
    delta.push_op(7, DataDelta::Delete);
    assert!(merge_data_delta(&mut base, delta).is_err());
    assert_eq!(base, snapshot);

    // Modifying after a delete within the same merge is an error, and the
    // partially applied steps are rolled back before reporting it.
    let mut delta: DeltaDataCollection<u64> = DeltaDataCollection::new();
    delta.push_op(1, DataDelta::Delete);
    delta.push_op(1, DataDelta::Modify(5));
    assert!(merge_data_delta(&mut base, delta).is_err());
    assert_eq!(base, snapshot);
}

#[test]
fn amount_delta_merge_and_undo_restores_exactly() {
    let mut base: BTreeMap<u128, Amount> = BTreeMap::new();
    base.insert(1, Amount::from_atoms(100));
    let snapshot = base.clone();

    let mut delta = DeltaAmountCollection::new();
    delta.add_unsigned(1, Amount::from_atoms(50)).unwrap();
    delta.sub_unsigned(1, Amount::from_atoms(150)).unwrap();
    delta.add_unsigned(9, Amount::from_atoms(7)).unwrap();
    let undo = merge_amount_delta(&mut base, delta).unwrap();
    // The key drained to zero is pruned, not stored.
    assert_eq!(base.get(&1), None);
    assert_eq!(base.get(&9), Some(&Amount::from_atoms(7)));

    undo_amount_delta(&mut base, undo);
    assert_eq!(base, snapshot);
}

#[test]
fn amount_delta_underflow_is_typed_and_rolls_back() {
    let mut base: BTreeMap<u128, Amount> = BTreeMap::new();
    base.insert(1, Amount::from_atoms(10));
    let snapshot = base.clone();
    let mut delta = DeltaAmountCollection::new();
    delta.add_unsigned(1, Amount::from_atoms(5)).unwrap();
    delta.sub_unsigned(1, Amount::from_atoms(50)).unwrap();
    let r = merge_amount_delta(&mut base, delta);
    assert!(r.is_err());
    assert_eq!(base, snapshot);
}

#[test]
fn delta_collections_merge_by_concatenation() {
    let mut a: DeltaDataCollection<u64> = DeltaDataCollection::new();
    a.push_op(1, DataDelta::Create(1));
    let mut b: DeltaDataCollection<u64> = DeltaDataCollection::new();
    b.push_op(2, DataDelta::Create(2));
    let former = a.merge_with_delta(b);
    assert_eq!(a.len(), 2);
    a.truncate_to(former);
    assert_eq!(a.len(), 1);
}

fn lockable_token() -> FungibleTokenData {
    FungibleTokenData::new_unchecked(
        vec![b'T', b'K', b'N'],
        8,
        vec![b'u', b'r', b'i'],
        TokenTotalSupply::Lockable,
        false,
        IsTokenFreezable::Yes,
        IsTokenUnfreezable::No,
        false,
        Destination::Address(1),
    )
}

#[test]
fn fungible_token_lock_freeze_unfreeze() {
    let t = lockable_token();
    assert_eq!(t.number_of_decimals(), 8);
    assert!(!t.is_locked());
    let t = t.try_lock().unwrap();
    assert!(t.is_locked());

    let t = lockable_token();
    let t = t.try_freeze(IsTokenUnfreezable::Yes).unwrap();
    assert!(t.is_frozen());
    let t = t.try_unfreeze().unwrap();
    assert!(!t.is_frozen());

    let fixed = FungibleTokenData::new_unchecked(
        vec![b'F'],
        0,
        vec![],
        TokenTotalSupply::Fixed(Amount::from_atoms(5)),
        false,
        IsTokenFreezable::No,
        IsTokenUnfreezable::No,
        false,
        Destination::Address(1),
    );
    assert!(fixed.try_lock().is_err());
    let fixed = FungibleTokenData::new_unchecked(
        vec![b'F'],
        0,
        vec![],
        TokenTotalSupply::Fixed(Amount::from_atoms(5)),
        false,
        IsTokenFreezable::No,
        IsTokenUnfreezable::No,
        false,
        Destination::Address(1),
    );
    assert!(fixed.try_freeze(IsTokenUnfreezable::Yes).is_err());
}

#[test]
fn lockable_supply_rejects_mint_after_lock() {
    // A `Lockable` token mints freely, then locking its supply makes any
    // further mint an error while the circulating supply stays put.
    let mut ledger = TokensAccountingData::new();
    let id = TokenId(77);
    ledger
        .issue_token(id, TokenData::FungibleToken(lockable_token()))
        .unwrap();
    ledger.mint_tokens(id, Amount::from_atoms(1000)).unwrap();
    assert_eq!(ledger.get_circulating_supply(id).into_atoms(), 1000);
    ledger.lock_circulating_supply(id).unwrap();
    let third = ledger.mint_tokens(id, Amount::from_atoms(1));
    assert_eq!(third.unwrap_err(), TokensError::CannotMintFromLockedSupply);
    assert_eq!(ledger.get_circulating_supply(id).into_atoms(), 1000);
}

#[test]
fn fixed_supply_caps_minting() {
    let mut ledger = TokensAccountingData::new();
    let id = TokenId(5);
    let fixed = FungibleTokenData::new_unchecked(
        vec![b'F'],
        0,
        vec![],
        TokenTotalSupply::Fixed(Amount::from_atoms(500)),
        false,
        IsTokenFreezable::No,
        IsTokenUnfreezable::No,
        false,
        Destination::Address(1),
    );
    ledger.issue_token(id, TokenData::FungibleToken(fixed)).unwrap();
    ledger.mint_tokens(id, Amount::from_atoms(400)).unwrap();
    assert_eq!(
        ledger.mint_tokens(id, Amount::from_atoms(200)).unwrap_err(),
        TokensError::MintExceedsSupplyLimit
    );
    assert_eq!(
        ledger.mint_tokens(TokenId(9), Amount::from_atoms(1)).unwrap_err(),
        TokensError::TokenNotFound
    );
    assert_eq!(
        ledger.unmint_tokens(id, Amount::from_atoms(500)).unwrap_err(),
        TokensError::NotEnoughCirculatingSupply
    );
    ledger.unmint_tokens(id, Amount::from_atoms(400)).unwrap();
    assert_eq!(ledger.get_circulating_supply(id).into_atoms(), 0);
}

#[test]
fn tokens_undo_restores_state() {
    let mut ledger = TokensAccountingData::new();
    let id = TokenId(3);
    let u1 = ledger
        .issue_token(id, TokenData::FungibleToken(lockable_token()))
        .unwrap();
    let u2 = ledger.mint_tokens(id, Amount::from_atoms(10)).unwrap();
    let u3 = ledger.freeze_token(id, IsTokenUnfreezable::Yes).unwrap();
    assert!(matches!(u3, TokensLedgerUndo::Frozen(_, _)));
    ledger.undo_op(u3);
    ledger.undo_op(u2);
    assert_eq!(ledger.get_circulating_supply(id).into_atoms(), 0);
    ledger.undo_op(u1);
    assert!(ledger.get_token_data(id).is_none());
}

#[test]
fn freeze_gates_token_operations() {
    let mut ledger = TokensAccountingData::new();
    let id = TokenId(4);
    ledger
        .issue_token(id, TokenData::FungibleToken(lockable_token()))
        .unwrap();
    ledger.freeze_token(id, IsTokenUnfreezable::No).unwrap();
    assert_eq!(
        ledger.mint_tokens(id, Amount::from_atoms(1)).unwrap_err(),
        TokensError::CannotMintFrozenToken
    );
    assert_eq!(
        ledger.unmint_tokens(id, Amount::from_atoms(1)).unwrap_err(),
        TokensError::CannotUnmintFrozenToken
    );
    assert_eq!(
        ledger.lock_circulating_supply(id).unwrap_err(),
        TokensError::CannotLockFrozenToken
    );
    assert_eq!(
        ledger
            .change_token_authority(id, Destination::Address(9))
            .unwrap_err(),
        TokensError::CannotChangeAuthorityForFrozenToken
    );
    // The freeze forbade unfreezing.
    assert_eq!(
        ledger.unfreeze_token(id).unwrap_err(),
        TokensError::CannotUnfreezeNotUnfreezableToken
    );
}

#[test]
fn merge_with_delta_concatenates_token_deltas() {
    let mut a = TokensAccountingDeltaData::new();
    let mut b = TokensAccountingDeltaData::new();
    b.token_data.push_op(1, DataDelta::Create(TokenData::FungibleToken(lockable_token())));
    b.circulating_supply.add_unsigned(1, Amount::from_atoms(5)).unwrap();
    let undo = a.merge_with_delta(b);
    assert_eq!(a.token_data.len(), 1);
    assert_eq!(a.circulating_supply.len(), 1);
    a.undo_merge(undo);
    assert_eq!(a.token_data.len(), 0);
    assert_eq!(a.circulating_supply.len(), 0);
}

#[test]
fn tx_status_answers() {
    assert!(TxStatus::InMempool.in_mempool());
    assert!(!TxStatus::InMempool.in_orphan_pool());
    assert!(TxStatus::InOrphanPool.in_orphan_pool());
    assert!(!TxStatus::InOrphanPool.in_mempool());
}

#[test]
fn scanner_delegation_stake_and_spend_share() {
    let d = scanner::Delegation::new(
        Destination::Address(8),
        PoolId(2),
        Amount::from_atoms(1000),
        AccountNonce(0),
    );
    assert_eq!(d.balance().into_atoms(), 1000);
    assert_eq!(d.next_nonce().value(), 0);
    assert_eq!(d.pool_id(), PoolId(2));
    let d = d.stake(Amount::from_atoms(500));
    assert_eq!(d.balance().into_atoms(), 1500);
    assert_eq!(d.next_nonce().value(), 0);
    let d = d.spend_share(Amount::from_atoms(700), AccountNonce(0));
    assert_eq!(d.balance().into_atoms(), 800);
    assert_eq!(d.next_nonce().value(), 1);
}

#[test]
fn scanner_token_records() {
    let t = scanner::FungibleTokenData {
        token_ticker: vec![b'X'],
        number_of_decimals: 2,
        metadata_uri: vec![],
        circulating_supply: Amount::from_atoms(10),
        total_supply: TokenTotalSupply::Unlimited,
        is_locked: false,
        frozen: IsTokenFrozen::No(IsTokenFreezable::Yes),
        authority: Destination::Address(1),
    };
    let t = t.mint_tokens(Amount::from_atoms(5));
    assert_eq!(t.circulating_supply.into_atoms(), 15);
    let t = t.unmint_tokens(Amount::from_atoms(3));
    assert_eq!(t.circulating_supply.into_atoms(), 12);
    let t = t.freeze(IsTokenUnfreezable::Yes);
    assert!(matches!(t.frozen, IsTokenFrozen::Yes(IsTokenUnfreezable::Yes)));
    let t = t.unfreeze();
    assert!(matches!(t.frozen, IsTokenFrozen::No(IsTokenFreezable::Yes)));
    let t = t.lock();
    assert!(t.is_locked);
    let t = t.change_authority(Destination::Address(2));
    assert_eq!(t.authority, Destination::Address(2));
}

#[test]
fn scanner_utxo_roundtrip() {
    let out = TxOutput::Transfer(OutputValue::Coin(Amount::from_atoms(5)), Destination::Address(1));
    let u = scanner::Utxo::new(out.clone(), false);
    assert!(!u.spent());
    assert_eq!(u.output(), &out);
    assert_eq!(u.into_output(), out);
}
