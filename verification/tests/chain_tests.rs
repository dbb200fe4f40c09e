use chaincore::amount::Amount;
use chaincore::builder::{
    anyonecanspend_address, create_chain_config_with_default_staking_pool, create_new_outputs,
    create_utxo_data, empty_witness, filter_outputs, get_output_value, outputs_from_block,
    outputs_from_genesis,
};
use chaincore::chain::{
    Block, BlockHeight, BlockId, BlockReward, ConsensusData, Destination, InputWitness,
    OutPointSourceId, OutputValue, SignedTransaction, Transaction, TxInput, TxOutput,
};
use chaincore::chain_index::{BlockStatus, ChainIndex, PropertyQueryError};
use chaincore::orphans::{OrphanAddError, OrphanBlocksPool};
use chaincore::token_checks::{
    check_is_text_alphanumeric, check_media_hash, check_nft_description, check_nft_name,
    check_token_ticker, is_rfc3986_valid_symbol, is_uri_valid, TokenIssuanceError,
};
use chaincore::block_checks::{check_block_timestamp, check_consensus_data_shape, BlockCheckError, ConsensusKind};
use chaincore::wallet::{
    group_outputs, group_outputs_with_issuance_fee, group_utxos_for_input,
    PartiallySignedTransaction, WalletError,
};

fn test_config() -> chaincore::config::ChainConfig {
    chaincore::config::ChainConfig {
        maturity_distance: 100,
        token_supply_change_fee: Amount::from_atoms(50),
        token_freeze_fee: Amount::from_atoms(60),
        token_change_authority_fee: Amount::from_atoms(70),
        data_deposit_fee: Amount::from_atoms(20),
        fungible_token_issuance_fee: Amount::from_atoms(100),
        nft_issuance_fee: Amount::from_atoms(110),
        min_hash_len: 4,
        max_hash_len: 8,
        token_max_ticker_len: 5,
        token_max_name_len: 10,
        token_max_description_len: 100,
        token_max_uri_len: 200,
        min_stake_pool_pledge: Amount::from_atoms(1000),
        accounts_balances_v1_from: 0,
    }
}

fn simple_block(id: u64, prev: u64) -> Block {
    Block {
        id: BlockId(id),
        prev_block_hash: BlockId(prev),
        timestamp: 0,
        consensus_data: ConsensusData::IgnoreConsensus,
        reward: BlockReward::new(Vec::new()),
        transactions: Vec::new(),
    }
}

#[test]
fn get_ancestor_walks_to_the_exact_height() {
    let mut index = ChainIndex::new(BlockId(0));
    index.add_block_index(BlockId(1), BlockId(0), ConsensusData::IgnoreConsensus).unwrap();
    index.add_block_index(BlockId(2), BlockId(1), ConsensusData::IgnoreConsensus).unwrap();
    index.add_block_index(BlockId(3), BlockId(2), ConsensusData::IgnoreConsensus).unwrap();
    let a = index.get_ancestor(BlockId(3), BlockHeight(1)).unwrap();
    assert_eq!(a.block_id, BlockId(1));
    assert_eq!(a.block_height, BlockHeight(1));
    let a = index.get_ancestor(BlockId(3), BlockHeight(3)).unwrap();
    assert_eq!(a.block_id, BlockId(3));
}

#[test]
fn get_ancestor_invalid_height_is_rejected() {
    let mut index = ChainIndex::new(BlockId(0));
    index.add_block_index(BlockId(1), BlockId(0), ConsensusData::IgnoreConsensus).unwrap();
    let e = index.get_ancestor(BlockId(1), BlockHeight(2)).unwrap_err();
    assert_eq!(e, PropertyQueryError::InvalidAncestorHeight);
    let e = index.get_ancestor(BlockId(9), BlockHeight(0)).unwrap_err();
    assert_eq!(e, PropertyQueryError::BlockNotFound);
}

#[test]
fn last_common_ancestor_of_two_branches() {
    let mut index = ChainIndex::new(BlockId(0));
    index.add_block_index(BlockId(1), BlockId(0), ConsensusData::IgnoreConsensus).unwrap();
    // One branch of two blocks, one branch of three, both on block 1.
    index.add_block_index(BlockId(2), BlockId(1), ConsensusData::IgnoreConsensus).unwrap();
    index.add_block_index(BlockId(3), BlockId(2), ConsensusData::IgnoreConsensus).unwrap();
    index.add_block_index(BlockId(12), BlockId(1), ConsensusData::IgnoreConsensus).unwrap();
    index.add_block_index(BlockId(13), BlockId(12), ConsensusData::IgnoreConsensus).unwrap();
    index.add_block_index(BlockId(14), BlockId(13), ConsensusData::IgnoreConsensus).unwrap();
    let lca = index.last_common_ancestor(BlockId(3), BlockId(14)).unwrap();
    assert_eq!(lca.block_id, BlockId(1));
    let lca = index.last_common_ancestor(BlockId(3), BlockId(3)).unwrap();
    assert_eq!(lca.block_id, BlockId(3));
}

#[test]
fn fork_choice_prefers_more_trust_and_ties_deterministically() {
    let mut index = ChainIndex::new(BlockId(0));
    let heavy = index
        .add_block_index(BlockId(1), BlockId(0), ConsensusData::PoW(10))
        .unwrap();
    let light = index
        .add_block_index(BlockId(2), BlockId(0), ConsensusData::PoW(1))
        .unwrap();
    let tied = index
        .add_block_index(BlockId(3), BlockId(0), ConsensusData::PoW(1))
        .unwrap();
    assert_eq!(index.preferred_tip(heavy, light).block_id, BlockId(1));
    assert_eq!(index.preferred_tip(light, heavy).block_id, BlockId(1));
    // Equal trust keeps the incumbent, whichever block is the candidate.
    assert_eq!(index.preferred_tip(light, tied).block_id, BlockId(3));
    assert_eq!(index.preferred_tip(tied, light).block_id, BlockId(2));
}

#[test]
fn block_status_can_be_set() {
    let mut index = ChainIndex::new(BlockId(0));
    index.add_block_index(BlockId(1), BlockId(0), ConsensusData::IgnoreConsensus).unwrap();
    index.set_block_status(BlockId(1), BlockStatus::Valid).unwrap();
    assert_eq!(index.get_block_index(BlockId(1)).unwrap().status, BlockStatus::Valid);
    assert!(index.set_block_status(BlockId(9), BlockStatus::Failed).is_err());
}

#[test]
fn test_orphans_chains() {
    let mut pool = OrphanBlocksPool::new(3);
    assert_eq!(pool.len(), 0);
    pool.add_block(simple_block(10, 1)).unwrap();
    pool.add_block(simple_block(11, 1)).unwrap();
    pool.add_block(simple_block(12, 2)).unwrap();
    assert_eq!(pool.len(), 3);
    assert!(pool.is_already_an_orphan(&BlockId(10)));
    let e = pool.add_block(simple_block(10, 1)).unwrap_err();
    assert_eq!(e, OrphanAddError::BlockAlreadyInOrphanList(BlockId(10)));

    // At capacity the oldest orphan leaves.
    pool.add_block(simple_block(13, 2)).unwrap();
    assert_eq!(pool.len(), 3);
    assert!(!pool.is_already_an_orphan(&BlockId(10)));

    let children = pool.take_all_children_of(&BlockId(2));
    assert_eq!(children.len(), 2);
    assert!(children.iter().all(|b| b.prev_block_hash == BlockId(2)));
    assert_eq!(pool.len(), 1);
    assert!(pool.is_already_an_orphan(&BlockId(11)));

    pool.clear();
    assert_eq!(pool.len(), 0);
}

#[test]
fn ticker_and_uri_checks() {
    let cfg = test_config();
    assert!(check_token_ticker(&cfg, &vec![b'A', b'B', b'C']).is_ok());
    assert_eq!(
        check_token_ticker(&cfg, &vec![]).unwrap_err(),
        TokenIssuanceError::IssueErrorInvalidTickerLength
    );
    assert_eq!(
        check_token_ticker(&cfg, &vec![b'A'; 6]).unwrap_err(),
        TokenIssuanceError::IssueErrorInvalidTickerLength
    );
    assert_eq!(
        check_token_ticker(&cfg, &vec![b'A', b'!']).unwrap_err(),
        TokenIssuanceError::IssueErrorTickerHasNoneAlphaNumericChar
    );
    // Invalid UTF-8 is not alphanumeric text.
    assert!(!check_is_text_alphanumeric(&vec![0xff, 0xfe]));
    assert!(check_is_text_alphanumeric(&vec![b'a', b'1']));

    assert!(is_uri_valid(&vec![b'h', b't', b't', b'p', b':', b'/', b'/', b'a']));
    assert!(!is_uri_valid(&vec![b'a', b' ', b'b']));
    assert!(is_rfc3986_valid_symbol('~'));
    assert!(!is_rfc3986_valid_symbol(' '));

    assert!(check_media_hash(&cfg, &vec![0u8; 5]).is_ok());
    assert_eq!(
        check_media_hash(&cfg, &vec![0u8; 2]).unwrap_err(),
        TokenIssuanceError::MediaHashTooShort
    );
    assert_eq!(
        check_media_hash(&cfg, &vec![0u8; 9]).unwrap_err(),
        TokenIssuanceError::MediaHashTooLong
    );
    assert_eq!(
        check_nft_name(&cfg, &vec![]).unwrap_err(),
        TokenIssuanceError::IssueErrorInvalidNameLength
    );
    assert!(check_nft_name(&cfg, &vec![b'N']).is_ok());
    assert_eq!(
        check_nft_description(&cfg, &vec![b'a', b'-']).unwrap_err(),
        TokenIssuanceError::IssueErrorDescriptionHasNoneAlphaNumericChar
    );
    assert!(check_nft_description(&cfg, &vec![b'd']).is_ok());
}

#[test]
fn grouping_outputs_by_currency() {
    let cfg = test_config();
    let outputs = vec![
        TxOutput::Transfer(
            OutputValue::Coin(Amount::from_atoms(10)),
            Destination::Address(1),
        ),
        TxOutput::Transfer(
            OutputValue::TokenV1(chaincore::chain::TokenId(4), Amount::from_atoms(7)),
            Destination::Address(1),
        ),
        TxOutput::IssueNft(chaincore::chain::TokenId(9), Destination::Address(1)),
    ];
    // Plain grouping counts no issuance.
    let m = group_outputs(&cfg, &outputs).unwrap();
    assert_eq!(m.get(0).into_atoms(), 10);
    assert_eq!(m.get(5).into_atoms(), 7);
    assert_eq!(m.get(10).into_atoms(), 0);
    // With issuance fees the NFT issuance charges coins.
    let m = group_outputs_with_issuance_fee(&cfg, &outputs).unwrap();
    assert_eq!(m.get(0).into_atoms(), 120);
    // As the wallet's own spendable outputs, the NFT is one token.
    let m = group_utxos_for_input(&cfg, &outputs).unwrap();
    assert_eq!(m.get(10).into_atoms(), 1);
    let unsupported = vec![TxOutput::Burn(OutputValue::Coin(Amount::from_atoms(1)))];
    assert_eq!(
        group_utxos_for_input(&cfg, &unsupported).unwrap_err(),
        WalletError::UnsupportedTransactionOutput
    );
}

#[test]
fn partially_signed_transaction_counts() {
    let tx = Transaction::new(
        7,
        0,
        vec![
            TxInput::from_utxo(OutPointSourceId::Transaction(1), 0),
            TxInput::from_utxo(OutPointSourceId::Transaction(1), 1),
        ],
        vec![],
    );
    let pst = PartiallySignedTransaction::new(
        tx.clone(),
        vec![Some(InputWitness::NoSignature(None)), None],
    );
    assert_eq!(pst.count_inputs(), 2);
    assert_eq!(pst.count_completed_signatures(), 1);
    assert!(!pst.is_fully_signed());
    let e = pst.into_signed_tx();
    assert!(matches!(e, Err(WalletError::FailedToConvertPartiallySignedTx(_))));

    let pst = PartiallySignedTransaction::new(
        tx.clone(),
        vec![
            Some(InputWitness::NoSignature(None)),
            Some(InputWitness::Standard(5)),
        ],
    );
    assert!(pst.is_fully_signed());
    let signed = pst.into_signed_tx().unwrap();
    assert_eq!(signed.transaction(), &tx);

    let pst = PartiallySignedTransaction::new(tx.clone(), vec![Some(InputWitness::Standard(5))]);
    let (back, w) = pst.take();
    assert_eq!(back, tx);
    assert_eq!(w.len(), 1);
}

#[test]
fn builder_helpers_shape_outputs() {
    assert_eq!(anyonecanspend_address(), Destination::AnyoneCanSpend);
    assert_eq!(
        empty_witness(vec![1, 2]),
        InputWitness::NoSignature(Some(vec![1, 2]))
    );
    let out = TxOutput::Transfer(
        OutputValue::Coin(Amount::from_atoms(9)),
        Destination::Address(1),
    );
    assert_eq!(
        get_output_value(&out),
        Some(OutputValue::Coin(Amount::from_atoms(9)))
    );
    assert_eq!(
        get_output_value(&TxOutput::DataDeposit(vec![])),
        None
    );

    let made = create_utxo_data(
        OutPointSourceId::Transaction(3),
        0,
        out.clone(),
        Amount::from_atoms(4),
    )
    .unwrap();
    assert_eq!(
        made.2,
        TxOutput::Transfer(
            OutputValue::Coin(Amount::from_atoms(5)),
            Destination::AnyoneCanSpend
        )
    );
    assert!(create_utxo_data(
        OutPointSourceId::Transaction(3),
        0,
        out,
        Amount::from_atoms(9),
    )
    .is_none());

    let blk = Block {
        id: BlockId(5),
        prev_block_hash: BlockId(4),
        timestamp: 0,
        consensus_data: ConsensusData::IgnoreConsensus,
        reward: BlockReward::new(vec![TxOutput::DataDeposit(vec![])]),
        transactions: vec![SignedTransaction::new(
            Transaction::new(10, 0, vec![], vec![]),
            vec![],
        )
        .unwrap()],
    };
    let outs = outputs_from_block(blk);
    assert_eq!(outs.len(), 2);
    assert_eq!(outs[0].0, OutPointSourceId::BlockReward(BlockId(5)));
    assert_eq!(outs[1].0, OutPointSourceId::Transaction(10));

    let outs = outputs_from_genesis(simple_block(0, 0));
    assert_eq!(outs.len(), 1);

    let (pair, pool_id) = create_chain_config_with_default_staking_pool(1, 2);
    assert_eq!(pool_id, chaincore::chain::PoolId(1));
    assert_eq!(pair.1.reward.outputs().len(), 2);
}


#[test]
fn filtering_keeps_transaction_outputs_when_any() {
    let reward_pair = (
        OutPointSourceId::BlockReward(BlockId(1)),
        vec![TxOutput::DataDeposit(vec![])],
    );
    let tx_pair = (OutPointSourceId::Transaction(9), vec![TxOutput::DataDeposit(vec![])]);
    let kept = filter_outputs(vec![reward_pair.clone(), tx_pair.clone()]);
    assert_eq!(kept.len(), 1);
    assert_eq!(kept[0].0, OutPointSourceId::Transaction(9));
    // Without transaction outputs the reward outputs stay.
    let kept = filter_outputs(vec![reward_pair]);
    assert_eq!(kept.len(), 1);
    assert_eq!(kept[0].0, OutPointSourceId::BlockReward(BlockId(1)));
}

#[test]
fn respending_outputs_skips_what_cannot_be_respent() {
    let src = OutPointSourceId::Transaction(3);
    let outs = vec![
        TxOutput::Transfer(
            OutputValue::Coin(Amount::from_atoms(10)),
            Destination::Address(1),
        ),
        TxOutput::DataDeposit(vec![]),
        TxOutput::Transfer(
            OutputValue::Coin(Amount::from_atoms(5)),
            Destination::Address(1),
        ),
    ];
    let spends = vec![
        Amount::from_atoms(4),
        Amount::from_atoms(0),
        Amount::from_atoms(5),
    ];
    let made = create_new_outputs(src, outs, &spends);
    // The deposit cannot be respent; the second transfer is spent whole and
    // leaves nothing to carry forward.
    assert_eq!(made.len(), 1);
    assert_eq!(
        made[0].2,
        TxOutput::Transfer(
            OutputValue::Coin(Amount::from_atoms(6)),
            Destination::AnyoneCanSpend
        )
    );
}

#[test]
fn blocks_from_the_future() {
    
    assert!(check_block_timestamp(100, 50, 200, 150).is_ok());
    assert_eq!(
        check_block_timestamp(100, 50, 200, 100).unwrap_err(),
        BlockCheckError::BlockTimeOrderInvalid
    );
    assert_eq!(
        check_block_timestamp(100, 50, 200, 251).unwrap_err(),
        BlockCheckError::BlockFromTheFuture
    );
    assert!(check_block_timestamp(100, 50, 200, 250).is_ok());
}

#[test]
fn consensus_type() {
    
    assert!(check_consensus_data_shape(ConsensusKind::RequirePoW, &ConsensusData::PoW(5)).is_ok());
    assert!(check_consensus_data_shape(
        ConsensusKind::NoneRequired,
        &ConsensusData::IgnoreConsensus
    )
    .is_ok());
    assert_eq!(
        check_consensus_data_shape(ConsensusKind::RequirePoS, &ConsensusData::PoW(5)).unwrap_err(),
        BlockCheckError::ConsensusTypeMismatch
    );
}
