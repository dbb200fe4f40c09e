//! Per-transaction total checks and the reading of legacy token outputs.

use vstd::prelude::*;

use crate::amount::Amount;
use crate::amounts_map::{lemma_get_le_max_pub, spec_get, spec_has, AmountsMap};
use crate::chain::{CoinOrTokenId, TokenId, Transaction};

verus! {

/// Errors of legacy token handling.
#[derive(Clone, Copy, Debug, PartialEq, Eq, Structural)]
pub enum TokensError {
    TokenIdCantBeCalculated,
}

/// Errors of the transferred-amount check.
#[derive(Clone, Copy, Debug, PartialEq, Eq, Structural)]
pub enum ConnectTransactionError {
    MissingOutputOrSpent,
    AttemptToPrintMoney(Amount, Amount),
    TokensError(TokensError),
}

/// The value carried by a legacy (pre-accounting) output.
#[derive(Clone, Copy, Debug, PartialEq, Eq, Structural)]
pub enum LegacyOutputValue {
    Coin(Amount),
    Token(LegacyTokenData),
}

/// The legacy token payloads.
#[derive(Clone, Copy, Debug, PartialEq, Eq, Structural)]
pub enum LegacyTokenData {
    TokenTransferV1(TokenId, Amount),
    TokenIssuanceV1(Amount),
    NftIssuanceV1,
}

/// The token a legacy issuance creates: derived from the issuing
/// transaction, and only defined when the transaction has an input.
pub open spec fn spec_token_id_of(tx: Transaction) -> Option<TokenId> {
    if tx.inputs@.len() > 0 {
        Some(TokenId(tx.id))
    } else {
        None
    }
}

/// The token identifier of an issuing transaction, if it has one.
pub fn token_id(tx: &Transaction) -> (r: Option<TokenId>)
    ensures
        r == spec_token_id_of(*tx),
{
    if tx.inputs.len() > 0 {
        Some(TokenId(tx.id))
    } else {
        None
    }
}

/// The first violation a transferred-amount scan finds, walking the output
/// currencies in order: a currency the inputs lack at all, or one whose
/// output total exceeds its input total; `None` when everything is covered.
pub open spec fn spec_transfer_check(
    inputs: Seq<(u128, Amount)>,
    outputs: Seq<(u128, Amount)>,
) -> Option<ConnectTransactionError>
    decreases outputs.len(),
{
    if outputs.len() == 0 {
        None
    } else if !spec_has(inputs, outputs[0].0) {
        Some(ConnectTransactionError::MissingOutputOrSpent)
    } else if outputs[0].1.atoms() > spec_get(inputs, outputs[0].0) {
        Some(
            ConnectTransactionError::AttemptToPrintMoney(
                Amount { atoms: spec_get(inputs, outputs[0].0) as u128 },
                outputs[0].1,
            ),
        )
    } else {
        spec_transfer_check(inputs, outputs.drop_first())
    }
}

/// Checks that no currency's outputs exceed its inputs.  Succeeds exactly
/// when every output currency has an input entry that covers it; the first
/// violation is reported exactly: a shortfall with both totals, a missing
/// entry on its own.
pub fn check_transferred_amount(
    inputs_total_map: &AmountsMap,
    outputs_total_map: &AmountsMap,
) -> (r: Result<(), ConnectTransactionError>)
    requires
        inputs_total_map.wf(),
        outputs_total_map.wf(),
    ensures
        r == (match spec_transfer_check(inputs_total_map.seq(), outputs_total_map.seq()) {
            None => Ok::<(), ConnectTransactionError>(()),
            Some(e) => Err(e),
        }),
        r is Ok <==> forall|j: int|
            0 <= j < outputs_total_map.seq().len() ==> spec_has(
                inputs_total_map.seq(),
                (#[trigger] outputs_total_map.seq()[j]).0,
            ) && outputs_total_map.seq()[j].1.atoms() <= spec_get(
                inputs_total_map.seq(),
                outputs_total_map.seq()[j].0,
            ),
{
    let ghost ins = inputs_total_map.seq();
    let ghost outs = outputs_total_map.seq();
    proof {
        assert(outs.skip(0) =~= outs);
    }
    let n = outputs_total_map.len();
    let mut i: usize = 0;
    while i < n
        invariant
            i <= n,
            n == outputs_total_map.seq().len(),
            inputs_total_map.wf(),
            outputs_total_map.wf(),
            ins == inputs_total_map.seq(),
            outs == outputs_total_map.seq(),
            spec_transfer_check(ins, outs.skip(i as int)) == spec_transfer_check(ins, outs),
            forall|j: int|
                0 <= j < i ==> spec_has(
                    inputs_total_map.seq(),
                    (#[trigger] outputs_total_map.seq()[j]).0,
                ) && outputs_total_map.seq()[j].1.atoms() <= spec_get(
                    inputs_total_map.seq(),
                    outputs_total_map.seq()[j].0,
                ),
        decreases n - i,
    {
        let ghost gi = i as int;
        proof {
            assert(outs.skip(gi)[0] == outs[gi]);
            assert(outs.skip(gi).drop_first() =~= outs.skip(gi + 1));
        }
        let key = outputs_total_map.key_at(i);
        let outputs_total = outputs_total_map.value_at(i);
        let (found, _) = inputs_total_map.search_pub(key);
        if !found {
            return Err(ConnectTransactionError::MissingOutputOrSpent);
        }
        let inputs_total = inputs_total_map.get(key);
        if outputs_total.into_atoms() > inputs_total.into_atoms() {
            proof {
                lemma_get_le_max_pub(ins, key);
            }
            return Err(ConnectTransactionError::AttemptToPrintMoney(
                inputs_total,
                outputs_total,
            ));
        }
        i = i + 1;
    }
    proof {
        assert(outs.skip(n as int) =~= Seq::<(u128, Amount)>::empty());
    }
    Ok(())
}

/// Reads the currency and amount an output carries.  An issuance counts
/// only when the issuing transaction is given; it then needs a computable
/// token identifier.
pub fn get_output_token_id_and_amount(
    output_value: &LegacyOutputValue,
    include_issuance: Option<&Transaction>,
) -> (r: Result<Option<(CoinOrTokenId, Amount)>, TokensError>)
    ensures
        match *output_value {
            LegacyOutputValue::Coin(amount) => r == Ok::<
                Option<(CoinOrTokenId, Amount)>,
                TokensError,
            >(Some((CoinOrTokenId::Coin, amount))),
            LegacyOutputValue::Token(data) => match data {
                LegacyTokenData::TokenTransferV1(token_id, amount) => r == Ok::<
                    Option<(CoinOrTokenId, Amount)>,
                    TokensError,
                >(Some((CoinOrTokenId::TokenId(token_id), amount))),
                LegacyTokenData::TokenIssuanceV1(amount_to_issue) => match include_issuance {
                    Some(tx) => match spec_token_id_of(*tx) {
                        Some(id) => r == Ok::<
                            Option<(CoinOrTokenId, Amount)>,
                            TokensError,
                        >(Some((CoinOrTokenId::TokenId(id), amount_to_issue))),
                        None => r == Err::<
                            Option<(CoinOrTokenId, Amount)>,
                            TokensError,
                        >(TokensError::TokenIdCantBeCalculated),
                    },
                    None => r == Ok::<
                        Option<(CoinOrTokenId, Amount)>,
                        TokensError,
                    >(None::<(CoinOrTokenId, Amount)>),
                },
                LegacyTokenData::NftIssuanceV1 => match include_issuance {
                    Some(tx) => match spec_token_id_of(*tx) {
                        Some(id) => r == Ok::<
                            Option<(CoinOrTokenId, Amount)>,
                            TokensError,
                        >(Some((CoinOrTokenId::TokenId(id), Amount { atoms: 1 }))),
                        None => r == Err::<
                            Option<(CoinOrTokenId, Amount)>,
                            TokensError,
                        >(TokensError::TokenIdCantBeCalculated),
                    },
                    None => r == Ok::<
                        Option<(CoinOrTokenId, Amount)>,
                        TokensError,
                    >(None::<(CoinOrTokenId, Amount)>),
                },
            },
        },
{
    match output_value {
        LegacyOutputValue::Coin(amount) => Ok(Some((CoinOrTokenId::Coin, *amount))),
        LegacyOutputValue::Token(token_data) => match token_data {
            LegacyTokenData::TokenTransferV1(tid, amount) => Ok(
                Some((CoinOrTokenId::TokenId(*tid), *amount)),
            ),
            LegacyTokenData::TokenIssuanceV1(amount_to_issue) => match include_issuance {
                Some(tx) => match token_id(tx) {
                    Some(tid) => Ok(Some((CoinOrTokenId::TokenId(tid), *amount_to_issue))),
                    None => Err(TokensError::TokenIdCantBeCalculated),
                },
                None => Ok(None),
            },
            LegacyTokenData::NftIssuanceV1 => match include_issuance {
                Some(tx) => match token_id(tx) {
                    Some(tid) => Ok(Some((CoinOrTokenId::TokenId(tid), Amount::from_atoms(1)))),
                    None => Err(TokensError::TokenIdCantBeCalculated),
                },
                None => Ok(None),
            },
        },
    }
}

/// Reads the currency and amount an input's consumed output carries.  An
/// issuance needs the token identifier its issuing transaction got.
pub fn get_input_token_id_and_amount(
    output_value: &LegacyOutputValue,
    issuance_token_id: Option<TokenId>,
) -> (r: Result<(CoinOrTokenId, Amount), ConnectTransactionError>)
    ensures
        match *output_value {
            LegacyOutputValue::Coin(amount) => r == Ok::<
                (CoinOrTokenId, Amount),
                ConnectTransactionError,
            >((CoinOrTokenId::Coin, amount)),
            LegacyOutputValue::Token(data) => match data {
                LegacyTokenData::TokenTransferV1(token_id, amount) => r == Ok::<
                    (CoinOrTokenId, Amount),
                    ConnectTransactionError,
                >((CoinOrTokenId::TokenId(token_id), amount)),
                LegacyTokenData::TokenIssuanceV1(amount_to_issue) => match issuance_token_id {
                    Some(id) => r == Ok::<
                        (CoinOrTokenId, Amount),
                        ConnectTransactionError,
                    >((CoinOrTokenId::TokenId(id), amount_to_issue)),
                    None => r == Err::<
                        (CoinOrTokenId, Amount),
                        ConnectTransactionError,
                    >(ConnectTransactionError::TokensError(TokensError::TokenIdCantBeCalculated)),
                },
                LegacyTokenData::NftIssuanceV1 => match issuance_token_id {
                    Some(id) => r == Ok::<
                        (CoinOrTokenId, Amount),
                        ConnectTransactionError,
                    >((CoinOrTokenId::TokenId(id), Amount { atoms: 1 })),
                    None => r == Err::<
                        (CoinOrTokenId, Amount),
                        ConnectTransactionError,
                    >(ConnectTransactionError::TokensError(TokensError::TokenIdCantBeCalculated)),
                },
            },
        },
{
    match output_value {
        LegacyOutputValue::Coin(amount) => Ok((CoinOrTokenId::Coin, *amount)),
        LegacyOutputValue::Token(token_data) => match token_data {
            LegacyTokenData::TokenTransferV1(tid, amount) => Ok(
                (CoinOrTokenId::TokenId(*tid), *amount),
            ),
            LegacyTokenData::TokenIssuanceV1(amount_to_issue) => match issuance_token_id {
                Some(tid) => Ok((CoinOrTokenId::TokenId(tid), *amount_to_issue)),
                None => Err(
                    ConnectTransactionError::TokensError(TokensError::TokenIdCantBeCalculated),
                ),
            },
            LegacyTokenData::NftIssuanceV1 => match issuance_token_id {
                Some(tid) => Ok((CoinOrTokenId::TokenId(tid), Amount::from_atoms(1))),
                None => Err(
                    ConnectTransactionError::TokensError(TokensError::TokenIdCantBeCalculated),
                ),
            },
        },
    }
}

} // verus!
