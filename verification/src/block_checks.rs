//! Stateless block header checks: timestamp bounds against the median time
//! of the recent past, and the shape of the consensus data against the
//! rule active at the block's height.

use vstd::prelude::*;

use crate::chain::ConsensusData;

verus! {

/// Errors of the stateless header checks.
#[derive(Clone, Copy, Debug, PartialEq, Eq, Structural)]
pub enum BlockCheckError {
    /// The timestamp does not get past the median of the recent blocks.
    BlockTimeOrderInvalid,
    /// The timestamp lies further in the future than the allowed offset.
    BlockFromTheFuture,
    /// The consensus data's shape is not the one the height calls for.
    ConsensusTypeMismatch,
}

/// The consensus rule a height-indexed schedule may call for.
#[derive(Clone, Copy, Debug, PartialEq, Eq, Structural)]
pub enum ConsensusKind {
    NoneRequired,
    RequirePoW,
    RequirePoS,
}

/// Checks a block timestamp: it must lie strictly after the median time of
/// the recent blocks, and at most the configured offset past the current
/// time.  Exact errors for both violations, the ordering checked first.
pub fn check_block_timestamp(
    median_time_past: u64,
    max_future_offset: u64,
    current_time: u64,
    block_timestamp: u64,
) -> (r: Result<(), BlockCheckError>)
    ensures
        match r {
            Ok(_) => block_timestamp > median_time_past && block_timestamp <= current_time
                + max_future_offset,
            Err(e) => {
                &&& (e == BlockCheckError::BlockTimeOrderInvalid || e
                    == BlockCheckError::BlockFromTheFuture)
                &&& (e == BlockCheckError::BlockTimeOrderInvalid <==> block_timestamp
                    <= median_time_past)
                &&& (e == BlockCheckError::BlockFromTheFuture <==> block_timestamp
                    > median_time_past && block_timestamp > current_time + max_future_offset)
            },
        },
{
    if block_timestamp <= median_time_past {
        return Err(BlockCheckError::BlockTimeOrderInvalid);
    }
    if current_time > u64::MAX - max_future_offset {
        // The allowed window reaches past the clock's range: nothing is
        // too far in the future.
        return Ok(());
    }
    if block_timestamp > current_time + max_future_offset {
        return Err(BlockCheckError::BlockFromTheFuture);
    }
    Ok(())
}

/// Whether consensus data has the shape a rule calls for.
pub open spec fn spec_consensus_shape_matches(kind: ConsensusKind, data: ConsensusData) -> bool {
    match kind {
        ConsensusKind::NoneRequired => data is IgnoreConsensus,
        ConsensusKind::RequirePoW => data is PoW,
        ConsensusKind::RequirePoS => data is PoS,
    }
}

/// Checks the consensus data's shape against the rule active at the
/// block's height.  Rejected exactly on a mismatch.
pub fn check_consensus_data_shape(kind: ConsensusKind, data: &ConsensusData) -> (r: Result<
    (),
    BlockCheckError,
>)
    ensures
        r is Ok <==> spec_consensus_shape_matches(kind, *data),
        r is Err ==> r == Err::<(), BlockCheckError>(BlockCheckError::ConsensusTypeMismatch),
{
    let matches_shape = match (kind, data) {
        (ConsensusKind::NoneRequired, ConsensusData::IgnoreConsensus) => true,
        (ConsensusKind::RequirePoW, ConsensusData::PoW(_)) => true,
        (ConsensusKind::RequirePoS, ConsensusData::PoS(_)) => true,
        _ => false,
    };
    if matches_shape {
        Ok(())
    } else {
        Err(BlockCheckError::ConsensusTypeMismatch)
    }
}

} // verus!
