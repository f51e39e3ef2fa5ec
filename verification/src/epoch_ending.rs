//! What a shard does at the end of an epoch.
use vstd::prelude::*;

use crate::common::{Epoch, Shard};

verus! {

/// The action taken at the end of `epoch`.
#[derive(Debug, Clone, Copy, PartialEq, Eq, Structural)]
pub struct EpochEnding {
    pub epoch: Epoch,
    pub action: EpochEndAction,
}

/// How a shard carries on into the next epoch.
#[derive(Debug, Clone, Copy, PartialEq, Eq, Structural)]
pub enum EpochEndAction {
    /// The shard stays as it is.
    ContinueWithCurrentShard,
    /// The shard merges into `shard`.
    MergeIntoShard { shard: Shard },
    /// The shard splits into `shard_a` and `shard_b`.
    SplitInTwo { shard_a: Shard, shard_b: Shard },
}

} // verus!
