use vstd::prelude::*;
use crate::bytes::{Address, Bytes32};
use crate::rpc::EVMLog;

verus! {

/// How the block range of a log query grows after a success.
#[derive(Debug, Clone, Copy, PartialEq, Eq, Structural)]
pub enum BlockRangeIncrease {
    Multiplicative,
    Additive,
}

/// The number of blocks that the next log query asks for, adapted to how the
/// RPC endpoint copes.
#[derive(Debug, Clone, Copy, PartialEq, Eq, Structural)]
pub struct BlockRange {
    pub increase: BlockRangeIncrease,
    pub size: u64,
}

/// The logs of the blocks up to `to_block`.
#[derive(Debug, Clone)]
pub struct PartialLogs {
    pub to_block: u64,
    pub logs: Vec<EVMLog>,
}

/// The number of blocks from `from_block` to `to_block`.
pub open spec fn range_size_spec(from_block: u64, to_block: u64) -> int {
    to_block - from_block + 1
}

fn range_size(from_block: u64, to_block: u64) -> (r: u64)
    requires
        from_block <= to_block,
        to_block - from_block < u64::MAX,
    ensures
        r == range_size_spec(from_block, to_block),
{
    to_block - from_block + 1
}

impl BlockRange {
    /// The range that a fetcher starts with.
    pub open spec fn new_spec() -> BlockRange {
        BlockRange { increase: BlockRangeIncrease::Multiplicative, size: 1 }
    }

    /// The range after a failed or slow query of `from_block..=to_block`.
    pub open spec fn after_failure_spec(self, from_block: u64, to_block: u64) -> BlockRange {
        BlockRange {
            increase: BlockRangeIncrease::Additive,
            size: if range_size_spec(from_block, to_block) / 2 >= 1 {
                (range_size_spec(from_block, to_block) / 2) as u64
            } else {
                1
            },
        }
    }

    /// The range after a quick query of `from_block..=to_block`.
    pub open spec fn after_success_spec(self, from_block: u64, to_block: u64) -> BlockRange {
        BlockRange {
            increase: self.increase,
            size: if self.size <= range_size_spec(from_block, to_block) {
                match self.increase {
                    BlockRangeIncrease::Multiplicative => if self.size * 2 <= u64::MAX {
                        (self.size * 2) as u64
                    } else {
                        u64::MAX
                    },
                    BlockRangeIncrease::Additive => if self.size + 1 <= u64::MAX {
                        (self.size + 1) as u64
                    } else {
                        u64::MAX
                    },
                }
            } else {
                self.size
            },
        }
    }

    /// A range of one block that doubles after each success.
    pub fn new() -> (r: BlockRange)
        ensures
            r.increase == BlockRangeIncrease::Multiplicative,
            r.size == 1,
            r == BlockRange::new_spec(),
    {
        BlockRange { increase: BlockRangeIncrease::Multiplicative, size: 1 }
    }

    /// After a failed or slow query of `from_block..=to_block`: half that
    /// range, at least one block, growing by one block from now on.
    pub fn on_failure(&mut self, from_block: u64, to_block: u64)
        requires
            from_block <= to_block,
            to_block - from_block < u64::MAX,
        ensures
            *final(self) == old(self).after_failure_spec(from_block, to_block),
            final(self).increase == BlockRangeIncrease::Additive,
            final(self).size >= 1,
            final(self).size == if range_size_spec(from_block, to_block) / 2 >= 1 {
                range_size_spec(from_block, to_block) / 2
            } else {
                1
            },
    {
        self.increase = BlockRangeIncrease::Additive;
        let half = range_size(from_block, to_block) / 2;
        self.size = if half >= 1 {
            half
        } else {
            1
        };
    }

    /// After a quick query of `from_block..=to_block` that used the whole
    /// range: a larger range, doubled or by one block more, saturating.
    pub fn on_success(&mut self, from_block: u64, to_block: u64)
        requires
            from_block <= to_block,
            to_block - from_block < u64::MAX,
        ensures
            *final(self) == old(self).after_success_spec(from_block, to_block),
            final(self).increase == old(self).increase,
            final(self).size >= old(self).size,
            final(self).size == if old(self).size <= range_size_spec(from_block, to_block) {
                match old(self).increase {
                    BlockRangeIncrease::Multiplicative => if old(self).size * 2 <= u64::MAX {
                        (old(self).size * 2) as u64
                    } else {
                        u64::MAX
                    },
                    BlockRangeIncrease::Additive => if old(self).size + 1 <= u64::MAX {
                        (old(self).size + 1) as u64
                    } else {
                        u64::MAX
                    },
                }
            } else {
                old(self).size
            },
    {
        if self.size <= range_size(from_block, to_block) {
            match self.increase {
                BlockRangeIncrease::Multiplicative => {
                    self.size = if self.size > u64::MAX / 2 {
                        u64::MAX
                    } else {
                        self.size * 2
                    };
                },
                BlockRangeIncrease::Additive => self.size = self.size.saturating_add(1),
            }
        }
    }

    /// The last block of the next query from `from_block`, at most
    /// `max_to_block`.
    pub fn query_to_block(&self, from_block: u64, max_to_block: u64) -> (r: u64)
        ensures
            r == query_to_block_spec(from_block, self.size, max_to_block),
            self.size >= 1 && from_block <= max_to_block && from_block < u64::MAX ==> from_block <= r
                <= max_to_block,
    {
        let sum = from_block.saturating_add(self.size);
        let end = sum.saturating_sub(1);
        if end < max_to_block {
            end
        } else {
            max_to_block
        }
    }
}

/// The last block of a query of `size` blocks from `from_block`, saturating,
/// and at most `max_to_block`.
pub open spec fn query_to_block_spec(from_block: u64, size: u64, max_to_block: u64) -> u64 {
    let sum: u64 = if from_block + size > u64::MAX {
        u64::MAX
    } else {
        (from_block + size) as u64
    };
    let end: u64 = if sum >= 1 {
        (sum - 1) as u64
    } else {
        0
    };
    if end < max_to_block {
        end
    } else {
        max_to_block
    }
}

/// A query that takes longer than this, in milliseconds, counts as slow.
pub const SOFT_TIMEOUT_MILLIS: u64 = 5000u64;

/// The kinds of failure of an RPC call.
#[derive(Debug, Clone, Copy, PartialEq, Eq, Structural)]
pub enum RpcErrorKind {
    ErrorResponse,
    InternalError,
    SerdeJsonError,
    NotFound,
    InvalidInput,
    UnexpectedChainId,
}

/// How a log query ended.
#[derive(Debug, Clone, Copy, PartialEq, Eq, Structural)]
pub enum GetLogsOutcome {
    /// The logs came, after so many milliseconds.
    Succeeded { elapsed_millis: u64 },
    /// The query failed.
    Failed(RpcErrorKind),
}

/// What to do after a log query.
#[derive(Debug, Clone, Copy, PartialEq, Eq, Structural)]
pub enum GetLogsStep {
    /// The logs are the answer.
    Done,
    /// Query again, with the range that is now set.
    Retry,
    /// Give up with the error.
    GiveUp,
}

/// Whether a smaller range may avoid a failure of this kind.
pub open spec fn is_retryable(kind: RpcErrorKind) -> bool {
    kind == RpcErrorKind::ErrorResponse || kind == RpcErrorKind::InternalError || kind
        == RpcErrorKind::SerdeJsonError
}

/// Fetches the logs of some contracts in block ranges whose size adapts to
/// how the node answers.
pub struct SmartGetLogs {
    pub addresses: Vec<Address>,
    pub first_topics: Vec<Bytes32>,
    pub block_range: BlockRange,
}

impl SmartGetLogs {
    /// A fetcher that starts with ranges of one block.
    pub fn new(addresses: Vec<Address>, first_topics: Vec<Bytes32>) -> (r: SmartGetLogs)
        ensures
            r.addresses@ == addresses@,
            r.first_topics@ == first_topics@,
            r.block_range == BlockRange::new_spec(),
    {
        SmartGetLogs { addresses, first_topics, block_range: BlockRange::new() }
    }

    /// After the query of `from_block..=to_block` ended as `outcome`: how the
    /// range changes, and whether the logs are the answer, the query is to be
    /// repeated, or the error is the answer. A success that took longer than
    /// the soft timeout shrinks the range; a failure that a smaller range may
    /// avoid shrinks it and retries, unless it was one block already.
    pub fn after_query(&mut self, from_block: u64, to_block: u64, outcome: GetLogsOutcome) -> (r: GetLogsStep)
        requires
            from_block <= to_block,
            to_block - from_block < u64::MAX,
            old(self).block_range.size >= 1,
        ensures
            final(self).addresses@ == old(self).addresses@,
            final(self).first_topics@ == old(self).first_topics@,
            final(self).block_range.size >= 1,
            match outcome {
                GetLogsOutcome::Succeeded { elapsed_millis } => r == GetLogsStep::Done && if elapsed_millis
                    > SOFT_TIMEOUT_MILLIS {
                    final(self).block_range == old(self).block_range.after_failure_spec(from_block, to_block)
                } else {
                    final(self).block_range == old(self).block_range.after_success_spec(from_block, to_block)
                },
                GetLogsOutcome::Failed(kind) => if is_retryable(kind) && old(self).block_range.size != 1 {
                    r == GetLogsStep::Retry && final(self).block_range == old(
                        self,
                    ).block_range.after_failure_spec(from_block, to_block)
                } else {
                    r == GetLogsStep::GiveUp && final(self).block_range == old(self).block_range
                },
            },
    {
        match outcome {
            GetLogsOutcome::Succeeded { elapsed_millis } => {
                if elapsed_millis > SOFT_TIMEOUT_MILLIS {
                    self.block_range.on_failure(from_block, to_block);
                } else {
                    self.block_range.on_success(from_block, to_block);
                }
                GetLogsStep::Done
            },
            GetLogsOutcome::Failed(kind) => {
                let retryable = match kind {
                    RpcErrorKind::ErrorResponse | RpcErrorKind::InternalError
                    | RpcErrorKind::SerdeJsonError => true,
                    _ => false,
                };
                if retryable && self.block_range.size != 1 {
                    self.block_range.on_failure(from_block, to_block);
                    GetLogsStep::Retry
                } else {
                    GetLogsStep::GiveUp
                }
            },
        }
    }
}

} // verus!
