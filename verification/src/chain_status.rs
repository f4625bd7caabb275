use vstd::prelude::*;
use crate::rpc::Block;

verus! {

/// Calls `SystemTime::now()` and reads the seconds since the Unix epoch.
/// Trusted for nothing: the clock may say anything.
#[verifier::external_body]
pub(crate) fn unix_time_now_secs() -> u64 {
    std::time::SystemTime::now().duration_since(std::time::UNIX_EPOCH).map(|d| d.as_secs()).unwrap_or(0)
}

/// The age in seconds of a block with timestamp `block_timestamp` at the Unix
/// time `now`; zero for a block from the future.
pub open spec fn age_at_spec(now: u64, block_timestamp: u64) -> u64 {
    if now >= block_timestamp {
        (now - block_timestamp) as u64
    } else {
        0
    }
}

/// The age in seconds of a block at the Unix time `now`.
pub fn age_at(now: u64, block_timestamp: u64) -> (r: u64)
    ensures
        r == age_at_spec(now, block_timestamp),
{
    now.saturating_sub(block_timestamp)
}

/// The age in seconds of a block now, by the system clock.
pub fn age(block_timestamp: u64) -> (r: u64)
    ensures
        exists|now: u64| r == age_at_spec(now, block_timestamp),
{
    let now = unix_time_now_secs();
    age_at(now, block_timestamp)
}

/// Whether `blocks` is a chain of headers: non-empty, with consecutive numbers,
/// each naming its predecessor's hash as its parent.
pub open spec fn is_chain(blocks: Seq<Block>) -> bool {
    &&& blocks.len() > 0
    &&& forall|i: int| 0 < i < blocks.len() ==> links(blocks[i - 1], #[trigger] blocks[i])
}

/// Whether `next` follows `prev` in a chain.
pub open spec fn links(prev: Block, next: Block) -> bool {
    &&& prev.number != u64::MAX
    &&& prev.number + 1 == next.number
    &&& prev.hash@ == next.parent_hash@
}

/// Why a sequence of blocks is not a tail.
#[derive(Debug, Clone, Copy, PartialEq, Eq, Structural)]
pub enum TailError {
    /// There are no blocks.
    Empty,
    /// The block at `index` does not follow its predecessor by number.
    Gap { index: usize },
    /// The block at `index` does not name its predecessor's hash as its parent.
    UnmatchedParentHash { index: usize },
}

/// The most recent blocks of a chain, oldest first.
#[derive(Debug)]
pub struct Tail {
    blocks: Vec<Block>,
}

impl Clone for Tail {
    fn clone(&self) -> (r: Self)
        ensures
            r.blocks() == self.blocks(),
    {
        proof {
            use_type_invariant(self);
        }
        let mut blocks: Vec<Block> = Vec::new();
        let mut i: usize = 0;
        while i < self.blocks.len()
            invariant
                i <= self.blocks@.len(),
                blocks@ == self.blocks@.subrange(0, i as int),
            decreases self.blocks@.len() - i,
        {
            blocks.push(self.blocks[i]);
            i = i + 1;
            assert(blocks@ =~= self.blocks@.subrange(0, i as int));
        }
        assert(blocks@ =~= self.blocks@);
        Tail { blocks }
    }
}

impl Tail {
    #[verifier::type_invariant]
    spec fn inv(self) -> bool {
        is_chain(self.blocks@)
    }

    /// The blocks, oldest first.
    pub closed spec fn blocks(self) -> Seq<Block> {
        self.blocks@
    }

    /// Checks that `blocks` is a chain of headers and makes it a tail.
    pub fn new(blocks: Vec<Block>) -> (r: Result<Tail, TailError>)
        ensures
            r is Ok <==> is_chain(blocks@),
            r matches Ok(t) ==> t.blocks() == blocks@,
            blocks@.len() == 0 ==> r == Err::<Tail, TailError>(TailError::Empty),
            r matches Err(TailError::Gap { index }) ==> 0 < index < blocks@.len() && !(
            blocks@[index - 1].number != u64::MAX && blocks@[index - 1].number + 1
                == blocks@[index as int].number) && forall|j: int|
                0 < j < index ==> links(blocks@[j - 1], #[trigger] blocks@[j]),
            r matches Err(TailError::UnmatchedParentHash { index }) ==> 0 < index < blocks@.len()
                && blocks@[index - 1].number != u64::MAX && blocks@[index - 1].number + 1
                == blocks@[index as int].number && blocks@[index - 1].hash@
                != blocks@[index as int].parent_hash@ && forall|j: int|
                0 < j < index ==> links(blocks@[j - 1], #[trigger] blocks@[j]),
    {
        if blocks.len() == 0 {
            return Err(TailError::Empty);
        }
        let mut i: usize = 1;
        while i < blocks.len()
            invariant
                1 <= i <= blocks@.len(),
                forall|j: int| 0 < j < i ==> links(blocks@[j - 1], #[trigger] blocks@[j]),
            decreases blocks@.len() - i,
        {
            let prev = blocks[i - 1];
            let block = blocks[i];
            if prev.number == u64::MAX || prev.number + 1 != block.number {
                return Err(TailError::Gap { index: i });
            }
            if prev.hash != block.parent_hash {
                return Err(TailError::UnmatchedParentHash { index: i });
            }
            i = i + 1;
        }
        Ok(Tail { blocks })
    }

    /// The newest block.
    pub fn tip(&self) -> (r: &Block)
        ensures
            *r == self.blocks().last(),
            self.blocks().len() > 0,
    {
        proof {
            use_type_invariant(self);
        }
        &self.blocks[self.blocks.len() - 1]
    }

    /// The oldest block.
    pub fn stable_tip(&self) -> (r: &Block)
        ensures
            *r == self.blocks()[0],
            self.blocks().len() > 0,
            is_chain(self.blocks()),
    {
        proof {
            use_type_invariant(self);
        }
        &self.blocks[0]
    }

    /// The position in the tail that block `number` would have.
    fn index_by_number(&self, number: u64) -> (r: Option<u64>)
        ensures
            number >= self.blocks()[0].number ==> r == Some((number - self.blocks()[0].number) as u64),
            number < self.blocks()[0].number ==> r is None,
    {
        let first = self.stable_tip().number;
        number.checked_sub(first)
    }

    /// The block with number `number`, where the tail holds one.
    pub fn block_by_number(&self, number: u64) -> (r: Option<&Block>)
        ensures
            self.blocks().len() > 0,
            ({
                let first = self.blocks()[0].number;
                if first <= number < first + self.blocks().len() {
                    r == Some(&self.blocks()[number - first])
                } else {
                    r is None
                }
            }),
    {
        proof {
            use_type_invariant(self);
        }
        match self.index_by_number(number) {
            None => None,
            Some(idx) => {
                if idx < self.blocks.len() as u64 {
                    Some(&self.blocks[idx as usize])
                } else {
                    None
                }
            },
        }
    }

    /// Whether the tail holds a block with the number and hash of `header`.
    pub fn contains(&self, header: &Block) -> (r: bool)
        ensures
            r == (exists|i: int|
                0 <= i < self.blocks().len() && #[trigger] self.blocks()[i].number == header.number
                    && self.blocks()[i].hash@ == header.hash@),
    {
        proof {
            use_type_invariant(self);
            lemma_chain_numbers(self.blocks@);
        }
        match self.block_by_number(header.number) {
            None => false,
            Some(block) => block.hash == header.hash,
        }
    }
}

/// The blocks of a chain are numbered consecutively from the first.
pub proof fn lemma_chain_numbers(blocks: Seq<Block>)
    requires
        is_chain(blocks),
    ensures
        forall|i: int| 0 <= i < blocks.len() ==> #[trigger] blocks[i].number == blocks[0].number + i,
{
    assert forall|i: int| 0 <= i < blocks.len() implies #[trigger] blocks[i].number == blocks[0].number
        + i by {
        lemma_chain_number_at(blocks, i);
    }
}

proof fn lemma_chain_number_at(blocks: Seq<Block>, i: int)
    requires
        is_chain(blocks),
        0 <= i < blocks.len(),
    ensures
        blocks[i].number == blocks[0].number + i,
    decreases i,
{
    if i > 0 {
        lemma_chain_number_at(blocks, i - 1);
        assert(links(blocks[i - 1], blocks[i]));
    }
}

/// The state of a chain as the monitor sees it.
#[derive(Debug, Clone)]
pub enum ChainStatus {
    FinalityViolated,
    Good { tail: Tail },
}

impl ChainStatus {
    /// The newest block, while finality holds.
    pub fn tip(&self) -> (r: Option<&Block>)
        ensures
            match self {
                ChainStatus::FinalityViolated => r is None,
                ChainStatus::Good { tail } => r == Some(&tail.blocks().last()),
            },
    {
        match self {
            ChainStatus::FinalityViolated => None,
            ChainStatus::Good { tail } => Some(tail.tip()),
        }
    }

    /// The oldest block of the tail, while finality holds.
    pub fn stable_tip(&self) -> (r: Option<&Block>)
        ensures
            match self {
                ChainStatus::FinalityViolated => r is None,
                ChainStatus::Good { tail } => r == Some(&tail.blocks()[0]),
            },
    {
        match self {
            ChainStatus::FinalityViolated => None,
            ChainStatus::Good { tail } => Some(tail.stable_tip()),
        }
    }

    /// The block with number `number`, while finality holds and the tail has it.
    pub fn block_by_number(&self, number: u64) -> (r: Option<&Block>)
        ensures
            match self {
                ChainStatus::FinalityViolated => r is None,
                ChainStatus::Good { tail } => {
                    let first = tail.blocks()[0].number;
                    if first <= number < first + tail.blocks().len() {
                        r == Some(&tail.blocks()[number - first])
                    } else {
                        r is None
                    }
                },
            },
    {
        match self {
            ChainStatus::FinalityViolated => None,
            ChainStatus::Good { tail } => tail.block_by_number(number),
        }
    }

    /// Whether finality holds and the tail has a block with the number and hash of `header`.
    pub fn contains(&self, header: &Block) -> (r: bool)
        ensures
            match self {
                ChainStatus::FinalityViolated => !r,
                ChainStatus::Good { tail } => r == (exists|i: int|
                    0 <= i < tail.blocks().len() && #[trigger] tail.blocks()[i].number
                        == header.number && tail.blocks()[i].hash@ == header.hash@),
            },
    {
        match self {
            ChainStatus::FinalityViolated => false,
            ChainStatus::Good { tail } => tail.contains(header),
        }
    }

    /// The age in seconds of the newest block, while finality holds.
    pub fn age(&self) -> (r: Option<u64>)
        ensures
            match self {
                ChainStatus::FinalityViolated => r is None,
                ChainStatus::Good { tail } => r matches Some(a) && exists|now: u64|
                    a == age_at_spec(now, tail.blocks().last().timestamp),
            },
    {
        match self.tip() {
            None => None,
            Some(b) => Some(age(b.timestamp)),
        }
    }
}

} // verus!
