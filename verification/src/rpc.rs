use vstd::prelude::*;
use vstd::string::StringSliceAdditionalSpecFns;
use crate::bytes::{Address, Bytes, Bytes32};

verus! {

/// A block header, as far as the monitor reads it.
#[derive(Clone, Copy, Debug)]
pub struct Block {
    pub number: u64,
    pub hash: Bytes32,
    pub parent_hash: Bytes32,
    pub timestamp: u64,
}

/// An EVM log entry.
#[derive(Clone, Debug)]
pub struct EVMLog {
    pub log_index: u64,
    pub address: Address,
    pub data: Bytes,
    pub topics: Vec<Bytes32>,
    pub block_hash: Bytes32,
    pub block_number: u64,
}

/// Which block a query is about.
#[derive(Clone, Copy, Debug)]
pub enum BlockIdentifier {
    Height(u64),
    Hash(Bytes32),
    Latest,
    Earliest,
    Safe,
    Finalized,
    Pending,
}

/// The text that names a block identifier in a JSON-RPC request.
pub open spec fn block_identifier_text(b: BlockIdentifier) -> Seq<char> {
    match b {
        BlockIdentifier::Height(u) => crate::hex::hex_number_spec(u as nat),
        BlockIdentifier::Hash(h) => crate::hex::hex_encode_spec(h@),
        BlockIdentifier::Latest => seq!['l', 'a', 't', 'e', 's', 't'],
        BlockIdentifier::Earliest => seq!['e', 'a', 'r', 'l', 'i', 'e', 's', 't'],
        BlockIdentifier::Safe => seq!['s', 'a', 'f', 'e'],
        BlockIdentifier::Finalized => seq!['f', 'i', 'n', 'a', 'l', 'i', 'z', 'e', 'd'],
        BlockIdentifier::Pending => seq!['p', 'e', 'n', 'd', 'i', 'n', 'g'],
    }
}

impl BlockIdentifier {
    /// The text that names the block in a JSON-RPC request.
    pub fn to_param_string(&self) -> (r: String)
        ensures
            r@ == block_identifier_text(*self),
    {
        match self {
            BlockIdentifier::Height(u) => crate::hex::hex_number(*u),
            BlockIdentifier::Hash(h) => crate::hex::encode(h.as_slice()),
            BlockIdentifier::Latest => {
                let s = "latest";
                proof {
                    reveal_strlit("latest");
                }
                s.to_owned()
            },
            BlockIdentifier::Earliest => {
                let s = "earliest";
                proof {
                    reveal_strlit("earliest");
                }
                s.to_owned()
            },
            BlockIdentifier::Safe => {
                let s = "safe";
                proof {
                    reveal_strlit("safe");
                }
                s.to_owned()
            },
            BlockIdentifier::Finalized => {
                let s = "finalized";
                proof {
                    reveal_strlit("finalized");
                }
                s.to_owned()
            },
            BlockIdentifier::Pending => {
                let s = "pending";
                proof {
                    reveal_strlit("pending");
                }
                s.to_owned()
            },
        }
    }
}

/// Whether log `a` stands no later than log `b` in the chain: by block, then
/// by index in the block.
pub open spec fn log_le(a: EVMLog, b: EVMLog) -> bool {
    a.block_number < b.block_number || (a.block_number == b.block_number && a.log_index <= b.log_index)
}

fn log_before(a: &EVMLog, b: &EVMLog) -> (r: bool)
    ensures
        r == log_le(*a, *b),
{
    a.block_number < b.block_number || (a.block_number == b.block_number && a.log_index <= b.log_index)
}

/// Whether the logs stand in chain order.
pub open spec fn logs_in_order(s: Seq<EVMLog>) -> bool {
    forall|i: int, j: int| 0 <= i < j < s.len() ==> log_le(#[trigger] s[i], #[trigger] s[j])
}

/// The logs in chain order (by block, then by index); logs at the same
/// position keep their order.
pub fn sort_logs(logs: Vec<EVMLog>) -> (r: Vec<EVMLog>)
    ensures
        logs_in_order(r@),
        r@.to_multiset() == logs@.to_multiset(),
{
    broadcast use vstd::seq_lib::group_to_multiset_ensures;

    let ghost orig = logs@;
    let n = logs.len();
    let mut rest = logs;
    let mut sorted: Vec<EVMLog> = Vec::new();
    let mut k: usize = 0;
    while rest.len() > 0
        invariant
            orig.len() == n,
            k <= orig.len(),
            rest@ == orig.subrange(k as int, orig.len() as int),
            logs_in_order(sorted@),
            sorted@.to_multiset() == orig.subrange(0, k as int).to_multiset(),
        decreases rest@.len(),
    {
        assert(rest@.len() == orig.len() - k);
        let log = rest.remove(0);
        assert(log == orig[k as int]);
        let mut p: usize = 0;
        while p < sorted.len() && log_before(&sorted[p], &log)
            invariant
                p <= sorted@.len(),
                forall|j: int| 0 <= j < p ==> log_le(#[trigger] sorted@[j], log),
            decreases sorted@.len() - p,
        {
            p = p + 1;
        }
        let ghost before = sorted@;
        sorted.insert(p, log);
        proof {
            assert(sorted@ == before.insert(p as int, log));
            assert forall|i: int, j: int| 0 <= i < j < sorted@.len() implies log_le(
                #[trigger] sorted@[i],
                #[trigger] sorted@[j],
            ) by {
                if i < p && j < p {
                    assert(sorted@[i] == before[i] && sorted@[j] == before[j]);
                } else if i < p && j == p {
                    assert(sorted@[i] == before[i]);
                } else if i < p {
                    assert(sorted@[i] == before[i] && sorted@[j] == before[j - 1]);
                } else if i == p {
                    assert(sorted@[j] == before[j - 1]);
                    if p < before.len() {
                        assert(!log_le(before[p as int], log));
                    }
                } else {
                    assert(sorted@[i] == before[i - 1] && sorted@[j] == before[j - 1]);
                }
            }
            assert(orig.subrange(0, k + 1) =~= orig.subrange(0, k as int).push(log));
            vstd::seq_lib::to_multiset_insert(before, p as int, log);
            vstd::seq_lib::to_multiset_build(orig.subrange(0, k as int), log);
        }
        k = k + 1;
    }
    assert(orig.subrange(0, k as int) =~= orig);
    sorted
}

/// What a request for logs answers from the three replies of its batch (the
/// first block of the range, the last block, and the logs): the failure of the
/// logs reply first, then that of the first block, then that of the last
/// block; otherwise the logs.
pub fn combine_get_logs_replies<B, L, Er>(
    from_block: Result<B, Er>,
    to_block: Result<B, Er>,
    logs: Result<L, Er>,
) -> (r: Result<L, Er>)
    ensures
        r == (match (from_block, to_block, logs) {
            (_, _, Err(e)) => Err::<L, Er>(e),
            (Err(e), _, Ok(_)) => Err::<L, Er>(e),
            (Ok(_), Err(e), Ok(_)) => Err::<L, Er>(e),
            (Ok(_), Ok(_), Ok(l)) => Ok::<L, Er>(l),
        }),
{
    match (from_block, to_block, logs) {
        (_, _, Err(e)) | (Err(e), _, _) | (_, Err(e), _) => Err(e),
        (Ok(_), Ok(_), Ok(logs)) => Ok(logs),
    }
}

/// Why a hexadecimal quantity could not be read as a `u64`.
#[derive(Debug, PartialEq, Eq, Structural)]
pub enum HexU64Error {
    /// The text is not hexadecimal, or spells more than 32 bytes.
    Decode(crate::bytes::BytesDecodeError),
    /// The number does not fit in a `u64`.
    Overflow,
}

/// Reads a quantity as the node writes it (`0x` and hexadecimal digits) into
/// a `u64`.
pub fn parse_hex_u64(s: &str) -> (r: Result<u64, HexU64Error>)
    ensures
        crate::hex::hex_decode_spec(s.spec_bytes()) is None ==> r == Err::<u64, HexU64Error>(
            HexU64Error::Decode(crate::bytes::BytesDecodeError::InvalidHex),
        ),
        crate::hex::hex_decode_spec(s.spec_bytes()) matches Some(b) ==> r == (if b.len() > 32 {
            Err::<u64, HexU64Error>(HexU64Error::Decode(crate::bytes::BytesDecodeError::InvalidSize))
        } else if crate::u256::be_nat(b) > u64::MAX {
            Err::<u64, HexU64Error>(HexU64Error::Overflow)
        } else {
            Ok::<u64, HexU64Error>(crate::u256::be_nat(b) as u64)
        }),
{
    match crate::u256::U256::from_str(s) {
        Err(e) => Err(HexU64Error::Decode(e)),
        Ok(x) => match x.to_u64() {
            Ok(v) => Ok(v),
            Err(_) => Err(HexU64Error::Overflow),
        },
    }
}

} // verus!
