use vstd::prelude::*;
use crate::bytes::{extend_bytes, Address, Bytes32, SizedBytes};
use crate::common::{chain_id_spec, ChainName};
use crate::keccak::{keccak256, keccak256_spec};
use crate::u256::be_fixed;

verus! {

/// The version of the layout of the log cache.
pub const SCHEMA_VERSION: u64 = 4u64;

/// The `k` big-endian bytes of `n`.
fn be_bytes(n: u64, k: usize) -> (r: Vec<u8>)
    ensures
        r@ == be_fixed(n as nat, k as nat),
    decreases k,
{
    if k == 0 {
        Vec::new()
    } else {
        let mut v = be_bytes(n / 256, k - 1);
        v.push((n % 256) as u8);
        v
    }
}

/// The bytes of the items of `s`, one after the other.
pub open spec fn concat_sized<const N: usize>(s: Seq<SizedBytes<N>>) -> Seq<u8>
    decreases s.len(),
{
    if s.len() == 0 {
        seq![]
    } else {
        concat_sized(s.drop_last()) + s.last()@
    }
}

fn concat_sized_exec<const N: usize>(s: &[SizedBytes<N>]) -> (r: Vec<u8>)
    ensures
        r@ == concat_sized(s@),
{
    let mut buf: Vec<u8> = Vec::new();
    let mut i: usize = 0;
    while i < s.len()
        invariant
            i <= s@.len(),
            buf@ == concat_sized(s@.subrange(0, i as int)),
        decreases s@.len() - i,
    {
        extend_bytes(&mut buf, s[i].as_slice());
        proof {
            assert(s@.subrange(0, i + 1).drop_last() =~= s@.subrange(0, i as int));
        }
        i = i + 1;
    }
    assert(s@.subrange(0, s@.len() as int) =~= s@);
    buf
}

/// The digest that names the shape of a log query in the cache: the chain
/// id, and the digests of the chain's stability setting (as its JSON
/// text), of the addresses and of the first topics.
pub open spec fn query_shape_digest_spec(
    chain: ChainName,
    chain_stability_json: Seq<u8>,
    addresses: Seq<Address>,
    first_topics: Seq<Bytes32>,
) -> Seq<u8> {
    keccak256_spec(
        be_fixed(chain_id_spec(chain) as nat, 8) + keccak256_spec(chain_stability_json) + keccak256_spec(
            concat_sized(addresses),
        ) + keccak256_spec(concat_sized(first_topics)),
    )
}

/// The digest that names the shape of a log query in the cache; the chain's
/// stability setting comes as its JSON text.
pub fn query_shape_digest(
    chain: ChainName,
    chain_stability_json: &[u8],
    addresses: &[Address],
    first_topics: &[Bytes32],
) -> (r: Bytes32)
    ensures
        r@ == query_shape_digest_spec(chain, chain_stability_json@, addresses@, first_topics@),
{
    let addrs_buf = concat_sized_exec(addresses);
    let first_topics_buf = concat_sized_exec(first_topics);
    let mut final_buf = be_bytes(chain.chain_id(), 8);
    extend_bytes(&mut final_buf, keccak256(chain_stability_json).as_slice());
    extend_bytes(&mut final_buf, keccak256(addrs_buf.as_slice()).as_slice());
    extend_bytes(&mut final_buf, keccak256(first_topics_buf.as_slice()).as_slice());
    SizedBytes(keccak256(final_buf.as_slice()))
}

/// Whether `c` is an ASCII letter or digit.
pub open spec fn is_ascii_alphanumeric(c: char) -> bool {
    ('0' <= c <= '9') || ('a' <= c <= 'z') || ('A' <= c <= 'Z')
}

/// The text with every character that is not an ASCII letter or digit
/// replaced by `_`.
pub open spec fn filename_text(s: Seq<char>) -> Seq<char> {
    s.map_values(|c: char| if is_ascii_alphanumeric(c) { c } else { '_' })
}

/// The text made fit for a file name: each character that is not an ASCII
/// letter or digit becomes `_`.
pub fn str_to_filename(s: &str) -> (r: String)
    ensures
        r@ == filename_text(s@),
{
    let n = s.unicode_len();
    let ghost out = filename_text(s@);
    let mut v: Vec<u8> = Vec::new();
    let mut i: usize = 0;
    while i < n
        invariant
            n == s@.len(),
            out == filename_text(s@),
            i <= n,
            v@.len() == i,
            forall|j: int| 0 <= j < i ==> v@[j] == #[trigger] out[j] as u8,
        decreases n - i,
    {
        let c = s.get_char(i);
        if ('0' <= c && c <= '9') || ('a' <= c && c <= 'z') || ('A' <= c && c <= 'Z') {
            v.push(c as u8);
        } else {
            v.push(95u8);
        }
        i = i + 1;
    }
    proof {
        assert forall|j: int| 0 <= j < out.len() implies '\0' <= #[trigger] out[j] <= '\u{7f}' by {}
    }
    crate::hex::string_from_ascii(v, Ghost(out))
}

} // verus!
