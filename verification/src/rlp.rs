use vstd::prelude::*;
use crate::bytes::{extend_bytes, to_vec_u8, Bytes, SizedBytes};
use crate::u256::{be_nat, lemma_be_nat_concat, lemma_pow256_positive, pow256, U256};

verus! {

/// `s` without its leading zero bytes.
pub open spec fn trim_zeros(s: Seq<u8>) -> Seq<u8>
    decreases s.len(),
{
    if s.len() > 0 && s[0] == 0 {
        trim_zeros(s.drop_first())
    } else {
        s
    }
}

/// The shortest big-endian bytes of `n` (empty for zero).
pub open spec fn be_minimal(n: nat) -> Seq<u8>
    decreases n,
{
    if n == 0 {
        seq![]
    } else {
        be_minimal(n / 256).push((n % 256) as u8)
    }
}

/// The RLP header for a payload of `n` bytes, given the short-form and
/// long-form base bytes (`0x80`/`0xb7` for strings, `0xc0`/`0xf7` for lists).
pub open spec fn rlp_header(short_base: u8, long_base: u8, n: nat) -> Seq<u8> {
    if n <= 55 {
        seq![(short_base + n) as u8]
    } else {
        seq![(long_base + be_minimal(n).len()) as u8] + be_minimal(n)
    }
}

/// The RLP encoding of a byte string.
pub open spec fn rlp_bytes_spec(b: Seq<u8>) -> Seq<u8> {
    if b.len() == 1 && b[0] < 0x80 {
        b
    } else {
        rlp_header(0x80, 0xb7, b.len()) + b
    }
}

/// The RLP encoding of a list whose items, already encoded, are `payload`.
pub open spec fn rlp_list_spec(payload: Seq<u8>) -> Seq<u8> {
    rlp_header(0xc0, 0xf7, payload.len()) + payload
}

/// The RLP encoding of a number given by its big-endian bytes.
pub open spec fn rlp_numerical_spec(us: Seq<u8>) -> Seq<u8> {
    rlp_bytes_spec(trim_zeros(us))
}

pub proof fn lemma_be_minimal_len(n: nat, k: nat)
    requires
        n < pow256(k),
    ensures
        be_minimal(n).len() <= k,
    decreases n,
{
    if n > 0 {
        if k == 0 {
            assert(pow256(0) == 1);
        } else {
            let p = pow256((k - 1) as nat);
            assert(pow256(k) == 256 * p);
            assert(n / 256 < p) by (nonlinear_arith)
                requires
                    n < 256 * p,
            ;
            lemma_be_minimal_len(n / 256, (k - 1) as nat);
        }
    }
}

proof fn lemma_u64_be_minimal_len(n: u64)
    ensures
        be_minimal(n as nat).len() <= 8,
{
    reveal_with_fuel(pow256, 9);
    assert(pow256(8) == 0x1_0000_0000_0000_0000);
    lemma_be_minimal_len(n as nat, 8);
}

/// The bytes of `us` after its leading zeros.
pub fn trim_bytes(us: &[u8]) -> (r: &[u8])
    ensures
        r@ == trim_zeros(us@),
{
    let mut idx: usize = 0;
    assert(us@.skip(0) =~= us@);
    while idx < us.len() && us[idx] == 0
        invariant
            idx <= us@.len(),
            trim_zeros(us@) == trim_zeros(us@.skip(idx as int)),
        decreases us@.len() - idx,
    {
        assert(us@.skip(idx as int).drop_first() =~= us@.skip(idx + 1));
        idx = idx + 1;
    }
    let r = vstd::slice::slice_subrange(us, idx, us.len());
    assert(r@ =~= us@.skip(idx as int));
    r
}

/// The shortest big-endian bytes of `n`.
pub fn minimal_be_bytes(n: u64) -> (r: Vec<u8>)
    ensures
        r@ == be_minimal(n as nat),
    decreases n,
{
    if n == 0 {
        Vec::new()
    } else {
        let mut v = minimal_be_bytes(n / 256);
        v.push((n % 256) as u8);
        v
    }
}

fn rlp_header_exec(short_base: u8, long_base: u8, n: usize) -> (r: Vec<u8>)
    requires
        short_base as int + 55 <= 255,
        long_base as int + 8 <= 255,
    ensures
        r@ == rlp_header(short_base, long_base, n as nat),
{
    if n <= 55 {
        let mut v: Vec<u8> = Vec::new();
        v.push(short_base + n as u8);
        assert(v@ =~= rlp_header(short_base, long_base, n as nat));
        v
    } else {
        let len_bytes = minimal_be_bytes(n as u64);
        proof {
            lemma_u64_be_minimal_len(n as u64);
        }
        let mut v: Vec<u8> = Vec::new();
        v.push(long_base + len_bytes.len() as u8);
        extend_bytes(&mut v, len_bytes.as_slice());
        assert(v@ =~= rlp_header(short_base, long_base, n as nat));
        v
    }
}

/// The RLP encoding of a byte string.
pub fn rlp_encode_bytes(bytes: &[u8]) -> (v: Vec<u8>)
    ensures
        v@ == rlp_bytes_spec(bytes@),
{
    if bytes.len() == 1 && bytes[0] < 0x80 {
        return to_vec_u8(bytes);
    }
    let mut v = rlp_header_exec(0x80, 0xb7, bytes.len());
    extend_bytes(&mut v, bytes);
    v
}

/// The RLP encoding of a number given by its big-endian bytes.
pub fn rlp_encode_numerical(us: &[u8]) -> (v: Vec<u8>)
    ensures
        v@ == rlp_numerical_spec(us@),
{
    rlp_encode_bytes(trim_bytes(us))
}

/// The RLP encoding of a list whose items, already encoded, are `us`.
pub fn rlp_encode_list(us: &[u8]) -> (v: Vec<u8>)
    ensures
        v@ == rlp_list_spec(us@),
{
    let mut v = rlp_header_exec(0xc0, 0xf7, us.len());
    extend_bytes(&mut v, us);
    v
}

/// A value with an RLP encoding.
pub trait RlpEncodable {
    /// The RLP encoding of the value.
    spec fn rlp_spec(&self) -> Seq<u8>;

    /// Computes the RLP encoding of the value.
    fn to_rlp_bytes(&self) -> (r: Vec<u8>)
        ensures
            r@ == self.rlp_spec(),
    ;
}

/// The encodings of the items of `s`, one after the other.
pub open spec fn concat_rlp<T: RlpEncodable>(s: Seq<T>) -> Seq<u8>
    decreases s.len(),
{
    if s.len() == 0 {
        seq![]
    } else {
        concat_rlp(s.drop_last()) + s.last().rlp_spec()
    }
}

impl RlpEncodable for u64 {
    open spec fn rlp_spec(&self) -> Seq<u8> {
        rlp_bytes_spec(be_minimal(*self as nat))
    }

    fn to_rlp_bytes(&self) -> (r: Vec<u8>) {
        let b = minimal_be_bytes(*self);
        rlp_encode_bytes(b.as_slice())
    }
}

impl RlpEncodable for U256 {
    open spec fn rlp_spec(&self) -> Seq<u8> {
        rlp_bytes_spec(be_minimal(self.value()))
    }

    fn to_rlp_bytes(&self) -> (r: Vec<u8>) {
        let b = self.to_be_bytes();
        proof {
            lemma_trim_be(b@);
        }
        rlp_encode_numerical(b.as_slice())
    }
}

impl<const N: usize> RlpEncodable for SizedBytes<N> {
    open spec fn rlp_spec(&self) -> Seq<u8> {
        rlp_bytes_spec(self@)
    }

    fn to_rlp_bytes(&self) -> (r: Vec<u8>) {
        rlp_encode_bytes(self.as_slice())
    }
}

impl RlpEncodable for Bytes {
    open spec fn rlp_spec(&self) -> Seq<u8> {
        rlp_bytes_spec(self@)
    }

    fn to_rlp_bytes(&self) -> (r: Vec<u8>) {
        rlp_encode_bytes(self.as_slice())
    }
}

impl<T: RlpEncodable> RlpEncodable for Vec<T> {
    open spec fn rlp_spec(&self) -> Seq<u8> {
        rlp_list_spec(concat_rlp(self@))
    }

    fn to_rlp_bytes(&self) -> (r: Vec<u8>) {
        let mut payload: Vec<u8> = Vec::new();
        let mut i: usize = 0;
        while i < self.len()
            invariant
                i <= self@.len(),
                payload@ == concat_rlp(self@.subrange(0, i as int)),
            decreases self@.len() - i,
        {
            let item = self[i].to_rlp_bytes();
            extend_bytes(&mut payload, item.as_slice());
            proof {
                let s = self@.subrange(0, i + 1);
                assert(s.drop_last() =~= self@.subrange(0, i as int));
            }
            i = i + 1;
        }
        assert(self@.subrange(0, self@.len() as int) =~= self@);
        rlp_encode_list(payload.as_slice())
    }
}

/// A number spelled in big-endian bytes loses its leading zeros to its
/// shortest spelling.
pub proof fn lemma_trim_be(s: Seq<u8>)
    ensures
        trim_zeros(s) == be_minimal(be_nat(s)),
    decreases s.len(),
{
    lemma_trim_be_prefix(s);
}

proof fn lemma_be_nat_first(s: Seq<u8>)
    requires
        s.len() > 0,
    ensures
        be_nat(s) == s[0] as nat * pow256((s.len() - 1) as nat) + be_nat(s.drop_first()),
{
    assert(s =~= seq![s[0]] + s.drop_first());
    lemma_be_nat_concat(seq![s[0]], s.drop_first());
    let one = seq![s[0]];
    assert(one.drop_last() =~= Seq::<u8>::empty());
    assert(one.last() == s[0]);
    assert(be_nat(one.drop_last()) == 0);
    assert(be_nat(one) == s[0] as nat);
}

proof fn lemma_be_minimal_of_nonzero_led(s: Seq<u8>)
    requires
        s.len() > 0,
        s[0] != 0,
    ensures
        be_minimal(be_nat(s)) == s,
    decreases s.len(),
{
    if s.len() == 1 {
        assert(s.drop_last() =~= Seq::<u8>::empty());
        assert(be_nat(s.drop_last()) == 0);
        assert(s.last() == s[0]);
        assert(be_nat(s) == s[0] as nat);
        assert(be_minimal(0) =~= Seq::<u8>::empty());
        assert(be_minimal(s[0] as nat) == be_minimal(s[0] as nat / 256).push((s[0] as nat % 256) as u8));
        assert(s[0] as nat / 256 == 0);
        assert(be_minimal(s[0] as nat) =~= s);
    } else {
        let p = s.drop_last();
        lemma_be_minimal_of_nonzero_led(p);
        let x = be_nat(p);
        let l = s.last() as nat;
        lemma_be_nat_first(p);
        lemma_pow256_positive((p.len() - 1) as nat);
        assert(x > 0) by (nonlinear_arith)
            requires
                x == p[0] as nat * pow256((p.len() - 1) as nat) + be_nat(p.drop_first()),
                p[0] as nat >= 1,
                pow256((p.len() - 1) as nat) >= 1,
        ;
        vstd::arithmetic::div_mod::lemma_fundamental_div_mod_converse(
            (x * 256 + l) as int,
            256,
            x as int,
            l as int,
        );
        assert(s =~= p.push(s.last()));
    }
}

proof fn lemma_trim_be_prefix(s: Seq<u8>)
    ensures
        trim_zeros(s) == be_minimal(be_nat(s)),
    decreases s.len(),
{
    if s.len() == 0 {
    } else if s[0] == 0 {
        lemma_be_nat_first(s);
        lemma_trim_be_prefix(s.drop_first());
    } else {
        lemma_be_minimal_of_nonzero_led(s);
    }
}

/// A buffer that RLP items are written into.
pub struct RlpStream {
    pub buf: Vec<u8>,
}

impl RlpStream {
    /// An empty stream.
    pub fn new() -> (r: RlpStream)
        ensures
            r.buf@ == Seq::<u8>::empty(),
    {
        RlpStream { buf: Vec::new() }
    }

    /// Appends the RLP encoding of `item`.
    pub fn push<T: RlpEncodable>(&mut self, item: &T)
        ensures
            final(self).buf@ == old(self).buf@ + item.rlp_spec(),
    {
        let enc = item.to_rlp_bytes();
        extend_bytes(&mut self.buf, enc.as_slice());
    }

    /// Appends raw, already encoded bytes.
    pub fn extend(&mut self, slice: &[u8])
        ensures
            final(self).buf@ == old(self).buf@ + slice@,
    {
        extend_bytes(&mut self.buf, slice);
    }

    /// The bytes written so far.
    pub fn finalize_without_length_prefix(&self) -> (r: Vec<u8>)
        ensures
            r@ == self.buf@,
    {
        to_vec_u8(self.buf.as_slice())
    }

    /// The bytes written so far, wrapped as an RLP list.
    pub fn finalize_with_length_prefix(&self) -> (r: Vec<u8>)
        ensures
            r@ == rlp_list_spec(self.buf@),
    {
        rlp_encode_list(self.buf.as_slice())
    }
}

} // verus!
