use vstd::prelude::*;
use vstd::string::StringSliceAdditionalSpecFns;

verus! {

broadcast use vstd::array::group_array_axioms;

/// `256^n`.
pub open spec fn pow256(n: nat) -> nat
    decreases n,
{
    if n == 0 {
        1
    } else {
        256 * pow256((n - 1) as nat)
    }
}

/// The number that the bytes `s` spell in big-endian order.
pub open spec fn be_nat(s: Seq<u8>) -> nat
    decreases s.len(),
{
    if s.len() == 0 {
        0
    } else {
        be_nat(s.drop_last()) * 256 + s.last() as nat
    }
}

/// `2^128`.
pub open spec fn two_pow_128() -> nat {
    u128::MAX as nat + 1
}

pub proof fn lemma_pow256_positive(n: nat)
    ensures
        pow256(n) >= 1,
    decreases n,
{
    if n > 0 {
        lemma_pow256_positive((n - 1) as nat);
    }
}

pub proof fn lemma_pow256_16()
    ensures
        pow256(16) == two_pow_128(),
{
    reveal_with_fuel(pow256, 17);
}

pub proof fn lemma_pow256_add(a: nat, b: nat)
    ensures
        pow256(a + b) == pow256(a) * pow256(b),
    decreases b,
{
    if b > 0 {
        let b1 = (b - 1) as nat;
        lemma_pow256_add(a, b1);
        assert(a + b1 == (a + b - 1) as nat);
        let pa = pow256(a);
        let pb1 = pow256(b1);
        assert(pow256(a + b) == 256 * pow256(a + b1));
        assert(pow256(b) == 256 * pb1);
        assert(256 * (pa * pb1) == pa * (256 * pb1)) by (nonlinear_arith);
    } else {
        assert(pow256(b) == 1);
        assert(a + b == a);
    }
}

/// A big-endian number of `n` bytes is below `256^n`.
pub proof fn lemma_be_nat_bound(s: Seq<u8>)
    ensures
        be_nat(s) < pow256(s.len()),
    decreases s.len(),
{
    if s.len() > 0 {
        lemma_be_nat_bound(s.drop_last());
        let p = pow256((s.len() - 1) as nat);
        let x = be_nat(s.drop_last());
        let l = s.last() as nat;
        assert(x * 256 + l < 256 * p) by (nonlinear_arith)
            requires
                x < p,
                l < 256,
        ;
    }
}

/// The number spelled by `a + b` in big-endian order.
pub proof fn lemma_be_nat_concat(a: Seq<u8>, b: Seq<u8>)
    ensures
        be_nat(a + b) == be_nat(a) * pow256(b.len()) + be_nat(b),
    decreases b.len(),
{
    if b.len() == 0 {
        assert(a + b =~= a);
        assert(pow256(b.len()) == 1);
        assert(be_nat(b) == 0);
    } else {
        let b1 = b.drop_last();
        lemma_be_nat_concat(a, b1);
        assert((a + b).drop_last() =~= a + b1);
        assert((a + b).last() == b.last());
        let x = be_nat(a);
        let p = pow256(b1.len());
        let y = be_nat(b1);
        let l = b.last() as nat;
        assert(be_nat(a + b) == be_nat(a + b1) * 256 + l);
        assert(be_nat(b) == y * 256 + l);
        assert(pow256(b.len()) == 256 * p);
        assert((x * p + y) * 256 + l == x * (256 * p) + (y * 256 + l)) by (nonlinear_arith);
    }
}

/// Big-endian numbers of the same length are equal only if their bytes are.
pub proof fn lemma_be_nat_injective(a: Seq<u8>, b: Seq<u8>)
    requires
        a.len() == b.len(),
        be_nat(a) == be_nat(b),
    ensures
        a == b,
    decreases a.len(),
{
    if a.len() > 0 {
        let xa = be_nat(a.drop_last());
        let xb = be_nat(b.drop_last());
        let la = a.last() as int;
        let lb = b.last() as int;
        vstd::arithmetic::div_mod::lemma_fundamental_div_mod_converse(
            xa * 256 + la,
            256,
            xa as int,
            la,
        );
        vstd::arithmetic::div_mod::lemma_fundamental_div_mod_converse(
            xb * 256 + lb,
            256,
            xb as int,
            lb,
        );
        lemma_be_nat_injective(a.drop_last(), b.drop_last());
        assert(a =~= a.drop_last().push(a.last()));
        assert(b =~= b.drop_last().push(b.last()));
    } else {
        assert(a =~= b);
    }
}

proof fn lemma_pow256_mono(a: nat, b: nat)
    requires
        a <= b,
    ensures
        pow256(a) <= pow256(b),
    decreases b,
{
    if a < b {
        lemma_pow256_mono(a, (b - 1) as nat);
        lemma_pow256_positive((b - 1) as nat);
    }
}

/// The number that the 16 bytes of `b` spell in big-endian order.
fn u128_from_be_bytes(b: &[u8]) -> (r: u128)
    requires
        b@.len() == 16,
    ensures
        r as nat == be_nat(b@),
{
    let mut r: u128 = 0;
    let mut i: usize = 0;
    assert(b@.subrange(0, 0) =~= Seq::<u8>::empty());
    while i < 16
        invariant
            b@.len() == 16,
            i <= 16,
            r as nat == be_nat(b@.subrange(0, i as int)),
        decreases 16 - i,
    {
        let ghost pre = b@.subrange(0, i as int);
        proof {
            lemma_be_nat_bound(pre);
            lemma_pow256_mono(i as nat, 15);
            lemma_pow256_16();
            assert(pow256(16) == 256 * pow256(15));
            assert(r * 256 + 255 < two_pow_128()) by (nonlinear_arith)
                requires
                    r < pow256(15),
                    two_pow_128() == 256 * pow256(15),
            ;
            assert(b@.subrange(0, i + 1).drop_last() =~= pre);
            assert(b@.subrange(0, i + 1).last() == b@[i as int]);
        }
        r = r * 256 + b[i] as u128;
        i = i + 1;
    }
    assert(b@.subrange(0, 16) =~= b@);
    r
}

/// The 16 bytes that spell `x` in big-endian order.
fn u128_to_be_bytes(x: u128) -> (r: [u8; 16])
    ensures
        be_nat(r@) == x as nat,
{
    let mut r = [0u8; 16];
    let mut cur: u128 = x;
    let mut k: usize = 0;
    assert(r@.subrange(16, 16) =~= Seq::<u8>::empty());
    assert(be_nat(Seq::<u8>::empty()) == 0);
    assert(pow256(0) == 1);
    while k < 16
        invariant
            r@.len() == 16,
            k <= 16,
            x as nat == cur as nat * pow256(k as nat) + be_nat(r@.subrange(16 - k as int, 16)),
        decreases 16 - k,
    {
        let ghost suffix0 = r@.subrange(16 - k as int, 16);
        let d = (cur % 256) as u8;
        let i = 15 - k;
        r[i] = d;
        proof {
            let suffix = r@.subrange(16 - (k + 1) as int, 16);
            assert(suffix =~= seq![d] + suffix0);
            lemma_be_nat_concat(seq![d], suffix0);
            assert(seq![d].drop_last() =~= Seq::<u8>::empty());
            assert(be_nat(Seq::<u8>::empty()) == 0);
            assert(seq![d].last() == d);
            assert(be_nat(seq![d]) == be_nat(seq![d].drop_last()) * 256 + seq![d].last() as nat);
            assert(be_nat(seq![d]) == d as nat);
            assert(pow256((k + 1) as nat) == 256 * pow256(k as nat));
            let p = pow256(k as nat);
            assert(cur as nat == (cur / 256) as nat * 256 + (cur % 256) as nat);
            assert(cur as nat * p == ((cur / 256) as nat * 256) * p + (cur % 256) as nat * p) by (nonlinear_arith)
                requires
                    cur as nat == (cur / 256) as nat * 256 + (cur % 256) as nat,
            ;
            assert(((cur / 256) as nat * 256) * p == (cur / 256) as nat * (256 * p)) by (nonlinear_arith);
        }
        cur = cur / 256;
        k = k + 1;
    }
    proof {
        assert(r@.subrange(0, 16) =~= r@);
        lemma_pow256_16();
        lemma_be_nat_bound(r@);
        assert(cur == 0) by (nonlinear_arith)
            requires
                x as nat == cur as nat * pow256(16) + be_nat(r@),
                pow256(16) == two_pow_128(),
                x < two_pow_128(),
        ;
    }
    r
}

/// An unsigned 256-bit integer, held as its high and low 128-bit halves.
#[derive(Clone, Copy, Debug, Hash, PartialEq, Eq, Structural)]
pub struct U256 {
    pub hi: u128,
    pub lo: u128,
}

/// Error of a narrowing conversion out of `U256`.
#[derive(Debug, PartialEq, Eq, Structural)]
pub enum TryFromU256Error {
    Overflow,
}

impl U256 {
    /// The number that the value stands for.
    pub open spec fn value(self) -> nat {
        self.hi as nat * two_pow_128() + self.lo as nat
    }

    /// The number of bits of the type.
    pub const BITS: u32 = 256u32;

    /// The greatest value, `2^256 - 1`.
    pub fn max_value() -> (r: U256)
        ensures
            r.value() == pow256(32) - 1,
    {
        proof {
            lemma_pow256_16();
            lemma_pow256_add(16, 16);
            let m = u128::MAX as nat;
            assert(m * (m + 1) + m == (m + 1) * (m + 1) - 1) by (nonlinear_arith);
        }
        U256 { hi: u128::MAX, lo: u128::MAX }
    }

    /// The least value, zero.
    pub fn min_value() -> (r: U256)
        ensures
            r.value() == 0,
    {
        U256 { hi: 0, lo: 0 }
    }

    /// The value of a `u128`.
    pub fn new(value: u128) -> (r: U256)
        ensures
            r.value() == value as nat,
            r.hi == 0,
            r.lo == value,
    {
        U256 { hi: 0, lo: value }
    }

    /// The number that 32 bytes spell in big-endian order.
    pub fn from_be_bytes(bytes: [u8; 32]) -> (r: U256)
        ensures
            r.value() == be_nat(bytes@),
    {
        let s = bytes.as_slice();
        let hi = u128_from_be_bytes(vstd::slice::slice_subrange(s, 0, 16));
        let lo = u128_from_be_bytes(vstd::slice::slice_subrange(s, 16, 32));
        proof {
            assert(bytes@ =~= bytes@.subrange(0, 16) + bytes@.subrange(16, 32));
            lemma_be_nat_concat(bytes@.subrange(0, 16), bytes@.subrange(16, 32));
            lemma_pow256_16();
        }
        U256 { hi, lo }
    }

    /// The 32 bytes that spell the value in big-endian order.
    pub fn to_be_bytes(&self) -> (r: [u8; 32])
        ensures
            be_nat(r@) == self.value(),
    {
        let h = u128_to_be_bytes(self.hi);
        let l = u128_to_be_bytes(self.lo);
        let mut buf = [0u8; 32];
        let mut i: usize = 0;
        while i < 16
            invariant
                i <= 16,
                buf@.len() == 32,
                h@.len() == 16,
                l@.len() == 16,
                forall|j: int| 0 <= j < i ==> buf@[j] == h@[j] && buf@[j + 16] == l@[j],
            decreases 16 - i,
        {
            buf[i] = h[i];
            buf[i + 16] = l[i];
            i = i + 1;
        }
        proof {
            assert(buf@ =~= h@ + l@);
            lemma_be_nat_concat(h@, l@);
            lemma_pow256_16();
        }
        buf
    }

    /// The value, where it fits in a `u128`.
    pub fn to_u128(&self) -> (r: Result<u128, TryFromU256Error>)
        ensures
            self.value() < two_pow_128() ==> r == Ok::<u128, TryFromU256Error>(self.value() as u128),
            self.value() >= two_pow_128() ==> r == Err::<u128, TryFromU256Error>(TryFromU256Error::Overflow),
    {
        if self.hi != 0 {
            assert(self.hi as nat * two_pow_128() >= two_pow_128()) by (nonlinear_arith)
                requires self.hi >= 1;
            return Err(TryFromU256Error::Overflow);
        }
        Ok(self.lo)
    }

    /// The value, where it fits in a `u64`.
    pub fn to_u64(&self) -> (r: Result<u64, TryFromU256Error>)
        ensures
            self.value() <= u64::MAX ==> r == Ok::<u64, TryFromU256Error>(self.value() as u64),
            self.value() > u64::MAX ==> r == Err::<u64, TryFromU256Error>(TryFromU256Error::Overflow),
    {
        if self.hi != 0 {
            assert(self.hi as nat * two_pow_128() >= two_pow_128()) by (nonlinear_arith)
                requires self.hi >= 1;
            return Err(TryFromU256Error::Overflow);
        }
        if self.lo > u64::MAX as u128 {
            return Err(TryFromU256Error::Overflow);
        }
        Ok(self.lo as u64)
    }

    /// The value, where it fits in a `u32`.
    pub fn to_u32(&self) -> (r: Result<u32, TryFromU256Error>)
        ensures
            self.value() <= u32::MAX ==> r == Ok::<u32, TryFromU256Error>(self.value() as u32),
            self.value() > u32::MAX ==> r == Err::<u32, TryFromU256Error>(TryFromU256Error::Overflow),
    {
        if self.hi != 0 {
            assert(self.hi as nat * two_pow_128() >= two_pow_128()) by (nonlinear_arith)
                requires self.hi >= 1;
            return Err(TryFromU256Error::Overflow);
        }
        if self.lo > u32::MAX as u128 {
            return Err(TryFromU256Error::Overflow);
        }
        Ok(self.lo as u32)
    }

    /// The value, where it fits in a `u16`.
    pub fn to_u16(&self) -> (r: Result<u16, TryFromU256Error>)
        ensures
            self.value() <= u16::MAX ==> r == Ok::<u16, TryFromU256Error>(self.value() as u16),
            self.value() > u16::MAX ==> r == Err::<u16, TryFromU256Error>(TryFromU256Error::Overflow),
    {
        if self.hi != 0 {
            assert(self.hi as nat * two_pow_128() >= two_pow_128()) by (nonlinear_arith)
                requires self.hi >= 1;
            return Err(TryFromU256Error::Overflow);
        }
        if self.lo > u16::MAX as u128 {
            return Err(TryFromU256Error::Overflow);
        }
        Ok(self.lo as u16)
    }

    /// The value, where it fits in a `u8`.
    pub fn to_u8(&self) -> (r: Result<u8, TryFromU256Error>)
        ensures
            self.value() <= u8::MAX ==> r == Ok::<u8, TryFromU256Error>(self.value() as u8),
            self.value() > u8::MAX ==> r == Err::<u8, TryFromU256Error>(TryFromU256Error::Overflow),
    {
        if self.hi != 0 {
            assert(self.hi as nat * two_pow_128() >= two_pow_128()) by (nonlinear_arith)
                requires self.hi >= 1;
            return Err(TryFromU256Error::Overflow);
        }
        if self.lo > u8::MAX as u128 {
            return Err(TryFromU256Error::Overflow);
        }
        Ok(self.lo as u8)
    }
}

/// Two values of `U256` are equal exactly when the numbers they stand for are.
pub proof fn lemma_value_injective(a: U256, b: U256)
    requires
        a.value() == b.value(),
    ensures
        a == b,
{
    vstd::arithmetic::div_mod::lemma_fundamental_div_mod_converse(
        a.value() as int,
        two_pow_128() as int,
        a.hi as int,
        a.lo as int,
    );
    vstd::arithmetic::div_mod::lemma_fundamental_div_mod_converse(
        b.value() as int,
        two_pow_128() as int,
        b.hi as int,
        b.lo as int,
    );
}

/// Reading back the bytes that `to_be_bytes` writes gives the value again.
pub proof fn law_u256_bytes_roundtrip(x: U256, bytes: [u8; 32])
    requires
        be_nat(bytes@) == x.value(),
    ensures
        forall|y: U256| y.value() == be_nat(bytes@) ==> y == x,
{
    assert forall|y: U256| y.value() == be_nat(bytes@) implies y == x by {
        lemma_value_injective(x, y);
    }
}

/// Two 32-byte strings that spell the same number are the same string: writing
/// back the value that `from_be_bytes` reads gives the bytes again.
pub proof fn law_u256_be_bytes_unique(a: [u8; 32], b: [u8; 32])
    requires
        be_nat(a@) == be_nat(b@),
    ensures
        a@ == b@,
{
    lemma_be_nat_injective(a@, b@);
}

} // verus!

verus! {

/// The `k` big-endian bytes of `n` modulo `256^k`.
pub open spec fn be_fixed(n: nat, k: nat) -> Seq<u8>
    decreases k,
{
    if k == 0 {
        seq![]
    } else {
        be_fixed(n / 256, (k - 1) as nat).push((n % 256) as u8)
    }
}

/// Bytes are the fixed-width spelling of the number they spell.
pub proof fn lemma_be_fixed_of_be_nat(s: Seq<u8>)
    ensures
        be_fixed(be_nat(s), s.len()) == s,
    decreases s.len(),
{
    if s.len() > 0 {
        let p = s.drop_last();
        let x = be_nat(p);
        let l = s.last() as int;
        vstd::arithmetic::div_mod::lemma_fundamental_div_mod_converse(
            x * 256 + l,
            256,
            x as int,
            l,
        );
        lemma_be_fixed_of_be_nat(p);
        assert(s =~= p.push(s.last()));
    }
}

pub proof fn lemma_be_fixed_len(n: nat, k: nat)
    ensures
        be_fixed(n, k).len() == k,
    decreases k,
{
    if k > 0 {
        lemma_be_fixed_len(n / 256, (k - 1) as nat);
    }
}

/// The 32-byte word that spells `n` in big-endian order.
pub open spec fn word(n: nat) -> Seq<u8> {
    be_fixed(n, 32)
}

impl U256 {
    /// The big-endian word of the value, as a vector.
    pub fn to_word(&self) -> (r: Vec<u8>)
        ensures
            r@ == word(self.value()),
    {
        let b = self.to_be_bytes();
        proof {
            lemma_be_fixed_of_be_nat(b@);
        }
        crate::bytes::to_vec_u8(b.as_slice())
    }
}

/// The text of a value: `0x`, then the lowercase hexadecimal digits of the
/// high half where it is not zero, then those of the low half (each without
/// leading zeros).
pub open spec fn u256_text(x: U256) -> Seq<char> {
    if x.hi == 0 {
        seq!['0', 'x'] + crate::hex::hex_digits_of(x.lo as nat)
    } else {
        seq!['0', 'x'] + crate::hex::hex_digits_of(x.hi as nat) + crate::hex::hex_digits_of(x.lo as nat)
    }
}

impl U256 {
    /// The value as text: `0x` and hexadecimal digits.
    pub fn to_string(&self) -> (r: String)
        ensures
            r@ == u256_text(*self),
    {
        let mut v: Vec<u8> = Vec::new();
        v.push(48);
        v.push(120);
        let ghost chars = u256_text(*self);
        if self.hi == 0 {
            let d = crate::hex::hex_digit_bytes(self.lo);
            crate::bytes::extend_bytes(&mut v, d.as_slice());
            proof {
                crate::hex::lemma_hex_digits_ascii(self.lo as nat);
                let dl = crate::hex::hex_digits_of(self.lo as nat);
                assert forall|j: int| 0 <= j < chars.len() implies '\0' <= #[trigger] chars[j] <= '\u{7f}' by {
                    if j >= 2 {
                        assert(chars[j] == dl[j - 2]);
                    }
                }
                assert forall|j: int| 0 <= j < v@.len() implies v@[j] == #[trigger] chars[j] as u8 by {
                    if j >= 2 {
                        assert(chars[j] == dl[j - 2]);
                        assert(v@[j] == d@[j - 2]);
                    }
                }
            }
            crate::hex::string_from_ascii(v, Ghost(chars))
        } else {
            let dh = crate::hex::hex_digit_bytes(self.hi);
            let dl = crate::hex::hex_digit_bytes(self.lo);
            crate::bytes::extend_bytes(&mut v, dh.as_slice());
            crate::bytes::extend_bytes(&mut v, dl.as_slice());
            proof {
                crate::hex::lemma_hex_digits_ascii(self.hi as nat);
                crate::hex::lemma_hex_digits_ascii(self.lo as nat);
                let h = crate::hex::hex_digits_of(self.hi as nat);
                let l = crate::hex::hex_digits_of(self.lo as nat);
                assert forall|j: int| 0 <= j < chars.len() implies '\0' <= #[trigger] chars[j] <= '\u{7f}' by {
                    if 2 <= j < 2 + h.len() {
                        assert(chars[j] == h[j - 2]);
                    } else if j >= 2 + h.len() {
                        assert(chars[j] == l[j - 2 - h.len()]);
                    }
                }
                assert forall|j: int| 0 <= j < v@.len() implies v@[j] == #[trigger] chars[j] as u8 by {
                    if 2 <= j < 2 + h.len() {
                        assert(chars[j] == h[j - 2]);
                        assert(v@[j] == dh@[j - 2]);
                    } else if j >= 2 + h.len() {
                        assert(chars[j] == l[j - 2 - h.len()]);
                        assert(v@[j] == dl@[j - 2 - h.len()]);
                    }
                }
            }
            crate::hex::string_from_ascii(v, Ghost(chars))
        }
    }

    /// Reads a value from hexadecimal text (with or without `0x`) of at most
    /// 32 bytes.
    pub fn from_str(s: &str) -> (r: Result<U256, crate::bytes::BytesDecodeError>)
        ensures
            crate::hex::hex_decode_spec(s.spec_bytes()) is None ==> r == Err::<U256, crate::bytes::BytesDecodeError>(
                crate::bytes::BytesDecodeError::InvalidHex,
            ),
            crate::hex::hex_decode_spec(s.spec_bytes()) matches Some(b) ==> (if b.len() <= 32 {
                r matches Ok(x) && x.value() == be_nat(b)
            } else {
                r == Err::<U256, crate::bytes::BytesDecodeError>(crate::bytes::BytesDecodeError::InvalidSize)
            }),
    {
        let bytes = match crate::bytes::Bytes::from_str(s) {
            Ok(b) => b,
            Err(e) => return Err(e),
        };
        let n = bytes.len();
        if n > 32 {
            return Err(crate::bytes::BytesDecodeError::InvalidSize);
        }
        let mut buf = [0u8; 32];
        let mut i: usize = 0;
        while i < 32
            invariant
                i <= 32,
                n <= 32,
                n == bytes@.len(),
                buf@.len() == 32,
                forall|j: int| 0 <= j < i ==> buf@[j] == if j < 32 - n {
                    0u8
                } else {
                    bytes@[j - (32 - n)]
                },
            decreases 32 - i,
        {
            buf[i] = if i < 32 - n {
                0
            } else {
                bytes.0[i - (32 - n)]
            };
            i = i + 1;
        }
        proof {
            let z = buf@.subrange(0, 32 - n as int);
            let t = buf@.subrange(32 - n as int, 32);
            assert(buf@ =~= z + t);
            assert(t =~= bytes@);
            lemma_be_nat_concat(z, t);
            assert forall|j: int| 0 <= j < z.len() implies z[j] == 0 by {}
            lemma_be_nat_all_zero(z);
        }
        Ok(U256::from_be_bytes(buf))
    }
}

/// Reading back the text of a value gives the value again, where the high half
/// is zero or the low half has all thirty-two of its digits.
pub proof fn law_u256_text_roundtrip(x: U256)
    requires
        x.hi == 0 || x.lo as nat >= crate::hex::pow16(31),
    ensures
        crate::hex::hex_decode_spec(vstd::utf8::encode_utf8(u256_text(x))) matches Some(b) && b.len()
            <= 32 && be_nat(b) == x.value(),
{
    let c = u256_text(x);
    let dh = crate::hex::hex_digit_bytes_of(x.hi as nat);
    let dl = crate::hex::hex_digit_bytes_of(x.lo as nat);
    let ch = crate::hex::hex_digits_of(x.hi as nat);
    let cl = crate::hex::hex_digits_of(x.lo as nat);
    let h = if x.hi == 0 {
        dl
    } else {
        dh + dl
    };
    crate::hex::lemma_hex_digits_ascii(x.hi as nat);
    crate::hex::lemma_hex_digits_ascii(x.lo as nat);
    crate::hex::lemma_hex_digits_value(x.hi as nat);
    crate::hex::lemma_hex_digits_value(x.lo as nat);
    assert(c.len() == 2 + h.len());
    assert forall|i: int| 0 <= i < c.len() implies '\0' <= #[trigger] c[i] <= '\u{7f}' && (i >= 2
        ==> c[i] as u8 == h[i - 2]) by {
        if i >= 2 {
            if x.hi == 0 {
                assert(c[i] == cl[i - 2]);
            } else if i < 2 + ch.len() {
                assert(c[i] == ch[i - 2]);
                assert(h[i - 2] == dh[i - 2]);
            } else {
                assert(c[i] == cl[i - 2 - ch.len()]);
                assert(h[i - 2] == dl[i - 2 - dh.len()]);
            }
        }
    }
    vstd::utf8::is_ascii_chars_encode_utf8(c);
    let b = vstd::utf8::encode_utf8(c);
    assert(b[0] == 48u8 && b[1] == 120u8) by {
        assert(c[0] == '0' && c[1] == 'x');
    }
    assert(crate::hex::strip_0x(b) =~= h) by {
        assert forall|i: int| 0 <= i < h.len() implies b.skip(2)[i] == h[i] by {
            assert(b[i + 2] == c[i + 2] as u8);
        }
    }
    assert(crate::hex::all_hex_digits(h)) by {
        if x.hi != 0 {
            assert forall|i: int| 0 <= i < h.len() implies crate::hex::is_hex_digit(#[trigger] h[i]) by {
                if i < dh.len() {
                    assert(h[i] == dh[i]);
                } else {
                    assert(h[i] == dl[i - dh.len()]);
                }
            }
        }
    }
    crate::hex::lemma_hex_digits_to_bytes_value(h);
    crate::hex::lemma_pow16_even(16);
    lemma_pow256_16();
    crate::hex::lemma_hex_digits_len(x.lo as nat, 32);
    crate::hex::lemma_hex_digits_len(x.hi as nat, 32);
    if x.hi != 0 {
        crate::hex::lemma_hex_value_concat(dh, dl);
        assert(dl.len() == 32);
    }
}

proof fn lemma_be_nat_all_zero(s: Seq<u8>)
    requires
        forall|j: int| 0 <= j < s.len() ==> s[j] == 0,
    ensures
        be_nat(s) == 0,
    decreases s.len(),
{
    if s.len() > 0 {
        lemma_be_nat_all_zero(s.drop_last());
    }
}

} // verus!
