use vstd::prelude::*;
use vstd::utf8::{decode_utf8, valid_utf8};
use crate::abi_types::{
    lemma_types_view_index, lemma_types_view_len, lemma_values_view_push, type_is_static, type_view, types_view, value_view, values_view, Type, TypeV, Value, ValueV,
};
use crate::bytes::{all_zero, copy_range, Bytes, SizedBytes};
use crate::hex::string_from_utf8;
use crate::u256::{
    be_nat, lemma_be_nat_bound, lemma_be_nat_concat, lemma_pow256_16, pow256, two_pow_128, U256,
};

verus! {

broadcast use vstd::array::group_array_axioms;

/// Errors of ABI decoding.
#[derive(Debug, Clone, Copy, PartialEq, Eq, Structural)]
pub enum AbiDecodeError {
    InvalidFormat,
    InvalidEncodingSize,
    InvalidBoolEncoding,
    InvalidUintEncoding,
    InvalidUsizeEncoding,
    InvalidAddressEncoding,
    InvalidBytesEncoding,
    InvalidStringEncoding,
    InvalidValueError,
    ZeroSizedTypeError,
}

/// The outcome of decoding one item: its value, the cursor after its head,
/// and the number of bytes that it occupies.
pub type SpecDecode = Result<(ValueV, int, int), AbiDecodeError>;

/// The 32-byte word of `b` at `c`, where there is one.
pub open spec fn word_at(b: Seq<u8>, c: int) -> Option<Seq<u8>> {
    if c + 32 <= b.len() {
        Some(b.subrange(c, c + 32))
    } else {
        None
    }
}

/// The `usize` that a word holds.
pub open spec fn usize_of_word(w: Seq<u8>) -> Result<int, AbiDecodeError> {
    if !all_zero(w.subrange(0, 16)) {
        Err(AbiDecodeError::InvalidUsizeEncoding)
    } else if be_nat(w.subrange(16, 32)) > usize::MAX {
        Err(AbiDecodeError::InvalidUsizeEncoding)
    } else {
        Ok(be_nat(w.subrange(16, 32)) as int)
    }
}

/// The `usize` in the word of `b` at `c`.
pub open spec fn read_usize(b: Seq<u8>, c: int) -> Result<int, AbiDecodeError> {
    match word_at(b, c) {
        None => Err(AbiDecodeError::InvalidEncodingSize),
        Some(w) => usize_of_word(w),
    }
}

/// The offset in the word of `b` at `c`: at least 32 and at most the length.
pub open spec fn read_offset(b: Seq<u8>, c: int) -> Result<int, AbiDecodeError> {
    match read_usize(b, c) {
        Err(e) => Err(e),
        Ok(o) => if o > b.len() || o < 32 {
            Err(AbiDecodeError::InvalidUsizeEncoding)
        } else {
            Ok(o)
        },
    }
}

/// `v` rounded up to a multiple of 32.
pub open spec fn round_up_32(v: int) -> int {
    (v + 31) / 32 * 32
}

/// An unsigned integer of `k` bytes in a word: the first `32 - k` bytes must be zero.
pub open spec fn uint_of_word(w: Seq<u8>, k: int) -> Result<nat, AbiDecodeError> {
    if !all_zero(w.subrange(0, 32 - k)) {
        Err(AbiDecodeError::InvalidUintEncoding)
    } else {
        Ok(be_nat(w.subrange(32 - k, 32)))
    }
}

/// The value of an elementary (one-word) type in a word.
pub open spec fn decode_word_spec(t: TypeV, w: Seq<u8>) -> Result<ValueV, AbiDecodeError> {
    match t {
        TypeV::Bool => if !all_zero(w.subrange(0, 31)) {
            Err(AbiDecodeError::InvalidBoolEncoding)
        } else if w[31] == 0 {
            Ok(ValueV::Bool(false))
        } else if w[31] == 1 {
            Ok(ValueV::Bool(true))
        } else {
            Err(AbiDecodeError::InvalidBoolEncoding)
        },
        TypeV::U256 => Ok(ValueV::U256(be_nat(w))),
        TypeV::U128 => match uint_of_word(w, 16) {
            Err(e) => Err(e),
            Ok(x) => Ok(ValueV::U128(x as u128)),
        },
        TypeV::U64 => match uint_of_word(w, 8) {
            Err(e) => Err(e),
            Ok(x) => Ok(ValueV::U64(x as u64)),
        },
        TypeV::U32 => match uint_of_word(w, 4) {
            Err(e) => Err(e),
            Ok(x) => Ok(ValueV::U32(x as u32)),
        },
        TypeV::U16 => match uint_of_word(w, 2) {
            Err(e) => Err(e),
            Ok(x) => Ok(ValueV::U16(x as u16)),
        },
        TypeV::U8 => match uint_of_word(w, 1) {
            Err(e) => Err(e),
            Ok(x) => Ok(ValueV::U8(x as u8)),
        },
        TypeV::Address => if !all_zero(w.subrange(0, 12)) {
            Err(AbiDecodeError::InvalidAddressEncoding)
        } else {
            Ok(ValueV::Address(w.subrange(12, 32)))
        },
        _ => Ok(ValueV::Bytes32(w)),
    }
}

/// A byte string whose offset word stands at `c`: its bytes, the cursor after
/// the head, and the size.
pub open spec fn decode_bytes_spec(b: Seq<u8>, c: int) -> Result<
    (Seq<u8>, int, int),
    AbiDecodeError,
> {
    match read_offset(b, c) {
        Err(e) => Err(e),
        Ok(off) => match read_usize(b, off) {
            Err(e) => Err(e),
            Ok(len) => if len > usize::MAX - 31 {
                Err(AbiDecodeError::InvalidUsizeEncoding)
            } else {
                let r = round_up_32(len);
                if off + 32 + r > b.len() {
                    Err(AbiDecodeError::InvalidEncodingSize)
                } else {
                    let data = b.subrange(off + 32, off + 32 + r);
                    if !all_zero(data.subrange(len, r)) {
                        Err(AbiDecodeError::InvalidBytesEncoding)
                    } else {
                        Ok((data.subrange(0, len), c + 32, 64 + r))
                    }
                }
            },
        },
    }
}

/// Decodes an item of type `t` whose head stands at `c` in `b`.
pub open spec fn decode_spec(t: TypeV, b: Seq<u8>, c: int, top: bool) -> SpecDecode
    decreases t, 0nat,
{
    match t {
        TypeV::Bytes => match decode_bytes_spec(b, c) {
            Err(e) => Err(e),
            Ok((d, nc, s)) => Ok((ValueV::Bytes(d), nc, s)),
        },
        TypeV::String => match decode_bytes_spec(b, c) {
            Err(e) => if e == AbiDecodeError::InvalidBytesEncoding {
                Err(AbiDecodeError::InvalidStringEncoding)
            } else {
                Err(e)
            },
            Ok((d, nc, s)) => if valid_utf8(d) {
                Ok((ValueV::String(decode_utf8(d)), nc, s))
            } else {
                Err(AbiDecodeError::InvalidValueError)
            },
        },
        TypeV::DynamicArray(inner) => match read_offset(b, c) {
            Err(e) => Err(e),
            Ok(off) => match read_usize(b, off) {
                Err(e) => Err(e),
                Ok(n) => if off + 32 > b.len() {
                    Err(AbiDecodeError::InvalidUsizeEncoding)
                } else {
                    match decode_elems_spec(*inner, b.skip(off + 32), 0, n as nat, Seq::empty(), 0) {
                        Err(e) => Err(e),
                        Ok((vs, _dc, total)) => if 64 + total > usize::MAX {
                            Err(AbiDecodeError::InvalidEncodingSize)
                        } else {
                            Ok((ValueV::DynamicArray(vs), c + 32, 64 + total))
                        },
                    }
                },
            },
        },
        TypeV::Tuple(ts) => decode_tuple_spec(ts, b, c, !(top || type_is_static(t))),
        _ => match word_at(b, c) {
            None => Err(AbiDecodeError::InvalidEncodingSize),
            Some(w) => match decode_word_spec(t, w) {
                Err(e) => Err(e),
                Ok(v) => Ok((v, c + 32, 32)),
            },
        },
    }
}

/// Decodes `n` more items of type `t`, one after the other from `c`, having
/// decoded `acc` of total size `total` so far.
pub open spec fn decode_elems_spec(
    t: TypeV,
    b: Seq<u8>,
    c: int,
    n: nat,
    acc: Seq<ValueV>,
    total: int,
) -> Result<(Seq<ValueV>, int, int), AbiDecodeError>
    decreases t, n + 1,
{
    if n == 0 {
        Ok((acc, c, total))
    } else {
        match decode_spec(t, b, c, false) {
            Err(e) => Err(e),
            Ok((v, nc, s)) => if total + s > usize::MAX {
                Err(AbiDecodeError::InvalidEncodingSize)
            } else {
                decode_elems_spec(t, b, nc, (n - 1) as nat, acc.push(v), total + s)
            },
        }
    }
}

/// Decodes a tuple of the types `ts` whose head stands at `c`; a dynamic tuple
/// holds at `c` the offset of its own encoding.
pub open spec fn decode_tuple_spec(ts: Seq<TypeV>, b: Seq<u8>, c: int, dynamic: bool) -> SpecDecode
    decreases ts, ts.len() + 1,
{
    if ts.len() == 0 {
        Err(AbiDecodeError::ZeroSizedTypeError)
    } else if dynamic {
        match read_offset(b, c) {
            Err(e) => Err(e),
            Ok(off) => match decode_fields_spec(ts, b.skip(off), 0, 0, Seq::empty(), 32) {
                Err(e) => Err(e),
                Ok((vs, _dc, total)) => Ok((ValueV::Tuple(vs), c + 32, total)),
            },
        }
    } else {
        match decode_fields_spec(ts, b, c, 0, Seq::empty(), 0) {
            Err(e) => Err(e),
            Ok((vs, dc, total)) => Ok((ValueV::Tuple(vs), dc, total)),
        }
    }
}

/// Decodes the fields `ts[i..]` one after the other from `c`.
pub open spec fn decode_fields_spec(
    ts: Seq<TypeV>,
    b: Seq<u8>,
    c: int,
    i: nat,
    acc: Seq<ValueV>,
    total: int,
) -> Result<(Seq<ValueV>, int, int), AbiDecodeError>
    decreases ts, ts.len() - i,
{
    if i >= ts.len() {
        Ok((acc, c, total))
    } else {
        match decode_spec(ts[i as int], b, c, false) {
            Err(e) => Err(e),
            Ok((v, nc, s)) => if total + s > usize::MAX {
                Err(AbiDecodeError::InvalidEncodingSize)
            } else {
                decode_fields_spec(ts, b, nc, i + 1, acc.push(v), total + s)
            },
        }
    }
}

/// What `TypeV::decode` gives: the whole input must be the encoding.
pub open spec fn abi_decode_spec(t: TypeV, b: Seq<u8>) -> Result<ValueV, AbiDecodeError> {
    match decode_spec(t, b, 0, true) {
        Err(e) => Err(e),
        Ok((v, _nc, s)) => if s != b.len() {
            Err(AbiDecodeError::InvalidEncodingSize)
        } else {
            Ok(v)
        },
    }
}

/// One decoded item.
pub struct DecodeResult {
    pub value: Value,
    pub new_cursor: usize,
    pub size_in_bytes: usize,
}

/// Whether an executable outcome is the specified one.
pub open spec fn decode_matches(r: Result<DecodeResult, AbiDecodeError>, s: SpecDecode) -> bool {
    match (r, s) {
        (Ok(d), Ok((v, nc, sz))) => d.value@ == v && d.new_cursor == nc && d.size_in_bytes == sz,
        (Err(e), Err(e2)) => e == e2,
        _ => false,
    }
}

proof fn lemma_be_nat_zero(s: Seq<u8>)
    requires
        all_zero(s),
    ensures
        be_nat(s) == 0,
    decreases s.len(),
{
    if s.len() > 0 {
        lemma_be_nat_zero(s.drop_last());
    }
}

/// A word with a zero prefix spells the number of its suffix.
proof fn lemma_be_nat_zero_prefix(w: Seq<u8>, k: int)
    requires
        0 <= k <= w.len(),
        all_zero(w.subrange(0, k)),
    ensures
        be_nat(w) == be_nat(w.subrange(k, w.len() as int)),
{
    let p = w.subrange(0, k);
    let s = w.subrange(k, w.len() as int);
    assert(w =~= p + s);
    lemma_be_nat_concat(p, s);
    lemma_be_nat_zero(p);
}

fn read_first_32_bytes(bytes: &[u8], cursor: usize) -> (r: Result<[u8; 32], AbiDecodeError>)
    ensures
        match word_at(bytes@, cursor as int) {
            None => r == Err::<[u8; 32], AbiDecodeError>(AbiDecodeError::InvalidEncodingSize),
            Some(w) => r matches Ok(a) && a@ == w,
        },
        r is Ok ==> cursor + 32 <= bytes@.len(),
        bytes@.len() <= usize::MAX,
{
    if bytes.len() < cursor || bytes.len() - cursor < 32 {
        return Err(AbiDecodeError::InvalidEncodingSize);
    }
    let s = vstd::slice::slice_subrange(bytes, cursor, cursor + 32);
    let a = SizedBytes::<32>::from_slice(s);
    Ok(a.0)
}

fn are_all_zeros(v: &[u8]) -> (r: bool)
    ensures
        r == all_zero(v@),
{
    let mut i: usize = 0;
    while i < v.len()
        invariant
            i <= v@.len(),
            forall|j: int| 0 <= j < i ==> v@[j] == 0,
        decreases v@.len() - i,
    {
        if v[i] != 0 {
            return false;
        }
        i = i + 1;
    }
    true
}

fn bool_from_32bytes(v: [u8; 32]) -> (r: Result<bool, AbiDecodeError>)
    ensures
        match decode_word_spec(TypeV::Bool, v@) {
            Ok(ValueV::Bool(b)) => r == Ok::<bool, AbiDecodeError>(b),
            Ok(_) => false,
            Err(e) => r == Err::<bool, AbiDecodeError>(e),
        },
{
    if !are_all_zeros(vstd::slice::slice_subrange(v.as_slice(), 0, 31)) {
        return Err(AbiDecodeError::InvalidBoolEncoding);
    }
    if v[31] == 0 {
        Ok(false)
    } else if v[31] == 1 {
        Ok(true)
    } else {
        Err(AbiDecodeError::InvalidBoolEncoding)
    }
}

fn decode_bool_helper(bytes: &[u8], cursor: usize) -> (r: Result<DecodeResult, AbiDecodeError>)
    ensures
        decode_matches(r, decode_spec(TypeV::Bool, bytes@, cursor as int, false)),
        r matches Ok(d) ==> d.new_cursor <= bytes@.len(),
{
    let w = match read_first_32_bytes(bytes, cursor) {
        Ok(x) => x,
        Err(e) => return Err(e),
    };
    let v = match bool_from_32bytes(w) {
        Ok(x) => x,
        Err(e) => return Err(e),
    };
    Ok(DecodeResult { value: Value::Bool(v), new_cursor: cursor + 32, size_in_bytes: 32 })
}

fn decode_u256_helper(bytes: &[u8], cursor: usize) -> (r: Result<DecodeResult, AbiDecodeError>)
    ensures
        decode_matches(r, decode_spec(TypeV::U256, bytes@, cursor as int, false)),
        r matches Ok(d) ==> d.new_cursor <= bytes@.len(),
{
    let w = match read_first_32_bytes(bytes, cursor) {
        Ok(x) => x,
        Err(e) => return Err(e),
    };
    let v = U256::from_be_bytes(w);
    Ok(DecodeResult { value: Value::U256(v), new_cursor: cursor + 32, size_in_bytes: 32 })
}

/// The unsigned integer of `k` bytes in a word.
fn uint_from_32bytes(w: [u8; 32], k: usize) -> (r: Result<u128, AbiDecodeError>)
    requires
        1 <= k <= 16,
    ensures
        match uint_of_word(w@, k as int) {
            Ok(x) => r == Ok::<u128, AbiDecodeError>(x as u128) && x < pow256(k as nat),
            Err(e) => r == Err::<u128, AbiDecodeError>(e),
        },
{
    if !are_all_zeros(vstd::slice::slice_subrange(w.as_slice(), 0, 32 - k)) {
        return Err(AbiDecodeError::InvalidUintEncoding);
    }
    let v = U256::from_be_bytes(w);
    proof {
        lemma_be_nat_zero_prefix(w@, 32 - k);
        let suffix = w@.subrange(32 - k, 32);
        lemma_be_nat_bound(suffix);
        assert(suffix.len() == k);
        lemma_pow256_16();
        lemma_pow256_mono(k as nat, 16);
        assert(be_nat(w@) < two_pow_128());
        if v.hi > 0 {
            assert(v.hi as nat * two_pow_128() >= two_pow_128()) by (nonlinear_arith)
                requires v.hi >= 1;
        }
    }
    Ok(v.lo)
}

proof fn lemma_pow256_mono(a: nat, b: nat)
    requires
        a <= b,
    ensures
        pow256(a) <= pow256(b),
    decreases b,
{
    if a < b {
        lemma_pow256_mono(a, (b - 1) as nat);
        crate::u256::lemma_pow256_positive((b - 1) as nat);
    }
}

fn decode_u128_helper(bytes: &[u8], cursor: usize) -> (r: Result<DecodeResult, AbiDecodeError>)
    ensures
        decode_matches(r, decode_spec(TypeV::U128, bytes@, cursor as int, false)),
        r matches Ok(d) ==> d.new_cursor <= bytes@.len(),
{
    let w = match read_first_32_bytes(bytes, cursor) {
        Ok(x) => x,
        Err(e) => return Err(e),
    };
    let v = match uint_from_32bytes(w, 16) {
        Ok(x) => x,
        Err(e) => return Err(e),
    };
    Ok(DecodeResult { value: Value::U128(v), new_cursor: cursor + 32, size_in_bytes: 32 })
}

fn decode_u64_helper(bytes: &[u8], cursor: usize) -> (r: Result<DecodeResult, AbiDecodeError>)
    ensures
        decode_matches(r, decode_spec(TypeV::U64, bytes@, cursor as int, false)),
        r matches Ok(d) ==> d.new_cursor <= bytes@.len(),
{
    let w = match read_first_32_bytes(bytes, cursor) {
        Ok(x) => x,
        Err(e) => return Err(e),
    };
    let v = match uint_from_32bytes(w, 8) {
        Ok(x) => x,
        Err(e) => return Err(e),
    };
    proof {
        reveal_with_fuel(pow256, 9);
    }
    Ok(DecodeResult { value: Value::U64(v as u64), new_cursor: cursor + 32, size_in_bytes: 32 })
}

fn decode_u32_helper(bytes: &[u8], cursor: usize) -> (r: Result<DecodeResult, AbiDecodeError>)
    ensures
        decode_matches(r, decode_spec(TypeV::U32, bytes@, cursor as int, false)),
        r matches Ok(d) ==> d.new_cursor <= bytes@.len(),
{
    let w = match read_first_32_bytes(bytes, cursor) {
        Ok(x) => x,
        Err(e) => return Err(e),
    };
    let v = match uint_from_32bytes(w, 4) {
        Ok(x) => x,
        Err(e) => return Err(e),
    };
    proof {
        reveal_with_fuel(pow256, 5);
    }
    Ok(DecodeResult { value: Value::U32(v as u32), new_cursor: cursor + 32, size_in_bytes: 32 })
}

fn decode_u16_helper(bytes: &[u8], cursor: usize) -> (r: Result<DecodeResult, AbiDecodeError>)
    ensures
        decode_matches(r, decode_spec(TypeV::U16, bytes@, cursor as int, false)),
        r matches Ok(d) ==> d.new_cursor <= bytes@.len(),
{
    let w = match read_first_32_bytes(bytes, cursor) {
        Ok(x) => x,
        Err(e) => return Err(e),
    };
    let v = match uint_from_32bytes(w, 2) {
        Ok(x) => x,
        Err(e) => return Err(e),
    };
    proof {
        reveal_with_fuel(pow256, 3);
    }
    Ok(DecodeResult { value: Value::U16(v as u16), new_cursor: cursor + 32, size_in_bytes: 32 })
}

fn decode_u8_helper(bytes: &[u8], cursor: usize) -> (r: Result<DecodeResult, AbiDecodeError>)
    ensures
        decode_matches(r, decode_spec(TypeV::U8, bytes@, cursor as int, false)),
        r matches Ok(d) ==> d.new_cursor <= bytes@.len(),
{
    let w = match read_first_32_bytes(bytes, cursor) {
        Ok(x) => x,
        Err(e) => return Err(e),
    };
    let v = match uint_from_32bytes(w, 1) {
        Ok(x) => x,
        Err(e) => return Err(e),
    };
    proof {
        reveal_with_fuel(pow256, 2);
    }
    Ok(DecodeResult { value: Value::U8(v as u8), new_cursor: cursor + 32, size_in_bytes: 32 })
}

fn address_from_32_bytes(v: [u8; 32]) -> (r: Result<SizedBytes<20>, AbiDecodeError>)
    ensures
        match decode_word_spec(TypeV::Address, v@) {
            Ok(ValueV::Address(a)) => r matches Ok(x) && x@ == a,
            Ok(_) => false,
            Err(e) => r == Err::<SizedBytes<20>, AbiDecodeError>(e),
        },
{
    if !are_all_zeros(vstd::slice::slice_subrange(v.as_slice(), 0, 12)) {
        return Err(AbiDecodeError::InvalidAddressEncoding);
    }
    Ok(SizedBytes::<20>::from_slice(vstd::slice::slice_subrange(v.as_slice(), 12, 32)))
}

fn decode_address_helper(bytes: &[u8], cursor: usize) -> (r: Result<DecodeResult, AbiDecodeError>)
    ensures
        decode_matches(r, decode_spec(TypeV::Address, bytes@, cursor as int, false)),
        r matches Ok(d) ==> d.new_cursor <= bytes@.len(),
{
    let w = match read_first_32_bytes(bytes, cursor) {
        Ok(x) => x,
        Err(e) => return Err(e),
    };
    let v = match address_from_32_bytes(w) {
        Ok(x) => x,
        Err(e) => return Err(e),
    };
    Ok(DecodeResult { value: Value::Address(v), new_cursor: cursor + 32, size_in_bytes: 32 })
}

fn decode_bytes32_helper(bytes: &[u8], cursor: usize) -> (r: Result<DecodeResult, AbiDecodeError>)
    ensures
        decode_matches(r, decode_spec(TypeV::Bytes32, bytes@, cursor as int, false)),
        r matches Ok(d) ==> d.new_cursor <= bytes@.len(),
{
    let w = match read_first_32_bytes(bytes, cursor) {
        Ok(x) => x,
        Err(e) => return Err(e),
    };
    Ok(
        DecodeResult {
            value: Value::Bytes32(SizedBytes(w)),
            new_cursor: cursor + 32,
            size_in_bytes: 32,
        },
    )
}

fn usize_from_32_bytes(v: [u8; 32]) -> (r: Result<usize, AbiDecodeError>)
    ensures
        match usize_of_word(v@) {
            Ok(x) => r == Ok::<usize, AbiDecodeError>(x as usize),
            Err(e) => r == Err::<usize, AbiDecodeError>(e),
        },
{
    if !are_all_zeros(vstd::slice::slice_subrange(v.as_slice(), 0, 16)) {
        return Err(AbiDecodeError::InvalidUsizeEncoding);
    }
    let x = match uint_from_32bytes(v, 16) {
        Ok(x) => x,
        Err(e) => return Err(e),
    };
    proof {
        lemma_pow256_16();
    }
    if x > usize::MAX as u128 {
        return Err(AbiDecodeError::InvalidUsizeEncoding);
    }
    Ok(x as usize)
}

fn read_usize_at(bytes: &[u8], cursor: usize) -> (r: Result<usize, AbiDecodeError>)
    ensures
        match read_usize(bytes@, cursor as int) {
            Ok(x) => r == Ok::<usize, AbiDecodeError>(x as usize),
            Err(e) => r == Err::<usize, AbiDecodeError>(e),
        },
        r is Ok ==> cursor + 32 <= bytes@.len(),
        bytes@.len() <= usize::MAX,
{
    let w = match read_first_32_bytes(bytes, cursor) {
        Ok(x) => x,
        Err(e) => return Err(e),
    };
    usize_from_32_bytes(w)
}

fn read_offset_at(bytes: &[u8], cursor: usize) -> (r: Result<usize, AbiDecodeError>)
    ensures
        match read_offset(bytes@, cursor as int) {
            Ok(x) => r == Ok::<usize, AbiDecodeError>(x as usize),
            Err(e) => r == Err::<usize, AbiDecodeError>(e),
        },
        r is Ok ==> cursor + 32 <= bytes@.len(),
        r matches Ok(o) ==> 32 <= o <= bytes@.len(),
        bytes@.len() <= usize::MAX,
{
    let data_offset = match read_usize_at(bytes, cursor) {
        Ok(x) => x,
        Err(e) => return Err(e),
    };
    if data_offset > bytes.len() || data_offset < 32 {
        return Err(AbiDecodeError::InvalidUsizeEncoding);
    }
    Ok(data_offset)
}

fn read_prefix_bytes(bytes: &[u8], cursor: usize, length: usize) -> (r: Result<&[u8], AbiDecodeError>)
    ensures
        cursor + length <= bytes@.len() ==> (r matches Ok(s) && s@ == bytes@.subrange(
            cursor as int,
            cursor + length,
        )),
        cursor + length > bytes@.len() ==> r == Err::<&[u8], AbiDecodeError>(
            AbiDecodeError::InvalidEncodingSize,
        ),
{
    if bytes.len() < cursor || bytes.len() - cursor < length {
        return Err(AbiDecodeError::InvalidEncodingSize);
    }
    Ok(vstd::slice::slice_subrange(bytes, cursor, cursor + length))
}

fn round_up_to_multiple_of_32(v: usize) -> (r: Result<usize, AbiDecodeError>)
    ensures
        v > usize::MAX - 31 ==> r == Err::<usize, AbiDecodeError>(
            AbiDecodeError::InvalidUsizeEncoding,
        ),
        v <= usize::MAX - 31 ==> r == Ok::<usize, AbiDecodeError>(round_up_32(v as int) as usize),
{
    if usize::MAX - 31 < v {
        return Err(AbiDecodeError::InvalidUsizeEncoding);
    }
    Ok((v + 31) / 32 * 32)
}

fn decode_bytes_raw(bytes: &[u8], cursor: usize) -> (r: Result<(Vec<u8>, usize, usize), AbiDecodeError>)
    ensures
        match decode_bytes_spec(bytes@, cursor as int) {
            Ok((d, nc, s)) => r matches Ok((v, c2, s2)) && v@ == d && c2 == nc && s2 == s,
            Err(e) => r == Err::<(Vec<u8>, usize, usize), AbiDecodeError>(e),
        },
        r matches Ok((v, c2, s2)) ==> c2 <= bytes@.len(),
{
    let data_offset = match read_offset_at(bytes, cursor) {
        Ok(x) => x,
        Err(e) => return Err(e),
    };
    let length = match read_usize_at(bytes, data_offset) {
        Ok(x) => x,
        Err(e) => return Err(e),
    };
    let rounded_length = match round_up_to_multiple_of_32(length) {
        Ok(x) => x,
        Err(e) => return Err(e),
    };
    let data = match read_prefix_bytes(bytes, data_offset + 32, rounded_length) {
        Ok(x) => x,
        Err(e) => return Err(e),
    };
    proof {
        assert((length as int + 31) / 32 * 32 >= length) by (nonlinear_arith);
        assert((length as int + 31) / 32 * 32 <= length + 31) by (nonlinear_arith);
    }
    if !are_all_zeros(vstd::slice::slice_subrange(data, length, rounded_length)) {
        return Err(AbiDecodeError::InvalidBytesEncoding);
    }
    let v = copy_range(data, 0, length);
    Ok((v, cursor + 32, 64 + rounded_length))
}

fn decode_bytes_helper(bytes: &[u8], cursor: usize) -> (r: Result<DecodeResult, AbiDecodeError>)
    ensures
        decode_matches(r, decode_spec(TypeV::Bytes, bytes@, cursor as int, false)),
        r matches Ok(d) ==> d.new_cursor <= bytes@.len(),
{
    let (v, c, s) = match decode_bytes_raw(bytes, cursor) {
        Ok(x) => x,
        Err(e) => return Err(e),
    };
    Ok(DecodeResult { value: Value::Bytes(Bytes(v)), new_cursor: c, size_in_bytes: s })
}

fn decode_string_helper(bytes: &[u8], cursor: usize) -> (r: Result<DecodeResult, AbiDecodeError>)
    ensures
        decode_matches(r, decode_spec(TypeV::String, bytes@, cursor as int, false)),
        r matches Ok(d) ==> d.new_cursor <= bytes@.len(),
{
    match decode_bytes_raw(bytes, cursor) {
        Err(AbiDecodeError::InvalidBytesEncoding) => Err(AbiDecodeError::InvalidStringEncoding),
        Err(err) => Err(err),
        Ok((v, c, s)) => {
            let ghost d = v@;
            match string_from_utf8(v) {
                Some(st) => {
                    proof {
                        vstd::utf8::encode_utf8_decode_utf8(st@);
                    }
                    Ok(DecodeResult { value: Value::String(st), new_cursor: c, size_in_bytes: s })
                },
                None => Err(AbiDecodeError::InvalidValueError),
            }
        },
    }
}

impl Type {
    /// Decodes the whole of `bytes` as a value of this type.
    pub fn decode(&self, bytes: &[u8]) -> (r: Result<Value, AbiDecodeError>)
        ensures
            match abi_decode_spec(self@, bytes@) {
                Ok(v) => r matches Ok(x) && x@ == v,
                Err(e) => r == Err::<Value, AbiDecodeError>(e),
            },
    {
        let v = match self.decode_helper(bytes, 0, true) {
            Ok(x) => x,
            Err(e) => return Err(e),
        };
        if v.size_in_bytes != bytes.len() {
            return Err(AbiDecodeError::InvalidEncodingSize);
        }
        Ok(v.value)
    }

    /// `decode`, as offered to fuzzing harnesses.
    pub fn decode_fuzzhelper(&self, bytes: &[u8]) -> (r: Result<Value, AbiDecodeError>)
        ensures
            match abi_decode_spec(self@, bytes@) {
                Ok(v) => r matches Ok(x) && x@ == v,
                Err(e) => r == Err::<Value, AbiDecodeError>(e),
            },
    {
        self.decode(bytes)
    }

    fn decode_helper(&self, bytes: &[u8], cursor: usize, is_top_level: bool) -> (r: Result<
        DecodeResult,
        AbiDecodeError,
    >)
        ensures
            decode_matches(r, decode_spec(self@, bytes@, cursor as int, is_top_level)),
            r matches Ok(d) ==> d.new_cursor <= bytes@.len(),
        decreases *self, 0nat,
    {
        match self {
            Type::Bool => decode_bool_helper(bytes, cursor),
            Type::U256 => decode_u256_helper(bytes, cursor),
            Type::U128 => decode_u128_helper(bytes, cursor),
            Type::U64 => decode_u64_helper(bytes, cursor),
            Type::U32 => decode_u32_helper(bytes, cursor),
            Type::U16 => decode_u16_helper(bytes, cursor),
            Type::U8 => decode_u8_helper(bytes, cursor),
            Type::Address => decode_address_helper(bytes, cursor),
            Type::Bytes32 => decode_bytes32_helper(bytes, cursor),
            Type::Bytes => decode_bytes_helper(bytes, cursor),
            Type::String => decode_string_helper(bytes, cursor),
            Type::DynamicArray(type_to_decode) => decode_dynamic_array(
                type_to_decode,
                bytes,
                cursor,
            ),
            Type::Tuple(tuple) => {
                let is_dynamic = !(is_top_level || self.is_static());
                decode_tuple_helper(tuple, bytes, cursor, is_dynamic)
            },
        }
    }
}

fn decode_dynamic_array(type_to_decode: &Type, bytes: &[u8], cursor: usize) -> (r: Result<
    DecodeResult,
    AbiDecodeError,
>)
    ensures
        decode_matches(
            r,
            decode_spec(
                TypeV::DynamicArray(Box::new(type_to_decode@)),
                bytes@,
                cursor as int,
                false,
            ),
        ),
        r matches Ok(d) ==> d.new_cursor <= bytes@.len(),
    decreases *type_to_decode, 1nat,
{
    let data_offset = match read_offset_at(bytes, cursor) {
        Ok(x) => x,
        Err(e) => return Err(e),
    };
    let len_offset = data_offset;
    let length = match read_usize_at(bytes, len_offset) {
        Ok(x) => x,
        Err(e) => return Err(e),
    };
    let tail_offset = len_offset + 32;
    if tail_offset > bytes.len() {
        return Err(AbiDecodeError::InvalidUsizeEncoding);
    }
    let sub = vstd::slice::slice_subrange(bytes, tail_offset, bytes.len());
    assert(sub@ =~= bytes@.skip(tail_offset as int));
    let ghost whole = decode_elems_spec(type_to_decode@, sub@, 0, length as nat, Seq::empty(), 0);
    let ghost target = decode_spec(
        TypeV::DynamicArray(Box::new(type_to_decode@)),
        bytes@,
        cursor as int,
        false,
    );
    assert(target == match whole {
        Err(e) => Err(e),
        Ok((vs, _dc, total)) => if 64 + total > usize::MAX {
            Err(AbiDecodeError::InvalidEncodingSize)
        } else {
            Ok((ValueV::DynamicArray(vs), cursor + 32, 64 + total))
        },
    });
    let mut data_cursor: usize = 0;
    let mut total_size_in_bytes: usize = 0;
    let mut res: Vec<Value> = Vec::new();
    let mut i: usize = 0;
    while i < length
        invariant
            target == decode_spec(
                TypeV::DynamicArray(Box::new(type_to_decode@)),
                bytes@,
                cursor as int,
                false,
            ),
            target == match whole {
                Err(e) => Err(e),
                Ok((vs, _dc, total)) => if 64 + total > usize::MAX {
                    Err(AbiDecodeError::InvalidEncodingSize)
                } else {
                    Ok((ValueV::DynamicArray(vs), cursor + 32, 64 + total))
                },
            },
            cursor + 32 <= bytes@.len(),
            i <= length,
            whole == decode_elems_spec(type_to_decode@, sub@, 0, length as nat, Seq::empty(), 0),
            whole == decode_elems_spec(
                type_to_decode@,
                sub@,
                data_cursor as int,
                (length - i) as nat,
                values_view(res@),
                total_size_in_bytes as int,
            ),
        decreases length - i,
    {
        let v = match type_to_decode.decode_helper(sub, data_cursor, false) {
            Ok(x) => x,
            Err(e) => {
                proof {
                    assert(whole == Err::<(Seq<ValueV>, int, int), AbiDecodeError>(e));
                }
                return Err(e);
            },
        };
        if total_size_in_bytes > usize::MAX - v.size_in_bytes {
            proof {
                assert(whole == Err::<(Seq<ValueV>, int, int), AbiDecodeError>(
                    AbiDecodeError::InvalidEncodingSize,
                ));
            }
            return Err(AbiDecodeError::InvalidEncodingSize);
        }
        proof {
            lemma_values_view_push(res@, v.value);
        }
        total_size_in_bytes = total_size_in_bytes + v.size_in_bytes;
        data_cursor = v.new_cursor;
        res.push(v.value);
        i = i + 1;
    }
    if total_size_in_bytes > usize::MAX - 64 {
        return Err(AbiDecodeError::InvalidEncodingSize);
    }
    Ok(
        DecodeResult {
            value: Value::DynamicArray(res),
            new_cursor: cursor + 32,
            size_in_bytes: 64 + total_size_in_bytes,
        },
    )
}

fn decode_tuple_helper(tuple: &Vec<Type>, bytes: &[u8], cursor: usize, is_dynamic: bool) -> (r: Result<
    DecodeResult,
    AbiDecodeError,
>)
    ensures
        decode_matches(r, decode_tuple_spec(types_view(tuple@), bytes@, cursor as int, is_dynamic)),
        r matches Ok(d) ==> d.new_cursor <= bytes@.len(),
    decreases tuple@, 1nat,
{
    proof {
        lemma_types_view_len(tuple@);
    }
    if tuple.len() == 0 {
        return Err(AbiDecodeError::ZeroSizedTypeError);
    }
    let mut total_size_in_bytes: usize = 0;
    let mut data_cursor: usize = cursor;
    let mut sub: &[u8] = bytes;
    if is_dynamic {
        let data_offset = match read_offset_at(bytes, cursor) {
            Ok(x) => x,
            Err(e) => return Err(e),
        };
        total_size_in_bytes = 32;
        sub = vstd::slice::slice_subrange(bytes, data_offset, bytes.len());
        assert(sub@ =~= bytes@.skip(data_offset as int));
        data_cursor = 0;
    }
    let ghost whole = decode_fields_spec(
        types_view(tuple@),
        sub@,
        data_cursor as int,
        0,
        Seq::empty(),
        total_size_in_bytes as int,
    );
    let ghost start_cursor = data_cursor;
    let ghost target = decode_tuple_spec(types_view(tuple@), bytes@, cursor as int, is_dynamic);
    assert(target == match whole {
        Err(e) => Err(e),
        Ok((vs, dc, total)) => Ok((ValueV::Tuple(vs), if is_dynamic { cursor + 32 } else { dc }, total)),
    });
    let mut res: Vec<Value> = Vec::new();
    let mut i: usize = 0;
    while i < tuple.len()
        invariant
            target == decode_tuple_spec(types_view(tuple@), bytes@, cursor as int, is_dynamic),
            target == match whole {
                Err(e) => Err(e),
                Ok((vs, dc, total)) => Ok((ValueV::Tuple(vs), if is_dynamic { cursor + 32 } else { dc }, total)),
            },
            is_dynamic ==> cursor + 32 <= bytes@.len(),
            !is_dynamic ==> sub@ == bytes@,
            i <= tuple@.len(),
            tuple@.len() > 0,
            i > 0 ==> data_cursor <= sub@.len(),
            i == 0 ==> data_cursor == start_cursor,
            whole == decode_fields_spec(
                types_view(tuple@),
                sub@,
                data_cursor as int,
                i as nat,
                values_view(res@),
                total_size_in_bytes as int,
            ),
        decreases tuple@.len() - i,
    {
        proof {
            lemma_types_view_index(tuple@, i as int);
        }
        let v = match tuple[i].decode_helper(sub, data_cursor, false) {
            Ok(x) => x,
            Err(e) => {
                proof {
                    assert(whole == Err::<(Seq<ValueV>, int, int), AbiDecodeError>(e));
                }
                return Err(e);
            },
        };
        if total_size_in_bytes > usize::MAX - v.size_in_bytes {
            proof {
                assert(whole == Err::<(Seq<ValueV>, int, int), AbiDecodeError>(
                    AbiDecodeError::InvalidEncodingSize,
                ));
            }
            return Err(AbiDecodeError::InvalidEncodingSize);
        }
        proof {
            lemma_values_view_push(res@, v.value);
        }
        total_size_in_bytes = total_size_in_bytes + v.size_in_bytes;
        data_cursor = v.new_cursor;
        res.push(v.value);
        i = i + 1;
    }
    Ok(
        DecodeResult {
            value: Value::Tuple(res),
            new_cursor: if is_dynamic {
                cursor + 32
            } else {
                data_cursor
            },
            size_in_bytes: total_size_in_bytes,
        },
    )
}

} // verus!

verus! {

/// A type with a fixed ABI type to decode it from.
pub trait AbiTypeToDecode {
    /// The ABI type.
    spec fn spec_abi_type() -> TypeV;

    /// The ABI type, built.
    fn abi_type_to_decode() -> (t: Type)
        ensures
            t@ == Self::spec_abi_type(),
    ;
}

/// A type that an ABI value can be turned into.
pub trait AbiDecode: AbiTypeToDecode + Sized {
    /// The ABI value that an item stands for.
    spec fn spec_value(&self) -> ValueV;

    /// Whether an ABI value has the shape of an item.
    spec fn spec_decodable(v: ValueV) -> bool;

    /// Turns an ABI value into an item; a value of another shape is an
    /// `InvalidValueError`.
    fn try_from_value(v: Value) -> (r: Result<Self, AbiDecodeError>)
        ensures
            r is Ok <==> Self::spec_decodable(v@),
            r matches Ok(x) ==> x.spec_value() == v@,
            r matches Err(e) ==> e == AbiDecodeError::InvalidValueError,
    ;

    /// Decodes an item from the whole of `bytes`.
    fn abi_decode(bytes: &[u8]) -> (r: Result<Self, AbiDecodeError>)
        ensures
            match abi_decode_spec(Self::spec_abi_type(), bytes@) {
                Err(e) => r == Err::<Self, AbiDecodeError>(e),
                Ok(v) => (r is Ok <==> Self::spec_decodable(v)) && (r matches Ok(x)
                    ==> x.spec_value() == v) && (r matches Err(e) ==> e
                    == AbiDecodeError::InvalidValueError),
            },
    {
        let t = Self::abi_type_to_decode();
        match t.decode(bytes) {
            Ok(v) => Self::try_from_value(v),
            Err(e) => Err(e),
        }
    }
}

impl AbiTypeToDecode for bool {
    open spec fn spec_abi_type() -> TypeV {
        TypeV::Bool
    }

    fn abi_type_to_decode() -> (t: Type) {
        Type::Bool
    }
}

impl AbiDecode for bool {
    open spec fn spec_value(&self) -> ValueV {
        ValueV::Bool(*self)
    }

    open spec fn spec_decodable(v: ValueV) -> bool {
        v is Bool
    }

    fn try_from_value(v: Value) -> (r: Result<Self, AbiDecodeError>) {
        match v {
            Value::Bool(x) => Ok(x),
            _ => Err(AbiDecodeError::InvalidValueError),
        }
    }
}

impl AbiTypeToDecode for U256 {
    open spec fn spec_abi_type() -> TypeV {
        TypeV::U256
    }

    fn abi_type_to_decode() -> (t: Type) {
        Type::U256
    }
}

impl AbiDecode for U256 {
    open spec fn spec_value(&self) -> ValueV {
        ValueV::U256(self.value())
    }

    open spec fn spec_decodable(v: ValueV) -> bool {
        v is U256
    }

    fn try_from_value(v: Value) -> (r: Result<Self, AbiDecodeError>) {
        match v {
            Value::U256(x) => Ok(x),
            _ => Err(AbiDecodeError::InvalidValueError),
        }
    }
}

impl AbiTypeToDecode for u128 {
    open spec fn spec_abi_type() -> TypeV {
        TypeV::U128
    }

    fn abi_type_to_decode() -> (t: Type) {
        Type::U128
    }
}

impl AbiDecode for u128 {
    open spec fn spec_value(&self) -> ValueV {
        ValueV::U128(*self)
    }

    open spec fn spec_decodable(v: ValueV) -> bool {
        v is U128
    }

    fn try_from_value(v: Value) -> (r: Result<Self, AbiDecodeError>) {
        match v {
            Value::U128(x) => Ok(x),
            _ => Err(AbiDecodeError::InvalidValueError),
        }
    }
}

impl AbiTypeToDecode for u64 {
    open spec fn spec_abi_type() -> TypeV {
        TypeV::U64
    }

    fn abi_type_to_decode() -> (t: Type) {
        Type::U64
    }
}

impl AbiDecode for u64 {
    open spec fn spec_value(&self) -> ValueV {
        ValueV::U64(*self)
    }

    open spec fn spec_decodable(v: ValueV) -> bool {
        v is U64
    }

    fn try_from_value(v: Value) -> (r: Result<Self, AbiDecodeError>) {
        match v {
            Value::U64(x) => Ok(x),
            _ => Err(AbiDecodeError::InvalidValueError),
        }
    }
}

impl AbiTypeToDecode for u32 {
    open spec fn spec_abi_type() -> TypeV {
        TypeV::U32
    }

    fn abi_type_to_decode() -> (t: Type) {
        Type::U32
    }
}

impl AbiDecode for u32 {
    open spec fn spec_value(&self) -> ValueV {
        ValueV::U32(*self)
    }

    open spec fn spec_decodable(v: ValueV) -> bool {
        v is U32
    }

    fn try_from_value(v: Value) -> (r: Result<Self, AbiDecodeError>) {
        match v {
            Value::U32(x) => Ok(x),
            _ => Err(AbiDecodeError::InvalidValueError),
        }
    }
}

impl AbiTypeToDecode for u16 {
    open spec fn spec_abi_type() -> TypeV {
        TypeV::U16
    }

    fn abi_type_to_decode() -> (t: Type) {
        Type::U16
    }
}

impl AbiDecode for u16 {
    open spec fn spec_value(&self) -> ValueV {
        ValueV::U16(*self)
    }

    open spec fn spec_decodable(v: ValueV) -> bool {
        v is U16
    }

    fn try_from_value(v: Value) -> (r: Result<Self, AbiDecodeError>) {
        match v {
            Value::U16(x) => Ok(x),
            _ => Err(AbiDecodeError::InvalidValueError),
        }
    }
}

impl AbiTypeToDecode for u8 {
    open spec fn spec_abi_type() -> TypeV {
        TypeV::U8
    }

    fn abi_type_to_decode() -> (t: Type) {
        Type::U8
    }
}

impl AbiDecode for u8 {
    open spec fn spec_value(&self) -> ValueV {
        ValueV::U8(*self)
    }

    open spec fn spec_decodable(v: ValueV) -> bool {
        v is U8
    }

    fn try_from_value(v: Value) -> (r: Result<Self, AbiDecodeError>) {
        match v {
            Value::U8(x) => Ok(x),
            _ => Err(AbiDecodeError::InvalidValueError),
        }
    }
}

impl AbiTypeToDecode for SizedBytes<20> {
    open spec fn spec_abi_type() -> TypeV {
        TypeV::Address
    }

    fn abi_type_to_decode() -> (t: Type) {
        Type::Address
    }
}

impl AbiDecode for SizedBytes<20> {
    open spec fn spec_value(&self) -> ValueV {
        ValueV::Address(self@)
    }

    open spec fn spec_decodable(v: ValueV) -> bool {
        v is Address
    }

    fn try_from_value(v: Value) -> (r: Result<Self, AbiDecodeError>) {
        match v {
            Value::Address(x) => Ok(x),
            _ => Err(AbiDecodeError::InvalidValueError),
        }
    }
}

impl AbiTypeToDecode for SizedBytes<32> {
    open spec fn spec_abi_type() -> TypeV {
        TypeV::Bytes32
    }

    fn abi_type_to_decode() -> (t: Type) {
        Type::Bytes32
    }
}

impl AbiDecode for SizedBytes<32> {
    open spec fn spec_value(&self) -> ValueV {
        ValueV::Bytes32(self@)
    }

    open spec fn spec_decodable(v: ValueV) -> bool {
        v is Bytes32
    }

    fn try_from_value(v: Value) -> (r: Result<Self, AbiDecodeError>) {
        match v {
            Value::Bytes32(x) => Ok(x),
            _ => Err(AbiDecodeError::InvalidValueError),
        }
    }
}

impl AbiTypeToDecode for Bytes {
    open spec fn spec_abi_type() -> TypeV {
        TypeV::Bytes
    }

    fn abi_type_to_decode() -> (t: Type) {
        Type::Bytes
    }
}

impl AbiDecode for Bytes {
    open spec fn spec_value(&self) -> ValueV {
        ValueV::Bytes(self@)
    }

    open spec fn spec_decodable(v: ValueV) -> bool {
        v is Bytes
    }

    fn try_from_value(v: Value) -> (r: Result<Self, AbiDecodeError>) {
        match v {
            Value::Bytes(x) => Ok(x),
            _ => Err(AbiDecodeError::InvalidValueError),
        }
    }
}

impl AbiTypeToDecode for String {
    open spec fn spec_abi_type() -> TypeV {
        TypeV::String
    }

    fn abi_type_to_decode() -> (t: Type) {
        Type::String
    }
}

impl AbiDecode for String {
    open spec fn spec_value(&self) -> ValueV {
        ValueV::String(self@)
    }

    open spec fn spec_decodable(v: ValueV) -> bool {
        v is String
    }

    fn try_from_value(v: Value) -> (r: Result<Self, AbiDecodeError>) {
        match v {
            Value::String(x) => Ok(x),
            _ => Err(AbiDecodeError::InvalidValueError),
        }
    }
}

} // verus!

verus! {

/// The field values of a tuple value with exactly `n` fields.
pub fn into_tuple_fields(v: Value, n: usize) -> (r: Option<Vec<Value>>)
    ensures
        r is Some <==> (v@ is Tuple && v@->Tuple_0.len() == n),
        r matches Some(fs) ==> fs@.len() == n && values_view(fs@) == v@->Tuple_0,
{
    match v {
        Value::Tuple(fs) => {
            proof {
                crate::abi_types::lemma_values_view_len(fs@);
            }
            if fs.len() == n {
                Some(fs)
            } else {
                None
            }
        },
        _ => None,
    }
}

/// The element values of an array value.
pub fn into_array_elems(v: Value) -> (r: Option<Vec<Value>>)
    ensures
        r is Some <==> v@ is DynamicArray,
        r matches Some(es) ==> values_view(es@) == v@->DynamicArray_0,
{
    match v {
        Value::DynamicArray(es) => Some(es),
        _ => None,
    }
}

/// Whether every value of `vs` has the shape of a `T`.
pub open spec fn all_decodable<T: AbiDecode>(vs: Seq<ValueV>) -> bool {
    forall|i: int| 0 <= i < vs.len() ==> T::spec_decodable(#[trigger] vs[i])
}

/// The values that the items of `xs` stand for.
pub open spec fn values_of<T: AbiDecode>(xs: Seq<T>) -> Seq<ValueV> {
    Seq::new(xs.len(), |i: int| xs[i].spec_value())
}

/// Turns every value of `vs` into a `T`.
pub fn vec_from_values<T: AbiDecode>(vs: Vec<Value>) -> (r: Result<Vec<T>, AbiDecodeError>)
    ensures
        r is Ok <==> all_decodable::<T>(values_view(vs@)),
        r matches Ok(xs) ==> values_of(xs@) == values_view(vs@),
        r matches Err(e) ==> e == AbiDecodeError::InvalidValueError,
{
    let ghost orig = vs@;
    proof {
        crate::abi_types::lemma_values_view_len(orig);
    }
    let mut rest = vs;
    let mut rev: Vec<T> = Vec::new();
    while rest.len() > 0
        invariant
            orig == vs@,
            rest@.len() + rev@.len() == orig.len(),
            rest@ == orig.subrange(0, rest@.len() as int),
            values_view(orig).len() == orig.len(),
            forall|j: int|
                0 <= j < rev@.len() ==> (#[trigger] rev@[j]).spec_value() == values_view(orig)[orig.len() - 1 - j],
            forall|j: int|
                rest@.len() <= j < orig.len() ==> T::spec_decodable(#[trigger] values_view(orig)[j]),
        decreases rest@.len(),
    {
        let ghost k = rest@.len() - 1;
        let v = rest.pop().unwrap();
        proof {
            crate::abi_types::lemma_values_view_index(orig, k);
            assert(v == orig[k]);
        }
        match T::try_from_value(v) {
            Ok(x) => rev.push(x),
            Err(e) => {
                proof {
                    assert(!T::spec_decodable(values_view(orig)[k]));
                    assert(0 <= k < values_view(orig).len());
                    assert(!all_decodable::<T>(values_view(orig)));
                }
                return Err(e);
            },
        }
        assert(rest@ =~= orig.subrange(0, rest@.len() as int));
    }
    let mut out: Vec<T> = Vec::new();
    while rev.len() > 0
        invariant
            orig == vs@,
            out@.len() + rev@.len() == orig.len(),
            values_view(orig).len() == orig.len(),
            forall|j: int|
                0 <= j < rev@.len() ==> (#[trigger] rev@[j]).spec_value() == values_view(orig)[orig.len() - 1 - j],
            forall|j: int|
                0 <= j < out@.len() ==> (#[trigger] out@[j]).spec_value() == values_view(orig)[j],
        decreases rev@.len(),
    {
        let x = rev.pop().unwrap();
        out.push(x);
    }
    assert(values_of(out@) =~= values_view(orig));
    assert(all_decodable::<T>(values_view(orig)));
    Ok(out)
}

} // verus!

verus! {

impl<T: AbiTypeToDecode> AbiTypeToDecode for Vec<T> {
    open spec fn spec_abi_type() -> TypeV {
        TypeV::DynamicArray(Box::new(T::spec_abi_type()))
    }

    fn abi_type_to_decode() -> (t: Type) {
        Type::DynamicArray(Box::new(T::abi_type_to_decode()))
    }
}

impl<T: AbiDecode> AbiDecode for Vec<T> {
    open spec fn spec_value(&self) -> ValueV {
        ValueV::DynamicArray(values_of(self@))
    }

    open spec fn spec_decodable(v: ValueV) -> bool {
        v is DynamicArray && all_decodable::<T>(v->DynamicArray_0)
    }

    fn try_from_value(v: Value) -> (r: Result<Self, AbiDecodeError>) {
        match into_array_elems(v) {
            Some(es) => vec_from_values::<T>(es),
            None => Err(AbiDecodeError::InvalidValueError),
        }
    }
}

} // verus!

verus! {

/// The value model of a `T` decoded from `bytes`, or the error of decoding it.
pub open spec fn decode_to_value<T: AbiDecode>(bytes: Seq<u8>) -> Result<ValueV, AbiDecodeError> {
    match abi_decode_spec(T::spec_abi_type(), bytes) {
        Err(e) => Err(e),
        Ok(v) => if T::spec_decodable(v) {
            Ok(v)
        } else {
            Err(AbiDecodeError::InvalidValueError)
        },
    }
}

/// Decodes a `T` from the whole of `bytes`, stated through its value model.
pub fn abi_decode_as<T: AbiDecode>(bytes: &[u8]) -> (r: Result<T, AbiDecodeError>)
    ensures
        match decode_to_value::<T>(bytes@) {
            Err(e) => r == Err::<T, AbiDecodeError>(e),
            Ok(v) => r matches Ok(x) && x.spec_value() == v,
        },
{
    T::abi_decode(bytes)
}

impl<A: AbiTypeToDecode, B: AbiTypeToDecode> AbiTypeToDecode for (A, B) {
    open spec fn spec_abi_type() -> TypeV {
        TypeV::Tuple(seq![A::spec_abi_type(), B::spec_abi_type()])
    }

    fn abi_type_to_decode() -> (t: Type) {
        let mut ts: Vec<Type> = Vec::new();
        ts.push(A::abi_type_to_decode());
        ts.push(B::abi_type_to_decode());
        proof {
            lemma_types_view_index(ts@, 0);
            lemma_types_view_index(ts@, 1);
            assert(types_view(ts@) =~= seq![A::spec_abi_type(), B::spec_abi_type()]);
        }
        Type::Tuple(ts)
    }
}

impl<A: AbiDecode, B: AbiDecode> AbiDecode for (A, B) {
    open spec fn spec_value(&self) -> ValueV {
        ValueV::Tuple(seq![self.0.spec_value(), self.1.spec_value()])
    }

    open spec fn spec_decodable(v: ValueV) -> bool {
        v is Tuple && v->Tuple_0.len() == 2 && A::spec_decodable(v->Tuple_0[0]) && B::spec_decodable(
            v->Tuple_0[1],
        )
    }

    fn try_from_value(v: Value) -> (r: Result<Self, AbiDecodeError>) {
        let mut fs = match into_tuple_fields(v, 2) {
            Some(fs) => fs,
            None => return Err(AbiDecodeError::InvalidValueError),
        };
        let ghost orig = fs@;
        proof {
            crate::abi_types::lemma_values_view_index(orig, 0);
            crate::abi_types::lemma_values_view_index(orig, 1);
        }
        let f1 = fs.pop().unwrap();
        let f0 = fs.pop().unwrap();
        assert(f0 == orig[0] && f1 == orig[1]);
        let x0 = match A::try_from_value(f0) {
            Ok(x) => x,
            Err(e) => return Err(e),
        };
        let x1 = match B::try_from_value(f1) {
            Ok(x) => x,
            Err(e) => return Err(e),
        };
        proof {
            assert(seq![x0.spec_value(), x1.spec_value()] =~= values_view(orig));
        }
        Ok((x0, x1))
    }
}

} // verus!
