use crate::hex::{decode, encode, hex_decode_spec, hex_encode_spec};
use vstd::prelude::*;
use vstd::string::StringSliceAdditionalSpecFns;

verus! {

broadcast use vstd::array::group_array_axioms;

/// Returns whether two byte slices hold the same bytes.
pub fn slices_equal(a: &[u8], b: &[u8]) -> (r: bool)
    ensures
        r == (a@ == b@),
{
    if a.len() != b.len() {
        return false;
    }
    let mut i: usize = 0;
    while i < a.len()
        invariant
            a@.len() == b@.len(),
            i <= a@.len(),
            forall|j: int| 0 <= j < i ==> a@[j] == b@[j],
        decreases a@.len() - i,
    {
        if a[i] != b[i] {
            return false;
        }
        i = i + 1;
    }
    assert(a@ =~= b@);
    true
}

/// Appends the bytes of `s` to `v`.
pub fn extend_bytes(v: &mut Vec<u8>, s: &[u8])
    ensures
        final(v)@ == old(v)@ + s@,
{
    let mut i: usize = 0;
    while i < s.len()
        invariant
            i <= s@.len(),
            v@ == old(v)@ + s@.subrange(0, i as int),
        decreases s@.len() - i,
    {
        v.push(s[i]);
        i = i + 1;
        assert(v@ =~= old(v)@ + s@.subrange(0, i as int));
    }
    assert(s@.subrange(0, s@.len() as int) =~= s@);
}

/// Copies a byte slice into a new vector.
pub fn to_vec_u8(s: &[u8]) -> (r: Vec<u8>)
    ensures
        r@ == s@,
{
    let mut v: Vec<u8> = Vec::new();
    extend_bytes(&mut v, s);
    assert(v@ =~= s@);
    v
}

/// Copies the bytes `s[from..to]` into a new vector.
pub fn copy_range(s: &[u8], from: usize, to: usize) -> (r: Vec<u8>)
    requires
        from <= to <= s@.len(),
    ensures
        r@ == s@.subrange(from as int, to as int),
{
    let mut v: Vec<u8> = Vec::new();
    let mut i: usize = from;
    while i < to
        invariant
            from <= i <= to <= s@.len(),
            v@ == s@.subrange(from as int, i as int),
        decreases to - i,
    {
        v.push(s[i]);
        i = i + 1;
        assert(v@ =~= s@.subrange(from as int, i as int));
    }
    v
}

/// Whether every byte of `s` is zero.
pub open spec fn all_zero(s: Seq<u8>) -> bool {
    forall|i: int| 0 <= i < s.len() ==> s[i] == 0
}

/// A fixed-size byte string of `N` bytes.
#[derive(Clone, Copy, Debug, Hash)]
pub struct SizedBytes<const N: usize>(pub [u8; N]);

impl<const N: usize> View for SizedBytes<N> {
    type V = Seq<u8>;

    open spec fn view(&self) -> Seq<u8> {
        self.0@
    }
}

impl<const N: usize> PartialEq for SizedBytes<N> {
    fn eq(&self, other: &Self) -> (r: bool) {
        slices_equal(self.0.as_slice(), other.0.as_slice())
    }
}

impl<const N: usize> Eq for SizedBytes<N> {

}

impl<const N: usize> vstd::std_specs::cmp::PartialEqSpecImpl for SizedBytes<N> {
    open spec fn obeys_eq_spec() -> bool {
        true
    }

    open spec fn eq_spec(&self, other: &Self) -> bool {
        self@ == other@
    }
}

impl<const N: usize> SizedBytes<N> {
    /// The bytes, as a slice.
    pub fn as_slice(&self) -> (r: &[u8])
        ensures
            r@ == self@,
            r@.len() == N,
    {
        self.0.as_slice()
    }

    /// Builds the value from a vector of exactly `N` bytes; a vector of any
    /// other length is handed back as the error.
    pub fn from_vec(v: Vec<u8>) -> (r: Result<Self, Vec<u8>>)
        ensures
            v@.len() == N ==> (r matches Ok(b) && b@ == v@),
            v@.len() != N ==> (r matches Err(e) && e@ == v@),
    {
        if v.len() != N {
            return Err(v);
        }
        let mut arr = [0u8; N];
        let mut i: usize = 0;
        while i < N
            invariant
                v@.len() == N,
                i <= N,
                arr@.len() == N,
                forall|j: int| 0 <= j < i ==> arr@[j] == v@[j],
            decreases N - i,
        {
            arr[i] = v[i];
            i = i + 1;
        }
        assert(arr@ =~= v@);
        Ok(SizedBytes(arr))
    }

    /// Builds the value from a slice of exactly `N` bytes.
    pub fn from_slice(s: &[u8]) -> (r: Self)
        requires
            s@.len() == N,
        ensures
            r@ == s@,
    {
        let mut arr = [0u8; N];
        let mut i: usize = 0;
        while i < N
            invariant
                s@.len() == N,
                i <= N,
                arr@.len() == N,
                forall|j: int| 0 <= j < i ==> arr@[j] == s@[j],
            decreases N - i,
        {
            arr[i] = s[i];
            i = i + 1;
        }
        assert(arr@ =~= s@);
        SizedBytes(arr)
    }

    /// The value whose bytes are all zero.
    pub fn zero() -> (r: Self)
        ensures
            r@ == Seq::new(N as nat, |i: int| 0u8),
    {
        let mut arr = [0u8; N];
        let mut i: usize = 0;
        while i < N
            invariant
                i <= N,
                arr@.len() == N,
                forall|k: int| 0 <= k < i ==> arr@[k] == 0u8,
            decreases N - i,
        {
            arr[i] = 0;
            i = i + 1;
        }
        assert(arr@ =~= Seq::new(N as nat, |i: int| 0u8));
        SizedBytes(arr)
    }
}

/// Byte strings of one length with the same bytes are the same value.
pub proof fn lemma_sized_bytes_ext<const N: usize>(a: SizedBytes<N>, b: SizedBytes<N>)
    requires
        a@ == b@,
    ensures
        a == b,
{
    assert(a.0 =~= b.0) by {
        assert forall|i: int| 0 <= i < N implies a.0[i] == b.0[i] by {
            assert(a.0[i] == a@[i]);
            assert(b.0[i] == b@[i]);
        }
    }
}

/// Why a text is not a byte string of the wanted kind.
#[derive(Debug, PartialEq, Eq, Structural)]
pub enum BytesDecodeError {
    /// The text spells a different number of bytes.
    InvalidSize,
    /// The text holds a character that is not a hexadecimal digit.
    InvalidHex,
}

impl<const N: usize> SizedBytes<N> {
    /// Reads `N` bytes from hexadecimal text, with or without `0x`.
    pub fn from_str(s: &str) -> (r: Result<Self, BytesDecodeError>)
        ensures
            hex_decode_spec(s.spec_bytes()) is None ==> r == Err::<Self, BytesDecodeError>(
                BytesDecodeError::InvalidHex,
            ),
            hex_decode_spec(s.spec_bytes()) matches Some(b) ==> (if b.len() == N {
                r matches Ok(v) && v@ == b
            } else {
                r == Err::<Self, BytesDecodeError>(BytesDecodeError::InvalidSize)
            }),
    {
        match decode(s) {
            None => Err(BytesDecodeError::InvalidHex),
            Some(v) => match Self::from_vec(v) {
                Ok(b) => Ok(b),
                Err(_) => Err(BytesDecodeError::InvalidSize),
            },
        }
    }

    /// The bytes as `0x` and two lowercase hexadecimal digits each.
    pub fn to_string(&self) -> (r: String)
        ensures
            r@ == hex_encode_spec(self@),
    {
        encode(self.as_slice())
    }
}

/// A 20-byte string.
pub type Bytes20 = SizedBytes<20>;

/// A 32-byte string.
pub type Bytes32 = SizedBytes<32>;

/// An EVM account address.
pub type Address = Bytes20;

/// A byte string of any length.
#[derive(Debug, PartialEq, Eq, Hash)]
pub struct Bytes(pub Vec<u8>);

impl View for Bytes {
    type V = Seq<u8>;

    open spec fn view(&self) -> Seq<u8> {
        self.0@
    }
}

impl Clone for Bytes {
    fn clone(&self) -> (r: Self)
        ensures
            r@ == self@,
    {
        Bytes(to_vec_u8(self.0.as_slice()))
    }
}

impl Bytes {
    /// The number of bytes.
    pub fn len(&self) -> (r: usize)
        ensures
            r == self@.len(),
    {
        self.0.len()
    }

    /// Whether there are no bytes.
    pub fn is_empty(&self) -> (r: bool)
        ensures
            r == (self@.len() == 0),
    {
        self.len() == 0
    }

    /// Copies the bytes of a slice.
    pub fn from_ref(r: &[u8]) -> (b: Self)
        ensures
            b@ == r@,
    {
        Bytes(to_vec_u8(r))
    }

    /// The bytes, as a slice.
    pub fn as_slice(&self) -> (r: &[u8])
        ensures
            r@ == self@,
    {
        self.0.as_slice()
    }

    /// Whether two values hold the same bytes.
    pub fn equals(&self, other: &Bytes) -> (r: bool)
        ensures
            r == (self@ == other@),
    {
        slices_equal(self.0.as_slice(), other.0.as_slice())
    }
}

impl Bytes {
    /// Reads bytes from hexadecimal text, with or without `0x`.
    pub fn from_str(s: &str) -> (r: Result<Bytes, BytesDecodeError>)
        ensures
            hex_decode_spec(s.spec_bytes()) is None ==> r == Err::<Bytes, BytesDecodeError>(
                BytesDecodeError::InvalidHex,
            ),
            hex_decode_spec(s.spec_bytes()) matches Some(b) ==> (r matches Ok(v) && v@ == b),
    {
        match decode(s) {
            None => Err(BytesDecodeError::InvalidHex),
            Some(v) => Ok(Bytes(v)),
        }
    }

    /// The bytes as `0x` and two lowercase hexadecimal digits each.
    pub fn to_string(&self) -> (r: String)
        ensures
            r@ == hex_encode_spec(self@),
    {
        encode(self.as_slice())
    }
}

/// `prefix` followed by `bytes`.
pub fn prepend(prefix: u8, bytes: &[u8]) -> (v: Vec<u8>)
    ensures
        v@ == seq![prefix] + bytes@,
{
    let mut v: Vec<u8> = Vec::new();
    v.push(prefix);
    extend_bytes(&mut v, bytes);
    v
}

} // verus!
