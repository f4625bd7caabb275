use vstd::prelude::*;
use vstd::utf8::encode_utf8;
use vstd::string::StringSliceAdditionalSpecFns;
use crate::abi_types::{
    lemma_values_view_index, lemma_values_view_len, value_is_static, value_view, values_view,
    Value, ValueV,
};
use crate::bytes::{extend_bytes, Bytes};
use crate::u256::{word, U256};

verus! {

broadcast use vstd::array::group_array_axioms;

/// `n` zero bytes.
pub open spec fn zeros(n: nat) -> Seq<u8> {
    Seq::new(n, |i: int| 0u8)
}

/// `v` padded with zeros to a multiple of 32 bytes.
pub open spec fn pad_right_spec(v: Seq<u8>) -> Seq<u8> {
    v + zeros(((32 - v.len() % 32) % 32) as nat)
}

/// The encoding of a byte string: its length, then its bytes padded.
pub open spec fn bytes_enc(b: Seq<u8>) -> Seq<u8> {
    word(b.len()) + pad_right_spec(b)
}

/// The encoding of a value in its place: the head of a static value, or the
/// tail of a dynamic one.
pub open spec fn enc(v: ValueV) -> Seq<u8>
    decreases v, 0nat,
{
    match v {
        ValueV::Bool(b) => word(if b { 1 } else { 0 }),
        ValueV::U256(x) => word(x),
        ValueV::U128(x) => word(x as nat),
        ValueV::U64(x) => word(x as nat),
        ValueV::U32(x) => word(x as nat),
        ValueV::U16(x) => word(x as nat),
        ValueV::U8(x) => word(x as nat),
        ValueV::Address(a) => zeros(12) + a,
        ValueV::Bytes32(b) => b,
        ValueV::Bytes(b) => bytes_enc(b),
        ValueV::String(s) => bytes_enc(encode_utf8(s)),
        ValueV::Tuple(vs) => tuple_enc(vs),
        ValueV::DynamicArray(vs) => word(vs.len()) + tuple_enc(vs),
    }
}

/// The size of the heads of a tuple: a static item in full, 32 bytes for the
/// offset of a dynamic one.
pub open spec fn head_size(vs: Seq<ValueV>) -> nat
    decreases vs, 0nat,
{
    if vs.len() == 0 {
        0
    } else {
        head_size(vs.drop_last()) + if value_is_static(vs.last()) {
            enc(vs.last()).len()
        } else {
            32
        }
    }
}

/// The encodings of the dynamic items of a tuple, one after the other.
pub open spec fn tails(vs: Seq<ValueV>) -> Seq<u8>
    decreases vs, 0nat,
{
    if vs.len() == 0 {
        seq![]
    } else {
        tails(vs.drop_last()) + if value_is_static(vs.last()) {
            seq![]
        } else {
            enc(vs.last())
        }
    }
}

/// The heads of a tuple whose heads take `h` bytes: a static item in full, and
/// for a dynamic item the offset of its tail.
pub open spec fn heads(vs: Seq<ValueV>, h: nat) -> Seq<u8>
    decreases vs, 0nat,
{
    if vs.len() == 0 {
        seq![]
    } else {
        heads(vs.drop_last(), h) + if value_is_static(vs.last()) {
            enc(vs.last())
        } else {
            word(h + tails(vs.drop_last()).len())
        }
    }
}

/// The encoding of a tuple: its heads, then its tails.
pub open spec fn tuple_enc(vs: Seq<ValueV>) -> Seq<u8>
    decreases vs, 1nat,
{
    heads(vs, head_size(vs)) + tails(vs)
}

/// What `encode_into` appends: a tuple is encoded as it is, any other value as
/// a tuple of one.
pub open spec fn abi_encode_spec(v: ValueV) -> Seq<u8> {
    match v {
        ValueV::Tuple(vs) => enc(v),
        _ => tuple_enc(seq![v]),
    }
}

pub(crate) proof fn lemma_word_len(n: nat)
    ensures
        word(n).len() == 32,
{
    crate::u256::lemma_be_fixed_len(n, 32);
}

pub(crate) proof fn lemma_heads_len(vs: Seq<ValueV>, h: nat)
    ensures
        heads(vs, h).len() == head_size(vs),
    decreases vs.len(),
{
    if vs.len() > 0 {
        lemma_heads_len(vs.drop_last(), h);
        lemma_word_len(h + tails(vs.drop_last()).len());
    }
}

pub(crate) proof fn lemma_tuple_enc_len(vs: Seq<ValueV>)
    ensures
        tuple_enc(vs).len() == head_size(vs) + tails(vs).len(),
{
    lemma_heads_len(vs, head_size(vs));
}

/// Every item of a tuple is no longer encoded than the tuple.
pub(crate) proof fn lemma_item_le_tuple(vs: Seq<ValueV>, j: int)
    requires
        0 <= j < vs.len(),
    ensures
        enc(vs[j]).len() <= head_size(vs) + tails(vs).len(),
        head_size(vs.subrange(0, j)) <= head_size(vs),
        tails(vs.subrange(0, j)).len() <= tails(vs).len(),
    decreases vs.len(),
{
    let p = vs.drop_last();
    if j < vs.len() - 1 {
        lemma_item_le_tuple(p, j);
        assert(p.subrange(0, j) =~= vs.subrange(0, j));
    } else {
        assert(vs.subrange(0, j) =~= p);
    }
}

pub(crate) proof fn lemma_prefix_le(vs: Seq<ValueV>, i: int)
    requires
        0 <= i <= vs.len(),
    ensures
        head_size(vs.subrange(0, i)) <= head_size(vs),
        tails(vs.subrange(0, i)).len() <= tails(vs).len(),
    decreases vs.len(),
{
    if i == vs.len() {
        assert(vs.subrange(0, i) =~= vs);
    } else {
        lemma_item_le_tuple(vs, i);
    }
}

/// `v` padded with zeros to a multiple of 32 bytes.
pub fn pad_right_to_multiple_of_32_bytes(v: &[u8]) -> (r: Vec<u8>)
    requires
        v@.len() + 31 <= usize::MAX,
    ensures
        r@ == pad_right_spec(v@),
{
    let mut out = crate::bytes::to_vec_u8(v);
    let pad_len = (32 - v.len() % 32) % 32;
    let mut k: usize = 0;
    while k < pad_len
        invariant
            k <= pad_len,
            pad_len == ((32 - v@.len() % 32) % 32),
            out@ == v@ + zeros(k as nat),
        decreases pad_len - k,
    {
        out.push(0);
        k = k + 1;
        assert(out@ =~= v@ + zeros(k as nat));
    }
    out
}

fn encode_word_of_usize(n: usize, bytes: &mut Vec<u8>)
    ensures
        final(bytes)@ == old(bytes)@ + word(n as nat),
{
    let w = U256::new(n as u128).to_word();
    extend_bytes(bytes, w.as_slice());
}

fn encode_bytes_into(b: &[u8], bytes: &mut Vec<u8>)
    requires
        bytes_enc(b@).len() <= usize::MAX,
    ensures
        final(bytes)@ == old(bytes)@ + bytes_enc(b@),
{
    proof {
        lemma_word_len(b@.len());
        assert(b@.len() + 31 <= usize::MAX) by {
            assert(pad_right_spec(b@).len() >= b@.len());
        }
    }
    let padded = pad_right_to_multiple_of_32_bytes(b);
    encode_word_of_usize(b.len(), bytes);
    extend_bytes(bytes, padded.as_slice());
    assert(final(bytes)@ =~= old(bytes)@ + bytes_enc(b@));
}

/// Appends the head encodings and the tail encodings of `tuple`.
fn encode_tuple_into(tuple: &Vec<Value>, bytes: &mut Vec<u8>)
    requires
        tuple_enc(values_view(tuple@)).len() <= usize::MAX,
    ensures
        final(bytes)@ == old(bytes)@ + tuple_enc(values_view(tuple@)),
    decreases tuple@, 1nat,
{
    let ghost vs = values_view(tuple@);
    proof {
        lemma_values_view_len(tuple@);
        lemma_tuple_enc_len(vs);
    }
    let mut total_head_size_in_bytes: usize = 0;
    let mut encodings: Vec<(bool, Vec<u8>)> = Vec::new();
    let mut i: usize = 0;
    while i < tuple.len()
        invariant
            i <= tuple@.len(),
            vs == values_view(tuple@),
            vs.len() == tuple@.len(),
            head_size(vs) + tails(vs).len() <= usize::MAX,
            encodings@.len() == i,
            total_head_size_in_bytes == head_size(vs.subrange(0, i as int)),
            forall|j: int|
                0 <= j < i ==> (#[trigger] encodings@[j]).0 == value_is_static(vs[j])
                    && encodings@[j].1@ == enc(vs[j]),
        decreases tuple@.len() - i,
    {
        proof {
            lemma_values_view_index(tuple@, i as int);
            lemma_item_le_tuple(vs, i as int);
            lemma_prefix_le(vs, i + 1);
            assert(vs.subrange(0, i + 1).drop_last() =~= vs.subrange(0, i as int));
        }
        let v = &tuple[i];
        let mut enc_v: Vec<u8> = Vec::new();
        let is_static = v.is_static();
        v.encode_actual_data_into(&mut enc_v);
        if is_static {
            total_head_size_in_bytes = total_head_size_in_bytes + enc_v.len();
        } else {
            total_head_size_in_bytes = total_head_size_in_bytes + 32;
        }
        encodings.push((is_static, enc_v));
        i = i + 1;
    }
    assert(vs.subrange(0, vs.len() as int) =~= vs);
    let h = total_head_size_in_bytes;
    let mut heads_b: Vec<u8> = Vec::new();
    let mut tails_b: Vec<u8> = Vec::new();
    let mut k: usize = 0;
    while k < encodings.len()
        invariant
            k <= encodings@.len(),
            encodings@.len() == vs.len(),
            h == head_size(vs),
            head_size(vs) + tails(vs).len() <= usize::MAX,
            forall|j: int|
                0 <= j < vs.len() ==> (#[trigger] encodings@[j]).0 == value_is_static(vs[j])
                    && encodings@[j].1@ == enc(vs[j]),
            heads_b@ == heads(vs.subrange(0, k as int), h as nat),
            tails_b@ == tails(vs.subrange(0, k as int)),
        decreases encodings@.len() - k,
    {
        proof {
            lemma_prefix_le(vs, k as int);
            assert(vs.subrange(0, k + 1).drop_last() =~= vs.subrange(0, k as int));
        }
        let is_static = encodings[k].0;
        if is_static {
            extend_bytes(&mut heads_b, encodings[k].1.as_slice());
        } else {
            encode_word_of_usize(h + tails_b.len(), &mut heads_b);
            extend_bytes(&mut tails_b, encodings[k].1.as_slice());
        }
        k = k + 1;
    }
    assert(vs.subrange(0, vs.len() as int) =~= vs);
    extend_bytes(bytes, heads_b.as_slice());
    extend_bytes(bytes, tails_b.as_slice());
    assert(final(bytes)@ =~= old(bytes)@ + tuple_enc(vs));
}

impl Value {
    /// Appends the encoding of the value in its place.
    pub fn encode_actual_data_into(&self, bytes: &mut Vec<u8>)
        requires
            enc(self@).len() <= usize::MAX,
        ensures
            final(bytes)@ == old(bytes)@ + enc(self@),
        decreases *self, 0nat,
    {
        proof {
            lemma_word_len(0);
        }
        match self {
            Value::Bool(v) => {
                let w = U256::new(if *v { 1 } else { 0 }).to_word();
                extend_bytes(bytes, w.as_slice());
            },
            Value::U256(v) => {
                let w = v.to_word();
                extend_bytes(bytes, w.as_slice());
            },
            Value::U128(v) => {
                let w = U256::new(*v).to_word();
                extend_bytes(bytes, w.as_slice());
            },
            Value::U64(v) => {
                let w = U256::new(*v as u128).to_word();
                extend_bytes(bytes, w.as_slice());
            },
            Value::U32(v) => {
                let w = U256::new(*v as u128).to_word();
                extend_bytes(bytes, w.as_slice());
            },
            Value::U16(v) => {
                let w = U256::new(*v as u128).to_word();
                extend_bytes(bytes, w.as_slice());
            },
            Value::U8(v) => {
                let w = U256::new(*v as u128).to_word();
                extend_bytes(bytes, w.as_slice());
            },
            Value::Address(v) => {
                let z = crate::bytes::SizedBytes::<12>::zero();
                assert(z@ =~= zeros(12));
                extend_bytes(bytes, z.as_slice());
                extend_bytes(bytes, v.as_slice());
                assert(final(bytes)@ =~= old(bytes)@ + enc(self@));
            },
            Value::Bytes32(v) => {
                extend_bytes(bytes, v.as_slice());
            },
            Value::Bytes(v) => {
                encode_bytes_into(v.as_slice(), bytes);
            },
            Value::String(s) => {
                let b = s.as_str().as_bytes();
                encode_bytes_into(b, bytes);
            },
            Value::Tuple(v) => {
                encode_tuple_into(v, bytes);
            },
            Value::DynamicArray(v) => {
                proof {
                    lemma_values_view_len(v@);
                    lemma_word_len(values_view(v@).len());
                }
                encode_word_of_usize(v.len(), bytes);
                encode_tuple_into(v, bytes);
                assert(final(bytes)@ =~= old(bytes)@ + enc(self@));
            },
        }
    }

    /// Appends the ABI encoding of the value: a tuple as it is, any other
    /// value as a tuple of one.
    pub fn encode_into(self, bytes: &mut Vec<u8>)
        requires
            abi_encode_spec(self@).len() <= usize::MAX,
        ensures
            final(bytes)@ == old(bytes)@ + abi_encode_spec(self@),
    {
        match self {
            Value::Tuple(_) => {
                self.encode_actual_data_into(bytes);
            },
            v => {
                let ghost vv = v@;
                let mut one: Vec<Value> = Vec::new();
                one.push(v);
                proof {
                    assert(one@ =~= seq![v]);
                    assert(seq![v].drop_last() =~= Seq::<Value>::empty());
                    assert(seq![v].last() == v);
                    assert(values_view(Seq::<Value>::empty()) =~= Seq::<ValueV>::empty());
                    assert(values_view(one@) == values_view(Seq::<Value>::empty()).push(value_view(v)));
                    assert(values_view(one@) =~= seq![vv]);
                }
                encode_tuple_into(&one, bytes);
            },
        }
    }
}

/// A value with an ABI encoding.
pub trait AbiEncode: Sized {
    /// Whether the encoding fits in memory.
    spec fn encodable(&self) -> bool;

    /// The ABI encoding.
    spec fn abi_encoding(&self) -> Seq<u8>;

    /// Appends the ABI encoding.
    fn abi_encode_into(self, bytes: &mut Vec<u8>)
        requires
            self.encodable(),
        ensures
            final(bytes)@ == old(bytes)@ + self.abi_encoding(),
    ;

    /// The ABI encoding, as bytes.
    fn abi_encode(self) -> (r: Bytes)
        requires
            self.encodable(),
        ensures
            r@ == self.abi_encoding(),
    ;
}

impl AbiEncode for Value {
    open spec fn encodable(&self) -> bool {
        abi_encode_spec(self@).len() <= usize::MAX
    }

    open spec fn abi_encoding(&self) -> Seq<u8> {
        abi_encode_spec(self@)
    }

    fn abi_encode_into(self, bytes: &mut Vec<u8>) {
        self.encode_into(bytes)
    }

    fn abi_encode(self) -> (r: Bytes) {
        let mut bytes: Vec<u8> = Vec::new();
        self.encode_into(&mut bytes);
        assert(bytes@ =~= abi_encode_spec(self@));
        Bytes(bytes)
    }
}


/// The length of the encoding of a byte string of `n` bytes, where it fits.
fn bytes_enc_len(n: usize) -> (r: Option<usize>)
    ensures
        match r {
            Some(m) => m == 32 + n + (32 - n % 32) % 32,
            None => 32 + n + (32 - n % 32) % 32 > usize::MAX,
        },
{
    let pad = (32 - n % 32) % 32;
    match n.checked_add(pad) {
        None => None,
        Some(m) => m.checked_add(32),
    }
}

pub(crate) proof fn lemma_bytes_enc_len(b: Seq<u8>)
    ensures
        bytes_enc(b).len() == 32 + b.len() + (32 - b.len() % 32) % 32,
{
    lemma_word_len(b.len());
}

/// The head size and the tail length of the encoding of `tuple`, where their
/// sum fits in `usize`.
pub fn tuple_parts_len(tuple: &Vec<Value>) -> (r: Option<(usize, usize)>)
    ensures
        match r {
            Some((h, t)) => h == head_size(values_view(tuple@)) && t == tails(
                values_view(tuple@),
            ).len() && h + t <= usize::MAX,
            None => head_size(values_view(tuple@)) + tails(values_view(tuple@)).len()
                > usize::MAX,
        },
    decreases tuple@, 1nat,
{
    let ghost vs = values_view(tuple@);
    proof {
        lemma_values_view_len(tuple@);
    }
    let mut h: usize = 0;
    let mut t: usize = 0;
    let mut i: usize = 0;
    while i < tuple.len()
        invariant
            i <= tuple@.len(),
            vs == values_view(tuple@),
            vs.len() == tuple@.len(),
            h == head_size(vs.subrange(0, i as int)),
            t == tails(vs.subrange(0, i as int)).len(),
            h + t <= usize::MAX,
        decreases tuple@.len() - i,
    {
        proof {
            lemma_values_view_index(tuple@, i as int);
            lemma_prefix_le(vs, i + 1);
            assert(vs.subrange(0, i + 1).drop_last() =~= vs.subrange(0, i as int));
            assert(vs.subrange(0, i + 1).last() == vs[i as int]);
        }
        let v = &tuple[i];
        let is_static = v.is_static();
        let l = match v.encoded_len() {
            Some(l) => l,
            None => {
                proof {
                    lemma_item_le_tuple(vs, i as int);
                }
                return None;
            },
        };
        if is_static {
            if l > usize::MAX - h - t {
                return None;
            }
            h = h + l;
        } else {
            if l > usize::MAX - h - t || 32 > usize::MAX - h - t - l {
                return None;
            }
            h = h + 32;
            t = t + l;
        }
        i = i + 1;
    }
    assert(vs.subrange(0, vs.len() as int) =~= vs);
    Some((h, t))
}

impl Value {
    /// The length of the encoding of the value in its place, where it fits in
    /// `usize`.
    pub fn encoded_len(&self) -> (r: Option<usize>)
        ensures
            match r {
                Some(n) => n == enc(self@).len(),
                None => enc(self@).len() > usize::MAX,
            },
        decreases *self, 0nat,
    {
        proof {
            lemma_word_len(0);
        }
        match self {
            Value::Bool(b) => {
                proof {
                    lemma_word_len(if *b { 1 } else { 0 });
                }
                Some(32)
            },
            Value::U256(x) => {
                proof {
                    lemma_word_len(x.value());
                }
                Some(32)
            },
            Value::U128(x) => {
                proof {
                    lemma_word_len(*x as nat);
                }
                Some(32)
            },
            Value::U64(x) => {
                proof {
                    lemma_word_len(*x as nat);
                }
                Some(32)
            },
            Value::U32(x) => {
                proof {
                    lemma_word_len(*x as nat);
                }
                Some(32)
            },
            Value::U16(x) => {
                proof {
                    lemma_word_len(*x as nat);
                }
                Some(32)
            },
            Value::U8(x) => {
                proof {
                    lemma_word_len(*x as nat);
                }
                Some(32)
            },
            Value::Address(_) => Some(32),
            Value::Bytes32(_) => Some(32),
            Value::Bytes(b) => {
                proof {
                    lemma_bytes_enc_len(b@);
                }
                bytes_enc_len(b.as_slice().len())
            },
            Value::String(s) => {
                proof {
                    lemma_bytes_enc_len(encode_utf8(s@));
                }
                bytes_enc_len(s.as_str().as_bytes().len())
            },
            Value::Tuple(vs) => {
                proof {
                    lemma_tuple_enc_len(values_view(vs@));
                }
                match tuple_parts_len(vs) {
                    None => None,
                    Some((h, t)) => Some(h + t),
                }
            },
            Value::DynamicArray(vs) => {
                proof {
                    lemma_tuple_enc_len(values_view(vs@));
                    lemma_word_len(values_view(vs@).len());
                }
                match tuple_parts_len(vs) {
                    None => None,
                    Some((h, t)) => if h + t > usize::MAX - 32 {
                        None
                    } else {
                        Some(32 + h + t)
                    },
                }
            },
        }
    }

    /// The length of what `abi_encode` gives for the value, where it fits in
    /// `usize`.
    pub fn abi_encoded_len(&self) -> (r: Option<usize>)
        ensures
            match r {
                Some(n) => n == abi_encode_spec(self@).len(),
                None => abi_encode_spec(self@).len() > usize::MAX,
            },
    {
        let n = match self.encoded_len() {
            None => {
                proof {
                    if !(self@ is Tuple) {
                        let vs = seq![self@];
                        lemma_item_le_tuple(vs, 0);
                        lemma_tuple_enc_len(vs);
                    }
                }
                return None;
            },
            Some(n) => n,
        };
        match self {
            Value::Tuple(_) => Some(n),
            _ => {
                let ghost vs = seq![self@];
                proof {
                    lemma_tuple_enc_len(vs);
                    assert(vs.drop_last() =~= Seq::<ValueV>::empty());
                    assert(head_size(Seq::<ValueV>::empty()) == 0);
                    assert(tails(Seq::<ValueV>::empty()) =~= Seq::<u8>::empty());
                }
                if self.is_static() {
                    Some(n)
                } else if n > usize::MAX - 32 {
                    None
                } else {
                    Some(32 + n)
                }
            },
        }
    }
}
} // verus!

verus! {

/// Whether a value is encoded in place in one 32-byte word.
pub open spec fn is_word_value(v: ValueV) -> bool {
    value_is_static(v) && enc(v).len() == 32
}

pub proof fn lemma_word_value_len(n: nat)
    ensures
        word(n).len() == 32,
{
    lemma_word_len(n);
}

/// The encodings of values, one after the other.
pub open spec fn encs_concat(vs: Seq<ValueV>) -> Seq<u8>
    decreases vs.len(),
{
    if vs.len() == 0 {
        seq![]
    } else {
        encs_concat(vs.drop_last()) + enc(vs.last())
    }
}

pub proof fn lemma_encs_concat_push(vs: Seq<ValueV>, v: ValueV)
    ensures
        encs_concat(vs.push(v)) == encs_concat(vs) + enc(v),
{
    assert(vs.push(v).drop_last() =~= vs);
}

proof fn lemma_static_heads_tails(vs: Seq<ValueV>, h: nat)
    requires
        forall|i: int| 0 <= i < vs.len() ==> value_is_static(#[trigger] vs[i]),
    ensures
        heads(vs, h) == encs_concat(vs),
        tails(vs) == Seq::<u8>::empty(),
    decreases vs.len(),
{
    if vs.len() > 0 {
        let p = vs.drop_last();
        assert forall|i: int| 0 <= i < p.len() implies value_is_static(#[trigger] p[i]) by {
            assert(p[i] == vs[i]);
        }
        lemma_static_heads_tails(p, h);
        assert(value_is_static(vs[vs.len() - 1]));
        assert(tails(vs) =~= Seq::<u8>::empty());
    }
}

/// A tuple of static values is encoded as their encodings one after the other.
pub proof fn lemma_static_tuple_enc(vs: Seq<ValueV>)
    requires
        forall|i: int| 0 <= i < vs.len() ==> value_is_static(#[trigger] vs[i]),
    ensures
        tuple_enc(vs) == encs_concat(vs),
{
    lemma_static_heads_tails(vs, head_size(vs));
    assert(tuple_enc(vs) =~= encs_concat(vs));
}

/// A tuple of one-word values is encoded in one word per value.
pub proof fn lemma_word_tuple_len(vs: Seq<ValueV>)
    requires
        forall|i: int| 0 <= i < vs.len() ==> is_word_value(#[trigger] vs[i]),
    ensures
        head_size(vs) == 32 * vs.len(),
        tails(vs).len() == 0,
        tuple_enc(vs).len() == 32 * vs.len(),
    decreases vs.len(),
{
    if vs.len() > 0 {
        lemma_word_tuple_len(vs.drop_last());
        assert(is_word_value(vs[vs.len() - 1]));
    }
    lemma_tuple_enc_len(vs);
}

} // verus!
