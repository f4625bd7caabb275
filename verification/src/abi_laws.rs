use vstd::prelude::*;
use crate::abi_decode::{
    abi_decode_spec, decode_bytes_spec, decode_elems_spec, decode_fields_spec, decode_spec,
    decode_word_spec, read_offset, read_usize, round_up_32, word_at, AbiDecodeError,
};
use crate::abi_encode::{
    abi_encode_spec, bytes_enc, enc, head_size, pad_right_spec, heads, lemma_heads_len, lemma_prefix_le, lemma_tuple_enc_len, lemma_word_len,
    tails, tuple_enc, zeros,
};
use crate::abi_types::{type_is_static, types_all_static, value_is_static, values_all_static, TypeV, ValueV};
use crate::bytes::all_zero;
use crate::u256::{be_fixed, be_nat, lemma_be_fixed_len, pow256, word};

verus! {

proof fn lemma_be_fixed_zero(k: nat)
    ensures
        be_fixed(0, k) == zeros(k),
    decreases k,
{
    if k > 0 {
        lemma_be_fixed_zero((k - 1) as nat);
        assert(zeros((k - 1) as nat).push(0u8) =~= zeros(k));
    }
}

/// A number below `256^j` spelled in `k >= j` bytes is `k - j` zeros followed
/// by its spelling in `j` bytes.
proof fn lemma_be_fixed_small(n: nat, j: nat, k: nat)
    requires
        n < pow256(j),
        j <= k,
    ensures
        be_fixed(n, k) == zeros((k - j) as nat) + be_fixed(n, j),
    decreases k,
{
    if j == 0 {
        assert(n == 0);
        lemma_be_fixed_zero(k);
        assert(be_fixed(n, j) =~= Seq::<u8>::empty());
        assert(zeros(k) + Seq::<u8>::empty() =~= zeros(k));
    } else if j == k {
        assert(zeros(0) + be_fixed(n, j) =~= be_fixed(n, j));
    } else {
        let p = pow256((j - 1) as nat);
        assert(n / 256 < p) by (nonlinear_arith)
            requires
                n < 256 * p,
        ;
        lemma_be_fixed_small(n / 256, (j - 1) as nat, (k - 1) as nat);
        assert((zeros((k - j) as nat) + be_fixed(n / 256, (j - 1) as nat)).push((n % 256) as u8)
            =~= zeros((k - j) as nat) + be_fixed(n / 256, (j - 1) as nat).push((n % 256) as u8));
    }
}

/// A number below `256^k` spelled in `k` bytes reads back as itself.
proof fn lemma_be_nat_be_fixed(n: nat, k: nat)
    requires
        n < pow256(k),
    ensures
        be_nat(be_fixed(n, k)) == n,
    decreases k,
{
    if k > 0 {
        let p = pow256((k - 1) as nat);
        assert(n / 256 < p) by (nonlinear_arith)
            requires
                n < 256 * p,
        ;
        lemma_be_nat_be_fixed(n / 256, (k - 1) as nat);
        let s = be_fixed(n, k);
        assert(s.drop_last() =~= be_fixed(n / 256, (k - 1) as nat));
        assert(n == (n / 256) * 256 + n % 256) by (nonlinear_arith);
    }
}

proof fn lemma_pow256_values()
    ensures
        pow256(1) == 0x100,
        pow256(2) == 0x1_0000,
        pow256(4) == 0x1_0000_0000,
        pow256(8) == 0x1_0000_0000_0000_0000,
        pow256(16) == 0x1_0000_0000_0000_0000_0000_0000_0000_0000,
{
    reveal_with_fuel(pow256, 17);
}

/// A word spelling a number below `256^k` has zeros before its last `k`
/// bytes, which spell the number.
proof fn lemma_word_small(n: nat, k: nat)
    requires
        n < pow256(k),
        k <= 32,
    ensures
        word(n).len() == 32,
        all_zero(word(n).subrange(0, 32 - k)),
        word(n).subrange(32 - k, 32) == be_fixed(n, k),
        be_nat(word(n).subrange(32 - k, 32)) == n,
{
    lemma_be_fixed_small(n, k, 32);
    lemma_be_fixed_len(n, k);
    lemma_be_fixed_len(n, 32);
    let z = zeros((32 - k) as nat);
    assert(word(n).subrange(0, 32 - k) =~= z);
    assert(word(n).subrange(32 - k, 32) =~= be_fixed(n, k));
    lemma_be_nat_be_fixed(n, k);
}

/// Whether a value model is a well-formed value of a type: numbers in range,
/// addresses of 20 bytes, words of 32, no empty tuple, and the items of
/// tuples and arrays of their types.
pub open spec fn has_type(v: ValueV, t: TypeV) -> bool
    decreases v,
{
    match (v, t) {
        (ValueV::Bool(_), TypeV::Bool) => true,
        (ValueV::U256(x), TypeV::U256) => x < pow256(32),
        (ValueV::U128(_), TypeV::U128) => true,
        (ValueV::U64(_), TypeV::U64) => true,
        (ValueV::U32(_), TypeV::U32) => true,
        (ValueV::U16(_), TypeV::U16) => true,
        (ValueV::U8(_), TypeV::U8) => true,
        (ValueV::Address(a), TypeV::Address) => a.len() == 20,
        (ValueV::Bytes32(b), TypeV::Bytes32) => b.len() == 32,
        (ValueV::Bytes(_), TypeV::Bytes) => true,
        (ValueV::String(_), TypeV::String) => true,
        (ValueV::Tuple(vs), TypeV::Tuple(ts)) => vs.len() == ts.len() && vs.len() > 0 && forall|i: int|
            0 <= i < vs.len() ==> has_type(#[trigger] vs[i], ts[i]),
        (ValueV::DynamicArray(vs), TypeV::DynamicArray(inner)) => forall|i: int|
            0 <= i < vs.len() ==> has_type(#[trigger] vs[i], *inner),
        _ => false,
    }
}

/// Whether a type is encoded in a single word.
pub open spec fn is_word_type(t: TypeV) -> bool {
    match t {
        TypeV::Bytes | TypeV::String | TypeV::DynamicArray(_) | TypeV::Tuple(_) => false,
        _ => true,
    }
}

/// A value of a one-word type is encoded in one word that decodes back to it.
proof fn lemma_decode_word(v: ValueV, t: TypeV)
    requires
        has_type(v, t),
        is_word_type(t),
    ensures
        enc(v).len() == 32,
        decode_word_spec(t, enc(v)) == Ok::<ValueV, AbiDecodeError>(v),
{
    lemma_pow256_values();
    match v {
        ValueV::Bool(b) => {
            lemma_word_small(if b { 1 } else { 0 }, 1);
            let w = enc(v);
            assert(w.subrange(31, 32) == be_fixed(if b { 1 } else { 0 }, 1));
            assert(w[31] == w.subrange(31, 32)[0]);
            assert(be_fixed(if b { 1nat } else { 0nat }, 1)[0] == (if b { 1u8 } else { 0u8 }));
        },
        ValueV::U256(x) => {
            lemma_word_small(x, 32);
            assert(enc(v).subrange(0, 32) =~= enc(v));
        },
        ValueV::U128(x) => {
            lemma_word_small(x as nat, 16);
        },
        ValueV::U64(x) => {
            lemma_word_small(x as nat, 8);
        },
        ValueV::U32(x) => {
            lemma_word_small(x as nat, 4);
        },
        ValueV::U16(x) => {
            lemma_word_small(x as nat, 2);
        },
        ValueV::U8(x) => {
            lemma_word_small(x as nat, 1);
        },
        ValueV::Address(a) => {
            let w = enc(v);
            assert(w.subrange(0, 12) =~= zeros(12));
            assert(w.subrange(12, 32) =~= a);
        },
        ValueV::Bytes32(b) => {
        },
        _ => {
        },
    }
}

/// A well-formed value is static exactly when its type is.
proof fn lemma_static_agrees(v: ValueV, t: TypeV)
    requires
        has_type(v, t),
    ensures
        value_is_static(v) == type_is_static(t),
    decreases v, 1nat,
{
    match (v, t) {
        (ValueV::Tuple(vs), TypeV::Tuple(ts)) => {
            lemma_all_static_agrees(vs, ts);
        },
        _ => {
        },
    }
}

proof fn lemma_all_static_agrees(vs: Seq<ValueV>, ts: Seq<TypeV>)
    requires
        vs.len() == ts.len(),
        forall|i: int| 0 <= i < vs.len() ==> has_type(#[trigger] vs[i], ts[i]),
    ensures
        values_all_static(vs) == types_all_static(ts),
    decreases vs, 0nat,
{
    if vs.len() > 0 {
        let n = vs.len() - 1;
        assert(has_type(vs[n], ts[n]));
        lemma_static_agrees(vs[n], ts[n]);
        lemma_all_static_agrees(vs.drop_last(), ts.drop_last());
    }
}

/// The number of bytes that the decoder counts for a value: its encoding,
/// and the offset word of a dynamic value.
pub open spec fn dec_size(v: ValueV) -> int {
    enc(v).len() + if value_is_static(v) {
        0int
    } else {
        32int
    }
}

/// The bytes that the decoder counts for the items of a tuple.
pub open spec fn sum_sizes(vs: Seq<ValueV>) -> int
    decreases vs.len(),
{
    if vs.len() == 0 {
        0
    } else {
        sum_sizes(vs.drop_last()) + dec_size(vs.last())
    }
}

proof fn lemma_sum_sizes(vs: Seq<ValueV>)
    ensures
        sum_sizes(vs) == head_size(vs) + tails(vs).len(),
    decreases vs.len(),
{
    if vs.len() > 0 {
        lemma_sum_sizes(vs.drop_last());
    }
}

/// The encoding of a well-formed value takes at least a word.
proof fn lemma_enc_at_least_word(v: ValueV, t: TypeV)
    requires
        has_type(v, t),
    ensures
        enc(v).len() >= 32,
    decreases v, 1nat,
{
    match (v, t) {
        (ValueV::Tuple(vs), TypeV::Tuple(ts)) => {
            lemma_heads_at_least_words(vs, ts);
            lemma_tuple_enc_len(vs);
        },
        (ValueV::DynamicArray(vs), _) => {
            lemma_word_len(vs.len());
        },
        (ValueV::Bytes(b), _) => {
            lemma_word_len(b.len());
        },
        (ValueV::String(st), _) => {
            lemma_word_len(vstd::utf8::encode_utf8(st).len());
        },
        _ => {
            lemma_decode_word(v, t);
        },
    }
}

proof fn lemma_heads_at_least_words(vs: Seq<ValueV>, ts: Seq<TypeV>)
    requires
        vs.len() == ts.len(),
        forall|i: int| 0 <= i < vs.len() ==> has_type(#[trigger] vs[i], ts[i]),
    ensures
        head_size(vs) >= 32 * vs.len(),
    decreases vs, 0nat,
{
    if vs.len() > 0 {
        let n = vs.len() - 1;
        assert(has_type(vs[n], ts[n]));
        lemma_enc_at_least_word(vs[n], ts[n]);
        lemma_heads_at_least_words(vs.drop_last(), ts.drop_last());
    }
}

/// The heads of a prefix of the items are a prefix of the heads.
proof fn lemma_heads_prefix(vs: Seq<ValueV>, h: nat, k: int)
    requires
        0 <= k <= vs.len(),
    ensures
        head_size(vs.subrange(0, k)) <= heads(vs, h).len(),
        heads(vs.subrange(0, k), h) == heads(vs, h).subrange(0, head_size(vs.subrange(0, k)) as int),
    decreases vs.len(),
{
    lemma_heads_len(vs, h);
    lemma_heads_len(vs.subrange(0, k), h);
    lemma_prefix_le(vs, k);
    if k == vs.len() {
        assert(vs.subrange(0, k) =~= vs);
        assert(heads(vs, h).subrange(0, head_size(vs) as int) =~= heads(vs, h));
    } else {
        let p = vs.drop_last();
        lemma_heads_prefix(p, h, k);
        assert(p.subrange(0, k) =~= vs.subrange(0, k));
        lemma_heads_len(p, h);
        assert(heads(vs, h).subrange(0, head_size(vs.subrange(0, k)) as int) =~= heads(p, h).subrange(
            0,
            head_size(vs.subrange(0, k)) as int,
        ));
    }
}

/// The tails of a prefix of the items are a prefix of the tails.
proof fn lemma_tails_prefix(vs: Seq<ValueV>, k: int)
    requires
        0 <= k <= vs.len(),
    ensures
        tails(vs.subrange(0, k)).len() <= tails(vs).len(),
        tails(vs.subrange(0, k)) == tails(vs).subrange(0, tails(vs.subrange(0, k)).len() as int),
    decreases vs.len(),
{
    lemma_prefix_le(vs, k);
    if k == vs.len() {
        assert(vs.subrange(0, k) =~= vs);
        assert(tails(vs).subrange(0, tails(vs).len() as int) =~= tails(vs));
    } else {
        let p = vs.drop_last();
        lemma_tails_prefix(p, k);
        assert(p.subrange(0, k) =~= vs.subrange(0, k));
        lemma_prefix_le(p, k);
        assert(tails(vs).subrange(0, tails(vs.subrange(0, k)).len() as int) =~= tails(p).subrange(
            0,
            tails(vs.subrange(0, k)).len() as int,
        ));
    }
}

/// The head of item `j` and, for a dynamic item, its tail, where they stand
/// in the encoding of the tuple.
proof fn lemma_item_in_tuple(vs: Seq<ValueV>, j: int)
    requires
        0 <= j < vs.len(),
    ensures
        ({
            let e = tuple_enc(vs);
            let hs = head_size(vs.subrange(0, j)) as int;
            let ts = tails(vs.subrange(0, j)).len() as int;
            let o = head_size(vs) + ts;
            &&& head_size(vs.subrange(0, j + 1)) == hs + (if value_is_static(vs[j]) {
                enc(vs[j]).len() as int
            } else {
                32
            })
            &&& sum_sizes(vs.subrange(0, j + 1)) == sum_sizes(vs.subrange(0, j)) + dec_size(vs[j])
            &&& head_size(vs.subrange(0, j + 1)) <= head_size(vs)
            &&& e.len() == head_size(vs) + tails(vs).len()
            &&& value_is_static(vs[j]) ==> e.subrange(hs, hs + enc(vs[j]).len()) == enc(vs[j])
            &&& !value_is_static(vs[j]) ==> {
                &&& e.subrange(hs, hs + 32) == word(o as nat)
                &&& o + enc(vs[j]).len() <= e.len()
                &&& e.subrange(o, o + enc(vs[j]).len()) == enc(vs[j])
            }
        }),
{
    let h = head_size(vs);
    let e = tuple_enc(vs);
    let pj = vs.subrange(0, j);
    let pj1 = vs.subrange(0, j + 1);
    assert(pj1.drop_last() =~= pj);
    assert(pj1.last() == vs[j]);
    lemma_tuple_enc_len(vs);
    lemma_heads_len(vs, h);
    lemma_heads_prefix(vs, h, j + 1);
    lemma_tails_prefix(vs, j + 1);
    lemma_heads_len(pj, h);
    let hs = head_size(pj) as int;
    let hd = heads(pj1, h);
    assert(hd == heads(pj, h) + if value_is_static(vs[j]) {
        enc(vs[j])
    } else {
        word(h + tails(pj).len())
    });
    assert(e.subrange(0, h as int) =~= heads(vs, h));
    if value_is_static(vs[j]) {
        assert(e.subrange(hs, hs + enc(vs[j]).len()) =~= hd.subrange(hs, hs + enc(vs[j]).len()));
        assert(hd.subrange(hs, hs + enc(vs[j]).len()) =~= enc(vs[j]));
    } else {
        lemma_word_len(h + tails(pj).len());
        assert(e.subrange(hs, hs + 32) =~= hd.subrange(hs, hs + 32));
        assert(hd.subrange(hs, hs + 32) =~= word(h + tails(pj).len()));
        let tp = tails(pj1);
        assert(tp == tails(pj) + enc(vs[j]));
        let o = h + tails(pj).len() as int;
        assert(e.subrange(h as int, e.len() as int) =~= tails(vs));
        assert(e.subrange(o, o + enc(vs[j]).len()) =~= tails(vs).subrange(
            tails(pj).len() as int,
            tails(pj).len() + enc(vs[j]).len() as int,
        ));
        assert(tails(vs).subrange(tails(pj).len() as int, tails(pj).len() + enc(vs[j]).len() as int) =~= tp.subrange(
            tails(pj).len() as int,
            tails(pj).len() + enc(vs[j]).len() as int,
        ));
    }
}

proof fn lemma_all_static_items(vs: Seq<ValueV>, j: int)
    requires
        values_all_static(vs),
        0 <= j < vs.len(),
    ensures
        value_is_static(vs[j]),
    decreases vs.len(),
{
    if j < vs.len() - 1 {
        lemma_all_static_items(vs.drop_last(), j);
    }
}

proof fn lemma_all_static_no_tails(vs: Seq<ValueV>)
    requires
        values_all_static(vs),
    ensures
        tails(vs) == Seq::<u8>::empty(),
    decreases vs.len(),
{
    if vs.len() > 0 {
        lemma_all_static_no_tails(vs.drop_last());
        assert(tails(vs) =~= Seq::<u8>::empty());
    }
}

/// A word that spells a number that fits in `usize` reads back as it.
proof fn lemma_read_usize(f: Seq<u8>, c: int, n: int)
    requires
        0 <= c,
        c + 32 <= f.len(),
        0 <= n <= usize::MAX,
        f.subrange(c, c + 32) == word(n as nat),
    ensures
        read_usize(f, c) == Ok::<int, AbiDecodeError>(n),
{
    lemma_pow256_values();
    lemma_word_small(n as nat, 16);
    assert(word_at(f, c) == Some(f.subrange(c, c + 32)));
}

proof fn lemma_read_offset(f: Seq<u8>, c: int, o: int)
    requires
        0 <= c,
        c + 32 <= f.len(),
        32 <= o <= f.len(),
        f.len() <= usize::MAX,
        f.subrange(c, c + 32) == word(o as nat),
    ensures
        read_offset(f, c) == Ok::<int, AbiDecodeError>(o),
{
    lemma_read_usize(f, c, o);
}

proof fn lemma_round_up(l: int)
    requires
        l >= 0,
    ensures
        round_up_32(l) == l + (32 - l % 32) % 32,
{
    let q = l / 32;
    let r = l % 32;
    vstd::arithmetic::div_mod::lemma_fundamental_div_mod(l, 32);
    if r == 0 {
        vstd::arithmetic::div_mod::lemma_fundamental_div_mod_converse(l + 31, 32, q, 31);
        assert((32 - r) % 32 == 0);
    } else {
        vstd::arithmetic::div_mod::lemma_fundamental_div_mod_converse(l + 31, 32, q + 1, r - 1);
        assert((32 - r) % 32 == 32 - r);
    }
    assert(round_up_32(l) == (l + 31) / 32 * 32);
}

/// A byte string whose offset word stands at `c` and whose encoding stands at
/// the offset decodes back to it.
proof fn lemma_decode_bytes(d: Seq<u8>, f: Seq<u8>, c: int, o: int)
    requires
        0 <= c,
        c + 32 <= f.len(),
        f.len() <= usize::MAX,
        f.subrange(c, c + 32) == word(o as nat),
        32 <= o,
        o + bytes_enc(d).len() <= f.len(),
        f.subrange(o, o + bytes_enc(d).len()) == bytes_enc(d),
    ensures
        decode_bytes_spec(f, c) == Ok::<(Seq<u8>, int, int), AbiDecodeError>(
            (d, c + 32, 32 + bytes_enc(d).len() as int),
        ),
{
    let l = d.len() as int;
    let pad = (32 - l % 32) % 32;
    lemma_word_len(d.len());
    assert(bytes_enc(d).len() == 32 + l + pad);
    lemma_read_offset(f, c, o);
    assert(f.subrange(o, o + 32) =~= bytes_enc(d).subrange(0, 32));
    assert(bytes_enc(d).subrange(0, 32) =~= word(d.len()));
    lemma_read_usize(f, o, l);
    lemma_round_up(l);
    let r = round_up_32(l);
    let data = f.subrange(o + 32, o + 32 + r);
    assert(pad_right_spec(d).len() == l + pad);
    assert(bytes_enc(d).subrange(32, 32 + r) =~= pad_right_spec(d));
    assert(data =~= bytes_enc(d).subrange(32, 32 + r));
    assert(data.subrange(l, r) =~= zeros(pad as nat));
    assert(data.subrange(0, l) =~= d);
}

/// Decoding `n` items of one type is decoding the fields of a tuple of `n`
/// items of that type.
proof fn lemma_elems_as_fields(t: TypeV, b: Seq<u8>, c: int, n: nat, acc: Seq<ValueV>, total: int)
    ensures
        decode_elems_spec(t, b, c, n, acc, total) == decode_fields_spec(
            Seq::new(acc.len() + n, |_i: int| t),
            b,
            c,
            acc.len(),
            acc,
            total,
        ),
    decreases n,
{
    let ts = Seq::new(acc.len() + n, |_i: int| t);
    if n > 0 {
        assert(ts[acc.len() as int] == t);
        match decode_spec(t, b, c, false) {
            Err(e) => {
            },
            Ok((v, nc, s)) => {
                if total + s <= usize::MAX {
                    lemma_elems_as_fields(t, b, nc, (n - 1) as nat, acc.push(v), total + s);
                    assert(Seq::new(acc.push(v).len() + (n - 1) as nat, |_i: int| t) =~= ts);
                }
            },
        }
    }
}

/// Where a value of a type is placed in `f` at `c` as a tuple places its
/// items (a static value in full, a dynamic one as the offset word of its
/// encoding), the decoder gives the value back, with the cursor after its
/// head and the number of bytes it counts for it.
proof fn lemma_decode_item(t: TypeV, v: ValueV, f: Seq<u8>, c: int, o: int)
    requires
        has_type(v, t),
        f.len() <= usize::MAX,
        0 <= c,
        value_is_static(v) ==> c + enc(v).len() <= f.len() && f.subrange(c, c + enc(v).len()) == enc(v),
        !value_is_static(v) ==> {
            &&& c + 32 <= f.len()
            &&& f.subrange(c, c + 32) == word(o as nat)
            &&& 32 <= o
            &&& o + enc(v).len() <= f.len()
            &&& f.subrange(o, o + enc(v).len()) == enc(v)
        },
    ensures
        decode_spec(t, f, c, false) == Ok::<(ValueV, int, int), AbiDecodeError>(
            (v, c + if value_is_static(v) {
                enc(v).len() as int
            } else {
                32
            }, dec_size(v)),
        ),
    decreases v, 1nat,
{
    lemma_static_agrees(v, t);
    match (v, t) {
        (ValueV::Bytes(d), TypeV::Bytes) => {
            lemma_decode_bytes(d, f, c, o);
        },
        (ValueV::String(st), TypeV::String) => {
            let d = vstd::utf8::encode_utf8(st);
            lemma_decode_bytes(d, f, c, o);
            vstd::utf8::encode_utf8_valid_utf8(st);
            vstd::utf8::encode_utf8_decode_utf8(st);
        },
        (ValueV::Tuple(vs), TypeV::Tuple(ts)) => {
            lemma_tuple_enc_len(vs);
            assert(vs.subrange(0, 0) =~= Seq::<ValueV>::empty());
            lemma_sum_sizes(vs);
            if value_is_static(v) {
                lemma_all_static_no_tails(vs);
                lemma_decode_fields(ts, vs, f, c, 0, 0);
            } else {
                lemma_read_offset(f, c, o);
                let g = f.skip(o);
                assert(g.subrange(0, enc(v).len() as int) =~= f.subrange(o, o + enc(v).len()));
                lemma_decode_fields(ts, vs, g, 0, 0, 32);
            }
        },
        (ValueV::DynamicArray(vs), TypeV::DynamicArray(inner)) => {
            let n = vs.len();
            let tsv = Seq::new(n, |_i: int| *inner);
            lemma_read_offset(f, c, o);
            lemma_word_len(n);
            lemma_tuple_enc_len(vs);
            assert forall|i: int| 0 <= i < vs.len() implies has_type(#[trigger] vs[i], tsv[i]) by {
                assert(has_type(vs[i], *inner));
            }
            lemma_heads_at_least_words(vs, tsv);
            assert(f.subrange(o, o + 32) =~= enc(v).subrange(0, 32));
            assert(enc(v).subrange(0, 32) =~= word(n));
            lemma_read_usize(f, o, n as int);
            let g = f.skip(o + 32);
            assert(g.subrange(0, tuple_enc(vs).len() as int) =~= enc(v).subrange(32, enc(v).len() as int));
            assert(enc(v).subrange(32, enc(v).len() as int) =~= tuple_enc(vs));
            assert(vs.subrange(0, 0) =~= Seq::<ValueV>::empty());
            lemma_sum_sizes(vs);
            lemma_elems_as_fields(*inner, g, 0, n, Seq::<ValueV>::empty(), 0);
            assert(Seq::new(Seq::<ValueV>::empty().len() + n, |_i: int| *inner) =~= tsv);
            lemma_decode_fields(tsv, vs, g, 0, 0, 0);
        },
        _ => {
            lemma_decode_word(v, t);
            assert(word_at(f, c) == Some(f.subrange(c, c + 32)));
        },
    }
}

/// The fields of a tuple placed in `f` as the tuple's encoding places them
/// (at the start of `f`, or anywhere when all are static) decode back to
/// the tuple's items.
proof fn lemma_decode_fields(ts: Seq<TypeV>, vs: Seq<ValueV>, f: Seq<u8>, c0: int, i: nat, init: int)
    requires
        vs.len() == ts.len(),
        forall|j: int| 0 <= j < vs.len() ==> has_type(#[trigger] vs[j], ts[j]),
        0 <= c0,
        c0 + tuple_enc(vs).len() <= f.len(),
        f.subrange(c0, c0 + tuple_enc(vs).len()) == tuple_enc(vs),
        c0 == 0 || values_all_static(vs),
        f.len() <= usize::MAX,
        0 <= init,
        init + tuple_enc(vs).len() <= usize::MAX,
        i <= vs.len(),
    ensures
        decode_fields_spec(
            ts,
            f,
            c0 + head_size(vs.subrange(0, i as int)),
            i,
            vs.subrange(0, i as int),
            init + sum_sizes(vs.subrange(0, i as int)),
        ) == Ok::<(Seq<ValueV>, int, int), AbiDecodeError>(
            (vs, c0 + head_size(vs), init + sum_sizes(vs)),
        ),
    decreases vs, vs.len() - i,
{
    lemma_tuple_enc_len(vs);
    lemma_sum_sizes(vs);
    if i == vs.len() {
        assert(vs.subrange(0, i as int) =~= vs);
    } else {
        let j = i as int;
        let e = tuple_enc(vs);
        lemma_item_in_tuple(vs, j);
        let hs = head_size(vs.subrange(0, j)) as int;
        let o = head_size(vs) + tails(vs.subrange(0, j)).len() as int;
        let c = c0 + hs;
        assert(has_type(vs[j], ts[j]));
        if value_is_static(vs[j]) {
            assert(f.subrange(c, c + enc(vs[j]).len()) =~= e.subrange(hs, hs + enc(vs[j]).len()));
            lemma_decode_item(ts[j], vs[j], f, c, 0);
        } else {
            if values_all_static(vs) {
                lemma_all_static_items(vs, j);
            }
            assert(c0 == 0);
            assert(f.subrange(c, c + 32) =~= e.subrange(hs, hs + 32));
            assert(f.subrange(o, o + enc(vs[j]).len()) =~= e.subrange(o, o + enc(vs[j]).len()));
            lemma_decode_item(ts[j], vs[j], f, c, o);
        }
        lemma_prefix_le(vs, j + 1);
        lemma_sum_sizes(vs.subrange(0, j + 1));
        assert(vs.subrange(0, j).push(vs[j]) =~= vs.subrange(0, j + 1));
        lemma_decode_fields(ts, vs, f, c0, i + 1, init);
    }
}

/// Decoding, as a value of its type, what `encode` gives for a well-formed
/// value gives the value back.
pub proof fn law_abi_decode_encode(v: ValueV, t: TypeV)
    requires
        has_type(v, t),
        abi_encode_spec(v).len() <= usize::MAX,
    ensures
        abi_decode_spec(t, abi_encode_spec(v)) == Ok::<ValueV, AbiDecodeError>(v),
{
    let b = abi_encode_spec(v);
    match (v, t) {
        (ValueV::Tuple(vs), TypeV::Tuple(ts)) => {
            lemma_tuple_enc_len(vs);
            assert(b.subrange(0, b.len() as int) =~= b);
            assert(vs.subrange(0, 0) =~= Seq::<ValueV>::empty());
            lemma_decode_fields(ts, vs, b, 0, 0, 0);
            lemma_sum_sizes(vs);
        },
        _ => {
            let one = seq![v];
            lemma_item_in_tuple(one, 0);
            assert(one.subrange(0, 0) =~= Seq::<ValueV>::empty());
            assert(one.subrange(0, 1) =~= one);
            lemma_tuple_enc_len(one);
            lemma_sum_sizes(one);
            assert(one.drop_last() =~= Seq::<ValueV>::empty());
            let o = head_size(one) + tails(one.subrange(0, 0)).len() as int;
            if value_is_static(v) {
                lemma_decode_item(t, v, b, 0, 0);
            } else {
                lemma_decode_item(t, v, b, 0, o);
            }
        },
    }
}

} // verus!
