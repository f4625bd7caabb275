use vstd::prelude::*;
use vstd::utf8::*;
use vstd::string::StringSliceAdditionalSpecFns;

verus! {

broadcast use vstd::utf8::group_utf8_lib, vstd::string::group_string_axioms;

/// Whether `c` is an ASCII hexadecimal digit (`0-9`, `a-f`, `A-F`).
pub open spec fn is_hex_digit(c: u8) -> bool {
    (48 <= c <= 57) || (97 <= c <= 102) || (65 <= c <= 70)
}

/// The value of an ASCII hexadecimal digit.
pub open spec fn hex_digit_value(c: u8) -> nat {
    if 48 <= c <= 57 {
        (c - 48) as nat
    } else if 97 <= c <= 102 {
        (c - 87) as nat
    } else {
        (c - 55) as nat
    }
}

/// The lowercase ASCII digit of a nibble.
pub open spec fn nibble_char(n: nat) -> char {
    if n < 10 {
        ((n + 48) as u8) as char
    } else {
        ((n + 87) as u8) as char
    }
}

/// `s` without a leading `0x`, where it has one.
pub open spec fn strip_0x(s: Seq<u8>) -> Seq<u8> {
    if s.len() >= 2 && s[0] == 48 && s[1] == 120 {
        s.skip(2)
    } else {
        s
    }
}

/// Whether every byte of `h` is a hexadecimal digit.
pub open spec fn all_hex_digits(h: Seq<u8>) -> bool {
    forall|i: int| 0 <= i < h.len() ==> is_hex_digit(#[trigger] h[i])
}

/// The bytes that a string of hexadecimal digits spells: two digits per byte,
/// where an odd count makes the first digit a byte of its own.
pub open spec fn hex_digits_to_bytes(h: Seq<u8>) -> Seq<u8> {
    let odd = h.len() % 2 == 1;
    Seq::new(
        ((h.len() + 1) / 2) as nat,
        |i: int|
            if odd {
                if i == 0 {
                    hex_digit_value(h[0]) as u8
                } else {
                    (hex_digit_value(h[2 * i - 1]) * 16 + hex_digit_value(h[2 * i])) as u8
                }
            } else {
                (hex_digit_value(h[2 * i]) * 16 + hex_digit_value(h[2 * i + 1])) as u8
            },
    )
}

/// What `decode` gives for the UTF-8 bytes `s` of its input.
pub open spec fn hex_decode_spec(s: Seq<u8>) -> Option<Seq<u8>> {
    let h = strip_0x(s);
    if all_hex_digits(h) {
        Some(hex_digits_to_bytes(h))
    } else {
        None
    }
}

/// The text that `encode` gives: `0x`, then two lowercase digits per byte.
pub open spec fn hex_encode_spec(us: Seq<u8>) -> Seq<char> {
    seq!['0', 'x'] + Seq::new(
        2 * us.len(),
        |i: int|
            if i % 2 == 0 {
                nibble_char((us[i / 2] / 16) as nat)
            } else {
                nibble_char((us[i / 2] % 16) as nat)
            },
    )
}

fn is_hex_digit_exec(c: u8) -> (r: bool)
    ensures
        r == is_hex_digit(c),
{
    (48 <= c && c <= 57) || (97 <= c && c <= 102) || (65 <= c && c <= 70)
}

fn hex_digit_value_exec(c: u8) -> (r: u8)
    requires
        is_hex_digit(c),
    ensures
        r as nat == hex_digit_value(c),
        r < 16,
{
    if 48 <= c && c <= 57 {
        c - 48
    } else if 97 <= c && c <= 102 {
        c - 87
    } else {
        c - 55
    }
}

fn nibble_char_byte(n: u8) -> (r: u8)
    requires
        n < 16,
    ensures
        r == nibble_char(n as nat) as u8,
        r < 128,
{
    if n < 10 {
        n + 48
    } else {
        n + 87
    }
}

/// Calls `String::from_utf8`.
/// Trusted: it succeeds exactly on valid UTF-8, and the text it gives encodes
/// back to the same bytes, as std documents.
#[verifier::external_body]
pub(crate) fn string_from_utf8(v: Vec<u8>) -> (r: Option<String>)
    ensures
        r is Some <==> valid_utf8(v@),
        r matches Some(s) ==> encode_utf8(s@) == v@,
{
    String::from_utf8(v).ok()
}

/// The text of an ASCII byte string.
pub fn string_from_ascii(v: Vec<u8>, Ghost(chars): Ghost<Seq<char>>) -> (r: String)
    requires
        is_ascii_chars(chars),
        chars.len() == v@.len(),
        forall|j: int| 0 <= j < v@.len() ==> v@[j] == #[trigger] chars[j] as u8,
    ensures
        r@ == chars,
{
    proof {
        is_ascii_chars_encode_utf8(chars);
        assert(encode_utf8(chars) =~= v@);
        encode_utf8_valid_utf8(chars);
        encode_utf8_decode_utf8(chars);
    }
    let r = string_from_utf8(v);
    match r {
        Some(s) => {
            proof {
                decode_utf8_encode_utf8(v@);
                encode_utf8_decode_utf8(s@);
            }
            s
        },
        None => {
            proof {
                assert(false);
            }
            String::new()
        },
    }
}

/// The lowercase hexadecimal digits of `n`, without leading zeros.
pub open spec fn hex_digits_of(n: nat) -> Seq<char>
    decreases n,
{
    if n < 16 {
        seq![nibble_char(n)]
    } else {
        hex_digits_of(n / 16).push(nibble_char(n % 16))
    }
}

pub(crate) proof fn lemma_hex_digits_ascii(n: nat)
    ensures
        is_ascii_chars(hex_digits_of(n)),
    decreases n,
{
    if n >= 16 {
        lemma_hex_digits_ascii(n / 16);
        let d = hex_digits_of(n / 16);
        let c = nibble_char(n % 16);
        assert(hex_digits_of(n) == d.push(c));
        assert forall|j: int| 0 <= j < d.push(c).len() implies '\0' <= #[trigger] d.push(c)[j]
            <= '\u{7f}' by {
            if j < d.len() {
                assert(d.push(c)[j] == d[j]);
            }
        }
    }
}

pub(crate) fn hex_digit_bytes(n: u128) -> (r: Vec<u8>)
    ensures
        r@.len() == hex_digits_of(n as nat).len(),
        forall|j: int| 0 <= j < r@.len() ==> r@[j] == #[trigger] hex_digits_of(n as nat)[j] as u8,
        forall|j: int| 0 <= j < r@.len() ==> r@[j] < 128,
    decreases n,
{
    if n < 16 {
        let mut v: Vec<u8> = Vec::new();
        v.push(nibble_char_byte(n as u8));
        v
    } else {
        let mut v = hex_digit_bytes(n / 16);
        v.push(nibble_char_byte((n % 16) as u8));
        v
    }
}

/// The text `0x` followed by the lowercase hexadecimal digits of `num`.
pub open spec fn hex_number_spec(num: nat) -> Seq<char> {
    seq!['0', 'x'] + hex_digits_of(num)
}

/// Formats a number as `0x` and its lowercase hexadecimal digits (`{:#x}`).
pub fn hex_number(num: u64) -> (r: String)
    ensures
        r@ == hex_number_spec(num as nat),
{
    let d = hex_digit_bytes(num as u128);
    let mut v: Vec<u8> = Vec::new();
    v.push(48);
    v.push(120);
    crate::bytes::extend_bytes(&mut v, d.as_slice());
    let ghost chars = hex_number_spec(num as nat);
    proof {
        lemma_hex_digits_ascii(num as nat);
        assert forall|j: int| 0 <= j < chars.len() implies '\0' <= #[trigger] chars[j] <= '\u{7f}' by {
            if j >= 2 {
                assert(chars[j] == hex_digits_of(num as nat)[j - 2]);
            }
        }
        assert forall|j: int| 0 <= j < v@.len() implies v@[j] == #[trigger] chars[j] as u8 by {
            if j >= 2 {
                assert(chars[j] == hex_digits_of(num as nat)[j - 2]);
                assert(v@[j] == d@[j - 2]);
            }
        }
    }
    string_from_ascii(v, Ghost(chars))
}

proof fn lemma_nibble_char_digit(n: nat)
    requires
        n < 16,
    ensures
        is_hex_digit(nibble_char(n) as u8),
        hex_digit_value(nibble_char(n) as u8) == n,
        '\0' <= nibble_char(n) <= '\u{7f}',
{
}

/// Decoding the text that `encode` gives returns the bytes that were encoded.
pub proof fn law_hex_decode_encode(us: Seq<u8>)
    ensures
        hex_decode_spec(encode_utf8(hex_encode_spec(us))) == Some(us),
{
    let c = hex_encode_spec(us);
    assert forall|i: int| 0 <= i < c.len() implies '\0' <= #[trigger] c[i] <= '\u{7f}' by {
        if i >= 2 {
            let k = i - 2;
            lemma_nibble_char_digit((us[k / 2] / 16) as nat);
            lemma_nibble_char_digit((us[k / 2] % 16) as nat);
        }
    }
    is_ascii_chars_encode_utf8(c);
    let b = encode_utf8(c);
    assert(b[0] == 48u8 && b[1] == 120u8) by {
        assert(c[0] == '0' && c[1] == 'x');
    }
    let h = strip_0x(b);
    assert(h =~= b.skip(2));
    assert forall|i: int| 0 <= i < h.len() implies is_hex_digit(#[trigger] h[i]) && hex_digit_value(h[i]) == (if i % 2 == 0 {
        (us[i / 2] / 16) as nat
    } else {
        (us[i / 2] % 16) as nat
    }) by {
        assert(h[i] == b[i + 2]);
        assert(b[i + 2] == c[i + 2] as u8);
        lemma_nibble_char_digit((us[i / 2] / 16) as nat);
        lemma_nibble_char_digit((us[i / 2] % 16) as nat);
    }
    let d = hex_digits_to_bytes(h);
    assert(h.len() == 2 * us.len());
    assert forall|i: int| 0 <= i < us.len() implies d[i] == us[i] by {
        assert(hex_digit_value(h[2 * i]) == (us[i] / 16) as nat);
        assert(hex_digit_value(h[2 * i + 1]) == (us[i] % 16) as nat);
        assert((2 * i + 1) / 2 == i);
        assert((2 * i) / 2 == i);
    }
    assert(d =~= us);
}

/// `16^n`.
pub open spec fn pow16(n: nat) -> nat
    decreases n,
{
    if n == 0 {
        1
    } else {
        16 * pow16((n - 1) as nat)
    }
}

/// The number that a string of hexadecimal digits spells.
pub open spec fn hex_value(h: Seq<u8>) -> nat
    decreases h.len(),
{
    if h.len() == 0 {
        0
    } else {
        hex_value(h.drop_last()) * 16 + hex_digit_value(h.last())
    }
}

pub(crate) proof fn lemma_pow16_even(k: nat)
    ensures
        pow16(2 * k) == crate::u256::pow256(k),
    decreases k,
{
    if k > 0 {
        lemma_pow16_even((k - 1) as nat);
        assert(2 * k - 2 == 2 * (k - 1));
        assert(pow16(2 * k) == 16 * pow16((2 * k - 1) as nat));
        assert(pow16((2 * k - 1) as nat) == 16 * pow16((2 * k - 2) as nat));
    }
}

pub(crate) proof fn lemma_hex_value_concat(a: Seq<u8>, b: Seq<u8>)
    ensures
        hex_value(a + b) == hex_value(a) * pow16(b.len()) + hex_value(b),
    decreases b.len(),
{
    if b.len() == 0 {
        assert(a + b =~= a);
        assert(pow16(0) == 1);
        assert(hex_value(b) == 0);
    } else {
        let b1 = b.drop_last();
        lemma_hex_value_concat(a, b1);
        assert((a + b).drop_last() =~= a + b1);
        assert((a + b).last() == b.last());
        let x = hex_value(a);
        let p = pow16(b1.len());
        let y = hex_value(b1);
        let l = hex_digit_value(b.last());
        assert(hex_value(a + b) == hex_value(a + b1) * 16 + l);
        assert(hex_value(b) == y * 16 + l);
        assert(pow16(b.len()) == 16 * p);
        assert((x * p + y) * 16 + l == x * (16 * p) + (y * 16 + l)) by (nonlinear_arith);
    }
}

proof fn lemma_hex_digit_value_small(c: u8)
    requires
        is_hex_digit(c),
    ensures
        hex_digit_value(c) < 16,
{
}

proof fn lemma_bytes_even(h: Seq<u8>)
    requires
        h.len() >= 2,
        h.len() % 2 == 0,
    ensures
        hex_digits_to_bytes(h) =~= hex_digits_to_bytes(h.subrange(0, h.len() - 2)).push(
            (hex_digit_value(h[h.len() - 2]) * 16 + hex_digit_value(h[h.len() - 1])) as u8,
        ),
{
    let p = h.subrange(0, h.len() - 2);
    let b = hex_digits_to_bytes(h);
    let bp = hex_digits_to_bytes(p);
    assert(b.len() == bp.len() + 1);
    assert forall|i: int| 0 <= i < bp.len() implies b[i] == bp[i] by {
        assert(p[2 * i] == h[2 * i]);
        assert(p[2 * i + 1] == h[2 * i + 1]);
    }
}

proof fn lemma_bytes_odd(h: Seq<u8>)
    requires
        h.len() % 2 == 1,
    ensures
        hex_digits_to_bytes(h) =~= seq![hex_digit_value(h[0]) as u8] + hex_digits_to_bytes(h.drop_first()),
{
    let q = h.drop_first();
    let b = hex_digits_to_bytes(h);
    let bq = hex_digits_to_bytes(q);
    assert(b.len() == bq.len() + 1);
    assert forall|i: int| 1 <= i < b.len() implies b[i] == bq[i - 1] by {
        assert(q[2 * (i - 1)] == h[2 * i - 1]);
        assert(q[2 * (i - 1) + 1] == h[2 * i]);
    }
}

/// A string of hexadecimal digits spells, as bytes, the number it spells as
/// digits.
pub proof fn lemma_hex_digits_to_bytes_value(h: Seq<u8>)
    requires
        all_hex_digits(h),
    ensures
        crate::u256::be_nat(hex_digits_to_bytes(h)) == hex_value(h),
        hex_digits_to_bytes(h).len() == (h.len() + 1) / 2,
    decreases h.len(),
{
    let b = hex_digits_to_bytes(h);
    if h.len() == 0 {
        assert(b =~= Seq::<u8>::empty());
    } else if h.len() % 2 == 0 {
        let p = h.subrange(0, h.len() - 2);
        let x = h[h.len() - 2];
        let y = h[h.len() - 1];
        assert forall|i: int| 0 <= i < p.len() implies is_hex_digit(#[trigger] p[i]) by {
            assert(p[i] == h[i]);
        }
        lemma_hex_digits_to_bytes_value(p);
        lemma_bytes_even(h);
        let bp = hex_digits_to_bytes(p);
        assert(is_hex_digit(x) && is_hex_digit(y));
        lemma_hex_digit_value_small(x);
        lemma_hex_digit_value_small(y);
        let byte = (hex_digit_value(x) * 16 + hex_digit_value(y)) as u8;
        assert(b.drop_last() =~= bp);
        assert(b.last() == byte);
        assert(crate::u256::be_nat(b) == crate::u256::be_nat(bp) * 256 + byte as nat);
        assert(h.drop_last().drop_last() =~= p);
        assert(h.drop_last().last() == x);
        assert(h.last() == y);
        assert(hex_value(h) == hex_value(h.drop_last()) * 16 + hex_digit_value(y));
        assert(hex_value(h.drop_last()) == hex_value(p) * 16 + hex_digit_value(x));
        assert(byte as nat == hex_digit_value(x) * 16 + hex_digit_value(y));
    } else {
        let q = h.drop_first();
        let c = h[0];
        assert forall|i: int| 0 <= i < q.len() implies is_hex_digit(#[trigger] q[i]) by {
            assert(q[i] == h[i + 1]);
        }
        lemma_hex_digits_to_bytes_value(q);
        lemma_bytes_odd(h);
        let bq = hex_digits_to_bytes(q);
        assert(is_hex_digit(c));
        lemma_hex_digit_value_small(c);
        let one = seq![hex_digit_value(c) as u8];
        crate::u256::lemma_be_nat_concat(one, bq);
        assert(one.drop_last() =~= Seq::<u8>::empty());
        assert(one.last() == hex_digit_value(c) as u8);
        assert((hex_digit_value(c) as u8) as nat == hex_digit_value(c));
        assert(crate::u256::be_nat(Seq::<u8>::empty()) == 0);
        assert(crate::u256::be_nat(one) == crate::u256::be_nat(one.drop_last()) * 256
            + one.last() as nat);
        assert(crate::u256::be_nat(one) == hex_digit_value(c));
        assert(h =~= seq![c] + q);
        let cc = seq![c];
        lemma_hex_value_concat(cc, q);
        assert(cc.drop_last() =~= Seq::<u8>::empty());
        assert(cc.last() == c);
        assert(hex_value(Seq::<u8>::empty()) == 0);
        assert(hex_value(cc) == hex_value(cc.drop_last()) * 16 + hex_digit_value(cc.last()));
        assert(hex_value(cc) == hex_digit_value(c));
        assert(q.len() == 2 * bq.len());
        lemma_pow16_even(bq.len());
    }
}

/// The ASCII bytes of the digits of `n`.
pub open spec fn hex_digit_bytes_of(n: nat) -> Seq<u8> {
    Seq::new(hex_digits_of(n).len(), |i: int| hex_digits_of(n)[i] as u8)
}

/// The digits of a number spell it.
pub proof fn lemma_hex_digits_value(n: nat)
    ensures
        all_hex_digits(hex_digit_bytes_of(n)),
        hex_value(hex_digit_bytes_of(n)) == n,
        hex_digit_bytes_of(n).len() >= 1,
    decreases n,
{
    if n < 16 {
        lemma_nibble_char_digit(n);
        let b = hex_digit_bytes_of(n);
        assert(b.len() == 1);
        assert(b.drop_last() =~= Seq::<u8>::empty());
        assert(b.last() == nibble_char(n) as u8);
        assert(hex_value(b) == hex_value(b.drop_last()) * 16 + hex_digit_value(b.last()));
    } else {
        lemma_hex_digits_value(n / 16);
        lemma_nibble_char_digit(n % 16);
        let b = hex_digit_bytes_of(n);
        let p = hex_digit_bytes_of(n / 16);
        assert(b.drop_last() =~= p);
        assert(b.last() == nibble_char(n % 16) as u8);
        assert forall|i: int| 0 <= i < b.len() implies is_hex_digit(#[trigger] b[i]) by {
            if i < p.len() {
                assert(b[i] == p[i]);
            }
        }
        assert(hex_value(b) == hex_value(p) * 16 + hex_digit_value(b.last()));
        assert(n == (n / 16) * 16 + n % 16) by (nonlinear_arith);
    }
}

/// A number below `16^k` has at most `k` digits, and one of at least
/// `16^(k-1)` has at least `k`.
pub proof fn lemma_hex_digits_len(n: nat, k: nat)
    ensures
        n < pow16(k) ==> hex_digits_of(n).len() <= k || k == 0,
        k >= 1 && n >= pow16((k - 1) as nat) ==> hex_digits_of(n).len() >= k,
    decreases k,
{
    if k >= 1 {
        if n >= 16 {
            lemma_hex_digits_len(n / 16, (k - 1) as nat);
            let p = pow16((k - 1) as nat);
            if n < pow16(k) {
                assert(n / 16 < p) by (nonlinear_arith)
                    requires
                        n < 16 * p,
                ;
                if k == 1 {
                    assert(pow16(1) == 16);
                }
            }
            if k >= 2 && n >= pow16((k - 1) as nat) {
                let p2 = pow16((k - 2) as nat);
                assert(p == 16 * p2);
                assert(n / 16 >= p2) by (nonlinear_arith)
                    requires
                        n >= 16 * p2,
                ;
            }
        } else {
            if k >= 2 {
                let p2 = pow16((k - 2) as nat);
                crate::hex::lemma_pow16_positive(p2, (k - 2) as nat);
            }
        }
    }
}

proof fn lemma_pow16_positive(p: nat, k: nat)
    requires
        p == pow16(k),
    ensures
        p >= 1,
    decreases k,
{
    if k > 0 {
        lemma_pow16_positive(pow16((k - 1) as nat), (k - 1) as nat);
    }
}

/// Decodes a hexadecimal string, with or without a `0x` prefix; `None` where a
/// character is not a hexadecimal digit.
pub fn decode(s: &str) -> (r: Option<Vec<u8>>)
    ensures
        hex_decode_spec(s.spec_bytes()) is None ==> r is None,
        hex_decode_spec(s.spec_bytes()) matches Some(b) ==> (r matches Some(v) && v@ == b),
{
    let all = s.as_bytes();
    let start: usize = if all.len() >= 2 && all[0] == 48 && all[1] == 120 {
        2
    } else {
        0
    };
    let h = vstd::slice::slice_subrange(all, start, all.len());
    assert(h@ =~= strip_0x(s.spec_bytes()));
    let mut i: usize = 0;
    while i < h.len()
        invariant
            i <= h@.len(),
            h@ == strip_0x(s.spec_bytes()),
            forall|j: int| 0 <= j < i ==> is_hex_digit(#[trigger] h@[j]),
        decreases h@.len() - i,
    {
        if !is_hex_digit_exec(h[i]) {
            return None;
        }
        i = i + 1;
    }
    let n = h.len();
    let odd = n % 2 == 1;
    let count = n / 2 + n % 2;
    let ghost target = hex_digits_to_bytes(h@);
    let mut res: Vec<u8> = Vec::new();
    let mut k: usize = 0;
    while k < count
        invariant
            n == h@.len(),
            odd == (n % 2 == 1),
            count == (n + 1) / 2,
            all_hex_digits(h@),
            k <= count,
            target == hex_digits_to_bytes(h@),
            res@ == target.subrange(0, k as int),
        decreases count - k,
    {
        let byte: u8 = if odd {
            if k == 0 {
                hex_digit_value_exec(h[0])
            } else {
                let a = hex_digit_value_exec(h[2 * k - 1]);
                let b = hex_digit_value_exec(h[2 * k]);
                a * 16 + b
            }
        } else {
            let a = hex_digit_value_exec(h[2 * k]);
            let b = hex_digit_value_exec(h[2 * k + 1]);
            a * 16 + b
        };
        res.push(byte);
        k = k + 1;
        assert(res@ =~= target.subrange(0, k as int));
    }
    assert(res@ =~= target);
    Some(res)
}

/// Encodes bytes as `0x` followed by two lowercase hexadecimal digits per byte.
pub fn encode(us: &[u8]) -> (r: String)
    ensures
        r@ == hex_encode_spec(us@),
{
    let ghost chars = hex_encode_spec(us@);
    let mut v: Vec<u8> = Vec::new();
    v.push(48);
    v.push(120);
    let mut i: usize = 0;
    while i < us.len()
        invariant
            i <= us@.len(),
            chars == hex_encode_spec(us@),
            v@.len() == 2 + 2 * i,
            forall|j: int| 0 <= j < v@.len() ==> v@[j] == #[trigger] chars[j] as u8,
            forall|j: int| 0 <= j < v@.len() ==> v@[j] < 128,
        decreases us@.len() - i,
    {
        let u = us[i];
        let hi = nibble_char_byte(u / 16);
        let lo = nibble_char_byte(u % 16);
        v.push(hi);
        v.push(lo);
        assert(chars[2 + 2 * i] == nibble_char((us@[i as int] / 16) as nat));
        assert(chars[2 + 2 * i + 1] == nibble_char((us@[i as int] % 16) as nat));
        i = i + 1;
    }
    proof {
        assert(chars.len() == v@.len());
        assert(is_ascii_chars(chars)) by {
            assert forall|j: int| 0 <= j < chars.len() implies '\0' <= #[trigger] chars[j]
                <= '\u{7f}' by {
                assert(v@[j] == chars[j] as u8);
                assert(v@[j] < 128);
                if j < 2 {
                } else {
                    let k = j - 2;
                    if k % 2 == 0 {
                        assert(chars[j] == nibble_char((us@[k / 2] / 16) as nat));
                    } else {
                        assert(chars[j] == nibble_char((us@[k / 2] % 16) as nat));
                    }
                }
            }
        }
        is_ascii_chars_encode_utf8(chars);
        assert(encode_utf8(chars) =~= v@);
        encode_utf8_valid_utf8(chars);
        encode_utf8_decode_utf8(chars);
    }
    let r = string_from_utf8(v);
    match r {
        Some(s) => {
            proof {
                decode_utf8_encode_utf8(v@);
                assert(s@ == decode_utf8(encode_utf8(s@))) by {
                    encode_utf8_decode_utf8(s@);
                }
            }
            s
        },
        None => {
            proof {
                assert(false);
            }
            String::new()
        },
    }
}

} // verus!
