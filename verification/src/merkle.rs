use vstd::prelude::*;
use crate::bytes::{extend_bytes, Bytes32, SizedBytes};
use crate::keccak::{keccak256, keccak256_spec};

verus! {

broadcast use vstd::array::group_array_axioms;

/// The domain separator of a leaf hash: 32 zero bytes.
pub open spec fn leaf_domain_separator_spec() -> Seq<u8> {
    Seq::new(32, |i: int| 0u8)
}

/// The domain separator of an internal node hash: 31 zero bytes, then a one.
pub open spec fn internal_node_domain_separator_spec() -> Seq<u8> {
    Seq::new(32, |i: int| if i == 31 { 1u8 } else { 0u8 })
}

/// The hash that pairs with an odd node out: 32 bytes of `0xff`.
pub open spec fn zero_hash_spec() -> Seq<u8> {
    Seq::new(32, |i: int| 0xffu8)
}

/// The domain separator of a leaf hash.
pub fn leaf_domain_separator() -> (r: [u8; 32])
    ensures
        r@ == leaf_domain_separator_spec(),
{
    let r = SizedBytes::<32>::zero().0;
    assert(r@ =~= leaf_domain_separator_spec());
    r
}

/// The domain separator of an internal node hash.
pub fn internal_node_domain_separator() -> (r: [u8; 32])
    ensures
        r@ == internal_node_domain_separator_spec(),
{
    let mut r = [0u8; 32];
    r[31] = 1;
    assert(r@ =~= internal_node_domain_separator_spec());
    r
}

fn zero_hash() -> (r: [u8; 32])
    ensures
        r@ == zero_hash_spec(),
{
    let r = [0xffu8; 32];
    assert(r@ =~= zero_hash_spec());
    r
}

/// Whether `a` comes before `b` in lexicographic order.
pub open spec fn lex_lt(a: Seq<u8>, b: Seq<u8>) -> bool
    decreases a.len(),
{
    if a.len() == 0 || b.len() == 0 {
        a.len() < b.len()
    } else if a[0] != b[0] {
        a[0] < b[0]
    } else {
        lex_lt(a.drop_first(), b.drop_first())
    }
}

/// The hash of an internal node with children `left` and `right`.
pub open spec fn node_hash(left: Seq<u8>, right: Seq<u8>) -> Seq<u8> {
    keccak256_spec(internal_node_domain_separator_spec() + left + right)
}

/// The parent of two nodes: the node hash of the two, the lesser first.
pub open spec fn pair_hash(a: Seq<u8>, b: Seq<u8>) -> Seq<u8> {
    if lex_lt(a, b) {
        node_hash(a, b)
    } else {
        node_hash(b, a)
    }
}

proof fn lemma_lex_lt_asymmetric(a: Seq<u8>, b: Seq<u8>)
    requires
        lex_lt(a, b),
    ensures
        !lex_lt(b, a),
    decreases a.len(),
{
    if a.len() > 0 && b.len() > 0 && a[0] == b[0] {
        lemma_lex_lt_asymmetric(a.drop_first(), b.drop_first());
    }
}

proof fn lemma_lex_lt_total(a: Seq<u8>, b: Seq<u8>)
    requires
        a.len() == b.len(),
        a != b,
    ensures
        lex_lt(a, b) || lex_lt(b, a),
    decreases a.len(),
{
    if a.len() == 0 {
        assert(a =~= b);
    } else if a[0] == b[0] {
        if a.drop_first() == b.drop_first() {
            assert(a =~= seq![a[0]] + a.drop_first());
            assert(b =~= seq![b[0]] + b.drop_first());
        }
        lemma_lex_lt_total(a.drop_first(), b.drop_first());
    }
}

/// The parent of two nodes of one length does not depend on their order.
pub proof fn law_pair_hash_symmetric(a: Seq<u8>, b: Seq<u8>)
    requires
        a.len() == b.len(),
    ensures
        pair_hash(a, b) == pair_hash(b, a),
{
    if a != b {
        lemma_lex_lt_total(a, b);
        if lex_lt(a, b) {
            lemma_lex_lt_asymmetric(a, b);
        } else {
            lemma_lex_lt_asymmetric(b, a);
        }
    }
}

/// The level above `level`: consecutive pairs hashed, an odd node out paired
/// with `zero_hash_spec()`.
pub open spec fn next_level(level: Seq<Seq<u8>>) -> Seq<Seq<u8>> {
    Seq::new(
        ((level.len() + 1) / 2) as nat,
        |i: int|
            if 2 * i + 1 < level.len() {
                pair_hash(level[2 * i], level[2 * i + 1])
            } else {
                pair_hash(level[2 * i], zero_hash_spec())
            },
    )
}

/// The root of the tree over `level`; none for no leaves.
pub open spec fn merkle_root_spec(level: Seq<Seq<u8>>) -> Option<Seq<u8>>
    decreases level.len(),
{
    if level.len() == 0 {
        None
    } else if level.len() == 1 {
        Some(level[0])
    } else {
        merkle_root_spec(next_level(level))
    }
}

/// The hash of an internal node.
pub fn hash_node(left: &[u8; 32], right: &[u8; 32]) -> (r: [u8; 32])
    ensures
        r@ == node_hash(left@, right@),
{
    let sep = internal_node_domain_separator();
    let mut input: Vec<u8> = Vec::new();
    extend_bytes(&mut input, sep.as_slice());
    extend_bytes(&mut input, left.as_slice());
    extend_bytes(&mut input, right.as_slice());
    keccak256(input.as_slice())
}

fn lt_bytes(a: &[u8; 32], b: &[u8; 32]) -> (r: bool)
    ensures
        r == lex_lt(a@, b@),
{
    let mut i: usize = 0;
    assert(a@.skip(0) =~= a@);
    assert(b@.skip(0) =~= b@);
    while i < 32
        invariant
            i <= 32,
            a@.len() == 32,
            b@.len() == 32,
            lex_lt(a@, b@) == lex_lt(a@.skip(i as int), b@.skip(i as int)),
        decreases 32 - i,
    {
        if a[i] != b[i] {
            return a[i] < b[i];
        }
        assert(a@.skip(i as int).drop_first() =~= a@.skip(i + 1));
        assert(b@.skip(i as int).drop_first() =~= b@.skip(i + 1));
        i = i + 1;
    }
    false
}

/// The views of a sequence of 32-byte strings.
pub open spec fn leaf_views(s: Seq<Bytes32>) -> Seq<Seq<u8>> {
    Seq::new(s.len(), |i: int| s[i]@)
}

/// The root of the Merkle tree over hashed leaves; `None` where there are none.
pub fn root_from_hashed_leafs(hashed_leafs: &[Bytes32]) -> (r: Option<Bytes32>)
    ensures
        match merkle_root_spec(leaf_views(hashed_leafs@)) {
            None => r is None,
            Some(root) => r matches Some(x) && x@ == root,
        },
{
    let mut level: Vec<[u8; 32]> = Vec::new();
    let mut i: usize = 0;
    while i < hashed_leafs.len()
        invariant
            i <= hashed_leafs@.len(),
            level@.len() == i,
            forall|j: int| 0 <= j < i ==> (#[trigger] level@[j])@ == hashed_leafs@[j]@,
        decreases hashed_leafs@.len() - i,
    {
        level.push(hashed_leafs[i].0);
        i = i + 1;
    }
    let ghost target = merkle_root_spec(leaf_views(hashed_leafs@));
    assert(Seq::new(level@.len(), |j: int| level@[j]@) =~= leaf_views(hashed_leafs@));
    while level.len() > 1
        invariant
            target == merkle_root_spec(Seq::new(level@.len(), |j: int| level@[j]@)),
        decreases level@.len(),
    {
        let ghost cur = Seq::new(level@.len(), |j: int| level@[j]@);
        let len = level.len();
        let mut next: Vec<[u8; 32]> = Vec::new();
        let half = len / 2 + len % 2;
        let mut k: usize = 0;
        while k < half
            invariant
                len == level@.len(),
                len > 1,
                half == (len + 1) / 2,
                cur == Seq::new(level@.len(), |j: int| level@[j]@),
                k <= half,
                next@.len() == k,
                forall|j: int| 0 <= j < next@.len() ==> (#[trigger] next@[j])@ == next_level(cur)[j],
            decreases half - k,
        {
            let a = level[2 * k];
            let b = if 2 * k + 1 != len {
                level[2 * k + 1]
            } else {
                zero_hash()
            };
            let node = if lt_bytes(&a, &b) {
                hash_node(&a, &b)
            } else {
                hash_node(&b, &a)
            };
            next.push(node);
            k = k + 1;
        }
        proof {
            assert(Seq::new(next@.len(), |j: int| next@[j]@) =~= next_level(cur));
        }
        level = next;
    }
    if level.len() == 0 {
        None
    } else {
        Some(SizedBytes(level[0]))
    }
}

} // verus!
