use vstd::prelude::*;
use bit_set::BitSet;

verus! {

#[verifier::external_type_specification]
#[verifier::external_body]
#[verifier::reject_recursive_types(B)]
pub struct ExBitSet<B>(BitSet<B>);

/// The numbers that a bit set holds.
pub uninterp spec fn bitset_contents(s: BitSet) -> Set<usize>;

/// Calls `bit_set::BitSet::new`: per its source, the set is empty.
#[verifier::external_body]
pub(crate) fn bitset_new() -> (r: BitSet)
    ensures
        bitset_contents(r) == Set::<usize>::empty(),
{
    BitSet::new()
}

/// Calls `bit_set::BitSet::contains`: per its source, whether the set holds
/// `value`.
#[verifier::external_body]
pub(crate) fn bitset_contains(s: &BitSet, value: usize) -> (r: bool)
    ensures
        r == bitset_contents(*s).contains(value),
{
    s.contains(value)
}

/// Calls `bit_set::BitSet::insert`: per its source, it adds `value` and
/// returns whether the set did not hold it. It grows the set to `value + 1`
/// bits, so `value` is below `usize::MAX`; that the allocation succeeds is
/// not stated.
#[verifier::external_body]
pub(crate) fn bitset_insert(s: &mut BitSet, value: usize) -> (r: bool)
    requires
        value < usize::MAX,
    ensures
        bitset_contents(*final(s)) == bitset_contents(*old(s)).insert(value),
        r == !bitset_contents(*old(s)).contains(value),
{
    s.insert(value)
}

/// Calls `Clone::clone` of `bit_set::BitSet`: per its source, a set with the
/// same bits.
#[verifier::external_body]
pub(crate) fn bitset_clone(s: &BitSet) -> (r: BitSet)
    ensures
        bitset_contents(r) == bitset_contents(*s),
{
    s.clone()
}

} // verus!
