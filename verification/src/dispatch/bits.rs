//! The bit sets of `fixedbitset`, as sets of indices.
use vstd::prelude::*;
use fixedbitset::FixedBitSet;

verus! {

#[verifier::external_type_specification]
#[verifier::external_body]
pub struct ExFixedBitSet(FixedBitSet);

/// The indices whose bit is set.
pub uninterp spec fn bit_ones(b: FixedBitSet) -> Set<usize>;

/// The number of bits the set holds (set or not); bits from there on read
/// as clear.
pub uninterp spec fn bit_len(b: FixedBitSet) -> usize;

/// Every set bit is below the length, as the crate keeps bits past the length
/// clear.
pub open spec fn bits_within(b: FixedBitSet) -> bool {
    forall|i: usize| #[trigger] bit_ones(b).contains(i) ==> i < bit_len(b)
}

/// `FixedBitSet::default`: no bit, length 0.
#[verifier::external_body]
pub(crate) fn bits_new() -> (r: FixedBitSet)
    ensures
        bit_ones(r) == Set::<usize>::empty(),
        bit_len(r) == 0,
{
    FixedBitSet::default()
}

/// `FixedBitSet::clone`: the same bits and length.
#[verifier::external_body]
pub(crate) fn bits_clone(b: &FixedBitSet) -> (r: FixedBitSet)
    ensures
        bit_ones(r) == bit_ones(*b),
        bit_len(r) == bit_len(*b),
{
    b.clone()
}

/// `FixedBitSet::len`: the length in bits.
#[verifier::external_body]
pub(crate) fn bits_len(b: &FixedBitSet) -> (r: usize)
    ensures
        r == bit_len(*b),
{
    b.len()
}

/// `FixedBitSet::grow`: the length becomes at least `bits`; the bits stay.
#[verifier::external_body]
pub(crate) fn bits_grow(b: &mut FixedBitSet, bits: usize)
    ensures
        bit_ones(*final(b)) == bit_ones(*old(b)),
        bit_len(*final(b)) == (if bits > bit_len(*old(b)) { bits } else { bit_len(*old(b)) }),
{
    b.grow(bits)
}

/// `FixedBitSet::insert`: sets bit `bit`, which must be below the length.
#[verifier::external_body]
pub(crate) fn bits_insert(b: &mut FixedBitSet, bit: usize)
    requires
        bit < bit_len(*old(b)),
    ensures
        bit_ones(*final(b)) == bit_ones(*old(b)).insert(bit),
        bit_len(*final(b)) == bit_len(*old(b)),
{
    b.insert(bit)
}

/// `FixedBitSet::contains`: whether bit `bit` is below the length and set;
/// a bit at or past the length reads as clear.
#[verifier::external_body]
pub(crate) fn bits_contains(b: &FixedBitSet, bit: usize) -> (r: bool)
    ensures
        r == (bit < bit_len(*b) && bit_ones(*b).contains(bit)),
{
    b.contains(bit)
}

/// `FixedBitSet::union_with`: adds the bits of `other`; the length grows to
/// that of `other` if it is longer.
#[verifier::external_body]
pub(crate) fn bits_union_with(b: &mut FixedBitSet, other: &FixedBitSet)
    ensures
        bit_ones(*final(b)) == bit_ones(*old(b)).union(bit_ones(*other)),
        bit_len(*final(b)) == (if bit_len(*other) > bit_len(*old(b)) { bit_len(*other) } else { bit_len(*old(b)) }),
{
    b.union_with(other)
}

/// `FixedBitSet::intersect_with`: keeps the bits also set in `other`.
#[verifier::external_body]
pub(crate) fn bits_intersect_with(b: &mut FixedBitSet, other: &FixedBitSet)
    ensures
        bit_ones(*final(b)) == bit_ones(*old(b)).intersect(bit_ones(*other)),
        bit_len(*final(b)) == bit_len(*old(b)),
{
    b.intersect_with(other)
}

/// `FixedBitSet::difference_with`: clears the bits set in `other`.
#[verifier::external_body]
pub(crate) fn bits_difference_with(b: &mut FixedBitSet, other: &FixedBitSet)
    ensures
        bit_ones(*final(b)) == bit_ones(*old(b)).difference(bit_ones(*other)),
        bit_len(*final(b)) == bit_len(*old(b)),
{
    b.difference_with(other)
}

/// `FixedBitSet::count_ones(..)`: the number of set bits.
#[verifier::external_body]
pub(crate) fn bits_count_ones(b: &FixedBitSet) -> (r: usize)
    requires
        bits_within(*b),
    ensures
        r == bit_ones(*b).len(),
{
    b.count_ones(..)
}

/// `FixedBitSet::ones`: the set bits, in increasing order.
#[verifier::external_body]
pub(crate) fn bits_ones(b: &FixedBitSet) -> (r: Vec<usize>)
    ensures
        forall|i: int, j: int| 0 <= i < j < r@.len() ==> r@[i] < r@[j],
        forall|x: usize| bit_ones(*b).contains(x) <==> r@.contains(x),
{
    b.ones().collect()
}

/// The indices below `n`.
pub open spec fn below(n: usize) -> Set<usize> {
    Set::new(|i: usize| i < n)
}

/// A set of indices below `n` is finite and has at most `n` elements.
pub proof fn lemma_bounded_set(s: Set<usize>, n: usize)
    requires
        forall|i: usize| #[trigger] s.contains(i) ==> i < n,
    ensures
        s.finite(),
        s.len() <= n,
{
    vstd::set_lib::range_set_properties::<usize>(0, n);
    assert(Set::<usize>::range(0, n) =~= below(n));
    assert(s.subset_of(below(n)));
    vstd::set_lib::lemma_len_subset(s, below(n));
}

} // verus!
