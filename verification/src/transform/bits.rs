//! The hierarchical bit set that records which entity indices are marked.
//!
//! The set itself is `hibitset::BitSet`. Verus does not look inside it: what
//! it holds is named by [`bit_set_members`], and each operation below states
//! its effect on that set of indices as the bit set's source shows it. These
//! statements are believed, not proved.
use vstd::prelude::*;

verus! {

#[verifier::external_type_specification]
#[verifier::external_body]
pub struct ExBitSet(hibitset::BitSet);

/// The indices that a bit set holds.
pub uninterp spec fn bit_set_members(set: hibitset::BitSet) -> Set<u32>;

/// The number of indices a bit set can hold: four layers of one machine word
/// each, so `64^4` where a word has 64 bits and `32^4` where it has 32.
pub open spec fn index_limit() -> nat {
    if usize::BITS == 64 {
        16_777_216
    } else {
        1_048_576
    }
}

/// `hibitset::BitSet::new`: a bit set that holds no index.
#[verifier::external_body]
pub(crate) fn bit_set_new() -> (set: hibitset::BitSet)
    ensures
        bit_set_members(set) == Set::<u32>::empty(),
{
    hibitset::BitSet::new()
}

/// `hibitset::BitSet::add`: puts `id` into the set and tells whether it was
/// there before. The bit set panics on an index above its limit, so such an
/// index is not admitted.
#[verifier::external_body]
pub(crate) fn bit_set_add(set: &mut hibitset::BitSet, id: u32) -> (was_present: bool)
    requires
        id < index_limit(),
    ensures
        bit_set_members(*final(set)) == bit_set_members(*old(set)).insert(id),
        was_present == bit_set_members(*old(set)).contains(id),
{
    set.add(id)
}

/// `hibitset::BitSet::contains`: whether `id` is in the set.
#[verifier::external_body]
pub(crate) fn bit_set_contains(set: &hibitset::BitSet, id: u32) -> (present: bool)
    ensures
        present == bit_set_members(*set).contains(id),
{
    set.contains(id)
}

/// `hibitset::BitSet::clear`: empties the set.
#[verifier::external_body]
pub(crate) fn bit_set_clear(set: &mut hibitset::BitSet)
    ensures
        bit_set_members(*final(set)) == Set::<u32>::empty(),
{
    set.clear()
}

/// The limit on indices, as a machine number.
pub fn index_capacity() -> (limit: u32)
    ensures
        limit == index_limit(),
{
    if usize::BITS == 64 {
        16_777_216
    } else {
        1_048_576
    }
}

} // verus!
