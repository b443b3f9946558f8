//! What this crate assumes of `fixedbitset::FixedBitSet`.
//!
//! Nothing in this file is proved. Each contract restates, over the sequence of
//! bits that a set holds, what the documentation and code of `fixedbitset`
//! say about one of its functions.

use fixedbitset::FixedBitSet;
use vstd::prelude::*;

verus! {

#[verifier::external_type_specification]
#[verifier::external_body]
pub struct ExFixedBitSet(FixedBitSet);

/// The bits of a `FixedBitSet`, in index order. Its length is the number of
/// bits the set was made with (`FixedBitSet::len`), whether they are on or off.
pub uninterp spec fn bit_seq(set: &FixedBitSet) -> Seq<bool>;

/// Whether bit `k` of a block is on, the lowest bit of the block being bit 0.
pub open spec fn block_bit(block: u32, k: int) -> bool {
    block & (1u32 << (k as u32)) != 0
}

/// Whether `blocks` holds `bits` packed 32 to a block: bit `i` of the sequence is
/// bit `i % 32` of block `i / 32`, and there are as many blocks as that takes.
pub open spec fn packed_in(bits: Seq<bool>, blocks: Seq<u32>) -> bool {
    &&& blocks.len() == (bits.len() + 31) / 32
    &&& forall|i: int| 0 <= i < bits.len() ==> #[trigger] bits[i] == block_bit(blocks[i / 32], i % 32)
}

/// `FixedBitSet::with_capacity`: a set of `bits` bits, all of them off.
pub assume_specification[ FixedBitSet::with_capacity ](bits: usize) -> (set: FixedBitSet)
    ensures
        bit_seq(&set) == Seq::new(bits as nat, |i: int| false),
;

/// `FixedBitSet::contains`: whether the bit at index `bit` is on. Only indices
/// inside the set are admitted here.
pub assume_specification[ FixedBitSet::contains ](set: &FixedBitSet, bit: usize) -> (on: bool)
    requires
        bit < bit_seq(set).len(),
    ensures
        on == bit_seq(set)[bit as int],
;

/// `FixedBitSet::set`: turns the bit at index `bit` on or off and leaves every
/// other bit as it was. It panics on an index outside the set, which the
/// precondition rules out.
pub assume_specification[ FixedBitSet::set ](set: &mut FixedBitSet, bit: usize, enabled: bool)
    requires
        bit < bit_seq(old(set)).len(),
    ensures
        bit_seq(final(set)) == bit_seq(old(set)).update(bit as int, enabled),
;

/// `FixedBitSet::toggle`: inverts the bit at index `bit` and leaves every other
/// bit as it was. It panics on an index outside the set, which the precondition
/// rules out.
pub assume_specification[ FixedBitSet::toggle ](set: &mut FixedBitSet, bit: usize)
    requires
        bit < bit_seq(old(set)).len(),
    ensures
        bit_seq(final(set)) == bit_seq(old(set)).update(bit as int, !bit_seq(old(set))[bit as int]),
;

/// `FixedBitSet::clear`: turns every bit off; the number of bits stays.
pub assume_specification[ FixedBitSet::clear ](set: &mut FixedBitSet)
    ensures
        bit_seq(final(set)) == Seq::new(bit_seq(old(set)).len(), |i: int| false),
;

/// `Clone::clone` of a `FixedBitSet`: a set with the same bits.
pub assume_specification[ <FixedBitSet as Clone>::clone ](set: &FixedBitSet) -> (copy: FixedBitSet)
    ensures
        bit_seq(&copy) == bit_seq(set),
;

/// `FixedBitSet::as_slice`: the blocks of 32 bits in which the set keeps its
/// bits. Nothing is said of the bits of the last block that lie past the end of
/// the set.
pub assume_specification[ FixedBitSet::as_slice ](set: &FixedBitSet) -> (blocks: &[u32])
    ensures
        packed_in(bit_seq(set), blocks@),
;

} // verus!
