//! Trusted boundary to the `fixedbitset` crate.
//!
//! The grid's cell storage is a `fixedbitset::FixedBitSet`, a dense
//! bit-packed container. Verus sees the type as opaque; its contents are
//! modelled by the uninterpreted function [`fbs_bits`], a sequence of
//! booleans of length `FixedBitSet::len()`, and every method the library
//! calls goes through a wrapper below whose contract states, over that
//! model, what the crate's source shows.

use vstd::prelude::*;

verus! {

#[verifier::external_type_specification]
#[verifier::external_body]
pub struct ExFixedBitSet(fixedbitset::FixedBitSet);

/// The contents of a `FixedBitSet`: one boolean per bit, index order,
/// with length equal to the set's capacity in bits.
pub uninterp spec fn fbs_bits(s: fixedbitset::FixedBitSet) -> Seq<bool>;

/// Bit `i` of the block sequence `blocks`, where each `u32` block holds
/// 32 bits, least significant first; bits past the last block are dead.
pub open spec fn block_bit(blocks: Seq<u32>, i: int) -> bool {
    i / 32 < blocks.len() && (blocks[i / 32] >> ((i % 32) as u32)) & 1 == 1
}

/// Relies on `FixedBitSet::with_capacity`: `bits` bits, all initially clear.
#[verifier::external_body]
pub(crate) fn fbs_with_capacity(bits: usize) -> (r: fixedbitset::FixedBitSet)
    ensures
        fbs_bits(r).len() == bits,
        forall|i: int| 0 <= i < bits ==> !fbs_bits(r)[i],
{
    fixedbitset::FixedBitSet::with_capacity(bits)
}

/// Relies on `FixedBitSet::with_capacity_and_blocks`: `bits` bits taken from
/// the given `u32` blocks, padded with zeros if too few are given and
/// truncated if too many.
#[verifier::external_body]
pub(crate) fn fbs_with_capacity_and_blocks(bits: usize, blocks: Vec<u32>) -> (r:
    fixedbitset::FixedBitSet)
    ensures
        fbs_bits(r).len() == bits,
        forall|i: int| 0 <= i < bits ==> fbs_bits(r)[i] == block_bit(blocks@, i),
{
    fixedbitset::FixedBitSet::with_capacity_and_blocks(bits, blocks)
}

/// Relies on `FixedBitSet::contains`: whether bit `bit` is enabled.
#[verifier::external_body]
pub(crate) fn fbs_contains(s: &fixedbitset::FixedBitSet, bit: usize) -> (r: bool)
    requires
        bit < fbs_bits(*s).len(),
    ensures
        r == fbs_bits(*s)[bit as int],
{
    s.contains(bit)
}

/// Relies on `FixedBitSet::set`: writes `enabled` into bit `bit` and leaves
/// every other bit as it was. The call panics when `bit` is out of bounds,
/// so that case is excluded here.
#[verifier::external_body]
pub(crate) fn fbs_set(s: &mut fixedbitset::FixedBitSet, bit: usize, enabled: bool)
    requires
        bit < fbs_bits(*old(s)).len(),
    ensures
        fbs_bits(*final(s)) == fbs_bits(*old(s)).update(bit as int, enabled),
{
    s.set(bit, enabled)
}

/// Relies on `FixedBitSet::toggle`: inverts bit `bit` and leaves every other
/// bit as it was. The call panics when `bit` is out of bounds, so that case
/// is excluded here.
#[verifier::external_body]
pub(crate) fn fbs_toggle(s: &mut fixedbitset::FixedBitSet, bit: usize)
    requires
        bit < fbs_bits(*old(s)).len(),
    ensures
        fbs_bits(*final(s)) == fbs_bits(*old(s)).update(
            bit as int,
            !fbs_bits(*old(s))[bit as int],
        ),
{
    s.toggle(bit)
}

/// Relies on `FixedBitSet::clear`: disables every bit, keeping the capacity.
#[verifier::external_body]
pub(crate) fn fbs_clear(s: &mut fixedbitset::FixedBitSet)
    ensures
        fbs_bits(*final(s)).len() == fbs_bits(*old(s)).len(),
        forall|i: int| 0 <= i < fbs_bits(*final(s)).len() ==> !fbs_bits(*final(s))[i],
{
    s.clear()
}

/// Relies on `FixedBitSet::clone`: copies the blocks and the length, so the
/// copy holds exactly the same bits.
#[verifier::external_body]
pub(crate) fn fbs_clone(s: &fixedbitset::FixedBitSet) -> (r: fixedbitset::FixedBitSet)
    ensures
        fbs_bits(r) == fbs_bits(*s),
{
    s.clone()
}

/// Relies on `FixedBitSet::as_slice`: a read-only view of the backing `u32`
/// blocks, one block per 32 bits of capacity, each bit of the set stored
/// least-significant-first within its block.
#[verifier::external_body]
pub(crate) fn fbs_as_slice(s: &fixedbitset::FixedBitSet) -> (r: &[u32])
    ensures
        r@.len() == (fbs_bits(*s).len() + 31) / 32,
        forall|i: int| 0 <= i < fbs_bits(*s).len() ==> fbs_bits(*s)[i] == block_bit(r@, i),
{
    s.as_slice()
}

} // verus!
