//! The facts this crate takes for granted about `fixedbitset::FixedBitSet`
//! and about `String::push`.
//!
//! Nothing in this module is proved. Each item states what the named function
//! does, as its source or documentation shows it; those of the `fixedbitset`
//! crate are stated over [`bits_of`].

use fixedbitset::FixedBitSet;
use vstd::prelude::*;

verus! {

/// Makes `fixedbitset::FixedBitSet` known to the verifier as an opaque type:
/// nothing is assumed about what is inside it.
#[verifier::external_type_specification]
#[verifier::external_body]
pub struct ExFixedBitSet(fixedbitset::FixedBitSet);

/// The bits a `FixedBitSet` holds, in index order; its length is the set's
/// length in bits.
pub uninterp spec fn bits_of(s: FixedBitSet) -> Seq<bool>;

/// Whether bit `k` (counted from the least significant) of `block` is set.
pub open spec fn block_bit(block: u32, k: int) -> bool
    recommends
        0 <= k < 32,
{
    block & (1u32 << (k as u32)) != 0
}

/// `blocks` stores `bits` thirty-two to a word: bit `i` lives in word `i / 32`
/// at position `i % 32`, and there are just enough words to hold them all.
pub open spec fn packs(blocks: Seq<u32>, bits: Seq<bool>) -> bool {
    &&& blocks.len() == (bits.len() + 31) / 32
    &&& forall|i: int|
        0 <= i < bits.len() ==> #[trigger] bits[i] == block_bit(blocks[i / 32], i % 32)
}

/// `FixedBitSet::with_capacity`: a set of `bits` bits, all clear.
pub assume_specification[ FixedBitSet::with_capacity ](bits: usize) -> (s: FixedBitSet)
    ensures
        bits_of(s) == Seq::new(bits as nat, |i: int| false),
;

/// `FixedBitSet::set`: writes `enabled` at `bit` and leaves every other bit
/// and the length alone. It panics when `bit` is past the end, so callers must
/// stay in range.
pub assume_specification[ FixedBitSet::set ](s: &mut FixedBitSet, bit: usize, enabled: bool)
    requires
        bit < bits_of(*old(s)).len(),
    ensures
        bits_of(*final(s)) == bits_of(*old(s)).update(bit as int, enabled),
;

/// `FixedBitSet::clone`: a set with the same bits.
pub assume_specification[ <FixedBitSet as Clone>::clone ](s: &FixedBitSet) -> (r: FixedBitSet)
    ensures
        bits_of(r) == bits_of(*s),
;

/// `FixedBitSet::as_slice`: the words that back the set, which pack its bits.
pub assume_specification[ FixedBitSet::as_slice ](s: &FixedBitSet) -> (blocks: &[u32])
    ensures
        packs(blocks@, bits_of(*s)),
;

/// Indexing a `FixedBitSet` with `[bit]`: for a `bit` inside the set, the
/// value stored there. Nothing is claimed about positions past the end.
#[verifier::external_body]
pub(crate) fn bit_at(s: &FixedBitSet, bit: usize) -> (b: bool)
    ensures
        bit < bits_of(*s).len() ==> b == bits_of(*s)[bit as int],
{
    s[bit]
}

/// `FixedBitSet::set_range` over the full range `..`: every bit becomes
/// `enabled`, and the length stays what it was.
#[verifier::external_body]
pub(crate) fn set_every_bit(s: &mut FixedBitSet, enabled: bool)
    ensures
        bits_of(*final(s)) == Seq::new(bits_of(*old(s)).len(), |i: int| enabled),
{
    s.set_range(.., enabled);
}

/// `String::push`: appends one character.
pub assume_specification[ String::push ](s: &mut String, c: char)
    ensures
        final(s)@ == old(s)@.push(c),
;

} // verus!
