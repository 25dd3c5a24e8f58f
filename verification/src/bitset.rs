//! What this crate relies on from `fixedbitset::FixedBitSet`.
//!
//! Nothing in this file is proved: each contract restates the behaviour of
//! one method of the bit set, and the rest of the crate is verified against
//! these statements.

use fixedbitset::FixedBitSet;
use vstd::prelude::*;

verus! {

#[verifier::external_type_specification]
#[verifier::external_body]
pub struct ExFixedBitSet(FixedBitSet);

/// The bits of a set in index order: entry `i` is `true` exactly when bit `i`
/// is enabled. Its length is the set's length in bits.
pub uninterp spec fn bits_of(set: FixedBitSet) -> Seq<bool>;

/// Whether bit `k` of the machine word `word` is one.
pub open spec fn word_bit(word: usize, k: int) -> bool {
    word & (1usize << (k as usize)) != 0
}

/// `FixedBitSet::with_capacity`: a set of `len` bits, all of them disabled.
#[verifier::external_body]
pub(crate) fn bitset_with_capacity(len: usize) -> (set: FixedBitSet)
    ensures
        bits_of(set) == Seq::new(len as nat, |i: int| false),
{
    FixedBitSet::with_capacity(len)
}

/// `FixedBitSet::len`: the number of bits, enabled or not.
#[verifier::external_body]
pub(crate) fn bitset_len(set: &FixedBitSet) -> (len: usize)
    ensures
        len == bits_of(*set).len(),
{
    set.len()
}

/// Indexing a `FixedBitSet`: the state of bit `i`. The index operator answers
/// `false` beyond the end; this contract speaks of the bits inside only.
#[verifier::external_body]
pub(crate) fn bitset_get(set: &FixedBitSet, i: usize) -> (enabled: bool)
    requires
        i < bits_of(*set).len(),
    ensures
        enabled == bits_of(*set)[i as int],
{
    set[i]
}

/// `FixedBitSet::set`: bit `i` takes the state `enabled`, every other bit
/// keeps its own, and the length stays. The method panics when `i` is not
/// below the length, which the precondition rules out.
#[verifier::external_body]
pub(crate) fn bitset_set(set: &mut FixedBitSet, i: usize, enabled: bool)
    requires
        i < bits_of(*old(set)).len(),
    ensures
        bits_of(*final(set)) == bits_of(*old(set)).update(i as int, enabled),
{
    set.set(i, enabled)
}

/// `Clone` for `FixedBitSet`: a separate set with the same bits.
#[verifier::external_body]
pub(crate) fn bitset_clone(set: &FixedBitSet) -> (copy: FixedBitSet)
    ensures
        bits_of(copy) == bits_of(*set),
{
    set.clone()
}

/// `FixedBitSet::as_slice`: the words that hold the bits. There are just
/// enough words for the length, and bit `i` of the set is bit
/// `i % usize::BITS` of word `i / usize::BITS`. Nothing is said of the unused
/// high bits of the last word.
#[verifier::external_body]
pub(crate) fn bitset_as_slice(set: &FixedBitSet) -> (words: &[usize])
    ensures
        (words@.len() - 1) * usize::BITS < bits_of(*set).len() <= words@.len() * usize::BITS,
        forall|i: int|
            0 <= i < bits_of(*set).len() ==> #[trigger] bits_of(*set)[i] == word_bit(
                words@[i / (usize::BITS as int)],
                i % (usize::BITS as int),
            ),
{
    set.as_slice()
}

} // verus!
