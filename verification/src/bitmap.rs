//! The occupancy bitmap of the occupancy-tracking estimator: a `BitVec` of
//! the bitvec crate, which the library uses by the contracts stated here.

use bitvec::vec::BitVec;
use vstd::prelude::*;

verus! {

/// One flag per register, kept in a `BitVec` of the bitvec crate. The
/// verifier does not look inside: `bits_of` names what the bitmap holds, and
/// only the three methods of this type, whose contracts are taken on trust,
/// reach the `BitVec`.
#[verifier::external_body]
pub struct Bitmap {
    bits: BitVec,
}

/// The flags that a bitmap holds, in index order.
pub uninterp spec fn bits_of(bitmap: Bitmap) -> Seq<bool>;

/// The number of `true` among the first `n` of `flags`.
pub open spec fn count_true(flags: Seq<bool>, n: nat) -> nat
    decreases n,
{
    if n == 0 {
        0
    } else {
        count_true(flags, (n - 1) as nat) + if flags[n - 1] {
            1nat
        } else {
            0nat
        }
    }
}

/// No more flags are set than there are flags.
pub proof fn lemma_count_bound(flags: Seq<bool>, n: nat)
    ensures
        count_true(flags, n) <= n,
    decreases n,
{
    if n > 0 {
        lemma_count_bound(flags, (n - 1) as nat);
    }
}

/// Where every flag is set, the count is the number of flags.
pub proof fn lemma_count_all_set(flags: Seq<bool>, n: nat)
    requires
        n <= flags.len(),
        forall|i: int| 0 <= i < n ==> #[trigger] flags[i],
    ensures
        count_true(flags, n) == n,
    decreases n,
{
    if n > 0 {
        lemma_count_all_set(flags, (n - 1) as nat);
    }
}

/// Clearing one flag takes one off the count where the flag was set, and
/// leaves the count as it is where it was not.
pub proof fn lemma_count_clear(flags: Seq<bool>, n: nat, index: int)
    requires
        n <= flags.len(),
        0 <= index < flags.len(),
    ensures
        count_true(flags.update(index, false), n) == count_true(flags, n) - (if index < n
            && flags[index] {
            1int
        } else {
            0int
        }),
    decreases n,
{
    if n > 0 {
        lemma_count_clear(flags, (n - 1) as nat, index);
    }
}

impl Bitmap {
    /// `BitVec::repeat` of bitvec with the bit `true`: `len` flags, all set.
    /// The crate panics on a length above `usize::MAX >> 3`.
    #[verifier::external_body]
    pub(crate) fn all_set(len: usize) -> (bitmap: Bitmap)
        requires
            len <= usize::MAX / 8,
        ensures
            bits_of(bitmap) == Seq::new(len as nat, |i: int| true),
    {
        Bitmap { bits: BitVec::repeat(true, len) }
    }

    /// `BitSlice::set` of bitvec with the value `false`: clears the flag at
    /// `index` and leaves the others. The crate panics where `index` is not
    /// below the length.
    #[verifier::external_body]
    pub(crate) fn clear(&mut self, index: usize)
        requires
            index < bits_of(*old(self)).len(),
        ensures
            bits_of(*final(self)) == bits_of(*old(self)).update(index as int, false),
    {
        self.bits.set(index, false);
    }

    /// `BitSlice::count_ones` of bitvec: the number of set flags.
    #[verifier::external_body]
    pub(crate) fn count_ones(&self) -> (n: usize)
        ensures
            n == count_true(bits_of(*self), bits_of(*self).len()),
    {
        self.bits.count_ones()
    }
}

} // verus!
