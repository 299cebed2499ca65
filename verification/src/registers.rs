//! The packed register store: five-bit saturating counters, six to a word.

use vstd::prelude::*;

verus! {

/// The largest value a register can hold.
pub const MAX_VALUE: u32 = 31;

/// The smallest `q` with `q * denom >= num`.
pub fn ceil(num: usize, denom: usize) -> (q: usize)
    requires
        denom > 0,
        num + denom <= usize::MAX,
    ensures
        q == (num + denom - 1) / (denom as int),
        q * denom >= num,
        num > 0 ==> (q - 1) * denom < num,
        num == 0 ==> q == 0,
{
    let q: usize = (num + denom - 1) / denom;
    proof {
        lemma_ceil(num as int, denom as int);
    }
    q
}

/// Rounding a quotient up: `(num + denom - 1) / denom` is the least number
/// of groups of `denom` that covers `num`.
pub proof fn lemma_ceil(num: int, denom: int)
    requires
        num >= 0,
        denom > 0,
    ensures
        ((num + denom - 1) / denom) * denom >= num,
        num > 0 ==> ((num + denom - 1) / denom - 1) * denom < num,
        num == 0 ==> (num + denom - 1) / denom == 0,
{
    let q = (num + denom - 1) / denom;
    let r = (num + denom - 1) % denom;
    assert(num + denom - 1 == denom * q + r) by {
        vstd::arithmetic::div_mod::lemma_fundamental_div_mod(num + denom - 1, denom);
    }
    assert(0 <= r < denom) by {
        vstd::arithmetic::div_mod::lemma_mod_bound(num + denom - 1, denom);
    }
    assert(q * denom == denom * q) by (nonlinear_arith);
    assert((q - 1) * denom == denom * q - denom) by (nonlinear_arith);
    if num == 0 {
        vstd::arithmetic::div_mod::lemma_basic_div(denom - 1, denom);
    }
}

/// A value cut down to what a register can hold.
pub open spec fn clamp(value: u32) -> u32 {
    if value > MAX_VALUE {
        MAX_VALUE
    } else {
        value
    }
}

/// The registers after an unconditional write of `value` at `index`.
pub open spec fn spec_set(regs: Seq<u32>, index: int, value: u32) -> Seq<u32> {
    regs.update(index, clamp(value))
}

/// The registers after a monotonic write of `value` at `index`: the slot
/// takes the clamped value only where that exceeds what it holds.
pub open spec fn spec_set_greater(regs: Seq<u32>, index: int, value: u32) -> Seq<u32> {
    if clamp(value) > regs[index] {
        regs.update(index, clamp(value))
    } else {
        regs
    }
}

/// The registers after monotonic writes of `values`, in order, at `index`.
pub open spec fn spec_set_greater_all(regs: Seq<u32>, index: int, values: Seq<u32>) -> Seq<u32>
    decreases values.len(),
{
    if values.len() == 0 {
        regs
    } else {
        spec_set_greater(
            spec_set_greater_all(regs, index, values.drop_last()),
            index,
            values.last(),
        )
    }
}

/// The registers after unconditional writes of `values[0..n]` at the
/// indices `0..n`.
pub open spec fn spec_set_prefix(regs: Seq<u32>, values: Seq<u32>, n: nat) -> Seq<u32>
    decreases n,
{
    if n == 0 {
        regs
    } else {
        spec_set(spec_set_prefix(regs, values, (n - 1) as nat), n - 1, values[n - 1])
    }
}

/// A value written to a register is the value read back where it is at most
/// `MAX_VALUE`, and `MAX_VALUE` where it is more; the other registers keep
/// what they hold.
pub proof fn lemma_set_then_get(regs: Seq<u32>, index: int, value: u32)
    requires
        0 <= index < regs.len(),
    ensures
        spec_set(regs, index, value).len() == regs.len(),
        value <= MAX_VALUE ==> spec_set(regs, index, value)[index] == value,
        value > MAX_VALUE ==> spec_set(regs, index, value)[index] == MAX_VALUE,
        forall|j: int|
            0 <= j < regs.len() && j != index ==> #[trigger] spec_set(regs, index, value)[j]
                == regs[j],
{
}

/// A monotonic write leaves the register at the greater of what it held and
/// the clamped value, so never lower than before; a value that is not above
/// what the register holds changes nothing at all.
pub proof fn lemma_set_greater_never_lowers(regs: Seq<u32>, index: int, value: u32)
    requires
        0 <= index < regs.len(),
    ensures
        spec_set_greater(regs, index, value).len() == regs.len(),
        spec_set_greater(regs, index, value)[index] >= regs[index],
        spec_set_greater(regs, index, value)[index] == if clamp(value) > regs[index] {
            clamp(value)
        } else {
            regs[index]
        },
        clamp(value) <= regs[index] ==> spec_set_greater(regs, index, value) == regs,
        forall|j: int|
            0 <= j < regs.len() && j != index ==> #[trigger] spec_set_greater(
                regs,
                index,
                value,
            )[j] == regs[j],
{
}

/// Over any run of monotonic writes to one register, what the register
/// holds never falls: after `j` of the writes it is at most what it is after
/// `k >= j` of them.
pub proof fn lemma_set_greater_monotonic(
    regs: Seq<u32>,
    index: int,
    values: Seq<u32>,
    j: int,
    k: int,
)
    requires
        0 <= index < regs.len(),
        0 <= j <= k <= values.len(),
    ensures
        spec_set_greater_all(regs, index, values.take(j)).len() == regs.len(),
        spec_set_greater_all(regs, index, values.take(k)).len() == regs.len(),
        spec_set_greater_all(regs, index, values.take(j))[index] <= spec_set_greater_all(
            regs,
            index,
            values.take(k),
        )[index],
    decreases k - j,
{
    lemma_set_greater_all_len(regs, index, values.take(j));
    lemma_set_greater_all_len(regs, index, values.take(k));
    if j < k {
        lemma_set_greater_monotonic(regs, index, values, j, k - 1);
        assert(values.take(k).drop_last() =~= values.take(k - 1));
        lemma_set_greater_never_lowers(
            spec_set_greater_all(regs, index, values.take(k - 1)),
            index,
            values.take(k).last(),
        );
    }
}

/// Monotonic writes keep the number of registers.
pub proof fn lemma_set_greater_all_len(regs: Seq<u32>, index: int, values: Seq<u32>)
    requires
        0 <= index < regs.len(),
    ensures
        spec_set_greater_all(regs, index, values).len() == regs.len(),
    decreases values.len(),
{
    if values.len() > 0 {
        lemma_set_greater_all_len(regs, index, values.drop_last());
    }
}

/// After writes of `values[0..n]` at the indices `0..n`, the first `n`
/// registers hold those values, clamped, and the rest hold what they held.
pub proof fn lemma_set_prefix(regs: Seq<u32>, values: Seq<u32>, n: nat)
    requires
        n <= regs.len(),
        n <= values.len(),
    ensures
        spec_set_prefix(regs, values, n).len() == regs.len(),
        forall|i: int| 0 <= i < n ==> #[trigger] spec_set_prefix(regs, values, n)[i] == clamp(values[i]),
        forall|i: int| n <= i < regs.len() ==> #[trigger] spec_set_prefix(regs, values, n)[i] == regs[i],
    decreases n,
{
    if n > 0 {
        lemma_set_prefix(regs, values, (n - 1) as nat);
    }
}

/// Registers that were set, one after the other, to a sequence of values
/// that a register can hold are that sequence, in index order. It is what a
/// cursor from `iter` then hands out, however often one is made.
pub proof fn lemma_set_all_then_read(regs: Seq<u32>, values: Seq<u32>)
    requires
        values.len() == regs.len(),
        forall|i: int| 0 <= i < values.len() ==> #[trigger] values[i] <= MAX_VALUE,
    ensures
        spec_set_prefix(regs, values, regs.len()) == values,
{
    lemma_set_prefix(regs, values, regs.len());
    assert(spec_set_prefix(regs, values, regs.len()) =~= values);
}

/// The five-bit field of `word` that starts at bit `shift`.
spec fn field(word: u32, shift: u32) -> u32 {
    (word >> shift) & 31u32
}

/// `word` with the five-bit field at bit `shift` replaced by `value`.
spec fn with_field(word: u32, shift: u32, value: u32) -> u32 {
    (word & !(31u32 << shift)) | (value << shift)
}

/// Bit offset of register `index` inside its word.
spec fn shift_of(index: int) -> u32 {
    ((index % 6) * 5) as u32
}

proof fn lemma_field_bound(word: u32, shift: u32)
    by (bit_vector)
    ensures
        field(word, shift) <= 31,
{
}

proof fn lemma_field_of_zero(shift: u32)
    by (bit_vector)
    requires
        shift < 32,
    ensures
        field(0u32, shift) == 0,
{
}

proof fn lemma_with_field(word: u32, s: u32, t: u32, value: u32)
    by (bit_vector)
    requires
        value <= 31,
        s == 0 || s == 5 || s == 10 || s == 15 || s == 20 || s == 25,
        t == 0 || t == 5 || t == 10 || t == 15 || t == 20 || t == 25,
    ensures
        s == t ==> field(with_field(word, s, value), t) == value,
        s != t ==> field(with_field(word, s, value), t) == field(word, t),
{
}

/// A fixed number of five-bit registers, packed six to a 32-bit word.
pub struct Registers {
    buf: Vec<u32>,
    count: usize,
}

impl View for Registers {
    type V = Seq<u32>;

    /// The register values, in index order.
    closed spec fn view(&self) -> Seq<u32> {
        Seq::new(self.count as nat, |i: int| field(self.buf@[i / 6], shift_of(i)))
    }
}

impl Registers {
    /// Width of one register, in bits.
    pub const SIZE: usize = 5;

    /// Number of registers that share one word.
    const COUNT_PER_WORD: usize = 6;

    /// Mask of one register's bits.
    const MASK: u32 = 31;

    /// The buffer holds exactly the words that the registers need.
    pub closed spec fn wf(&self) -> bool {
        &&& self.count + 6 <= usize::MAX
        &&& self.buf@.len() == (self.count + 5) / 6
    }

    /// Every register holds at most `MAX_VALUE`.
    pub proof fn lemma_bounded(&self)
        ensures
            forall|i: int| 0 <= i < self@.len() ==> #[trigger] self@[i] <= MAX_VALUE,
    {
        assert forall|i: int| 0 <= i < self@.len() implies #[trigger] self@[i] <= MAX_VALUE by {
            lemma_field_bound(self.buf@[i / 6], shift_of(i));
        }
    }

    /// Storage for `count` registers, all zero.
    pub fn new(count: usize) -> (regs: Self)
        requires
            count + 6 <= usize::MAX,
        ensures
            regs.wf(),
            regs@ == Seq::new(count as nat, |i: int| 0u32),
    {
        let words: usize = ceil(count, Self::COUNT_PER_WORD);
        let buf: Vec<u32> = vec![0u32; words];
        let regs = Registers { buf, count };
        proof {
            assert forall|i: int| 0 <= i < count implies #[trigger] regs@[i] == 0u32 by {
                lemma_field_of_zero(shift_of(i));
            }
            assert(regs@ =~= Seq::new(count as nat, |i: int| 0u32));
        }
        regs
    }

    /// The number of registers.
    pub fn len(&self) -> (n: usize)
        ensures
            n == self@.len(),
    {
        self.count
    }

    /// The value of register `index`.
    pub fn get(&self, index: usize) -> (value: u32)
        requires
            self.wf(),
            index < self@.len(),
        ensures
            value == self@[index as int],
            value <= MAX_VALUE,
    {
        let quot: usize = index / Self::COUNT_PER_WORD;
        let rem: usize = index % Self::COUNT_PER_WORD;
        let shift: u32 = (rem * Self::SIZE) as u32;
        proof {
            lemma_field_bound(self.buf@[quot as int], shift);
        }
        (self.buf[quot] >> shift) & Self::MASK
    }

    /// Overwrites register `index` with `value`, cut down to `MAX_VALUE`.
    pub fn set(&mut self, index: usize, value: u32)
        requires
            old(self).wf(),
            index < old(self)@.len(),
        ensures
            final(self).wf(),
            final(self)@ == spec_set(old(self)@, index as int, value),
    {
        let value: u32 = if value > Self::MASK { Self::MASK } else { value };
        self.write(index, value);
    }

    /// Raises register `index` to `value`, cut down to `MAX_VALUE`, where
    /// that is more than the register holds; otherwise changes nothing.
    pub fn set_greater(&mut self, index: usize, value: u32)
        requires
            old(self).wf(),
            index < old(self)@.len(),
        ensures
            final(self).wf(),
            final(self)@ == spec_set_greater(old(self)@, index as int, value),
    {
        let value: u32 = if value > Self::MASK { Self::MASK } else { value };
        let curr: u32 = self.get(index);
        if value > curr {
            self.write(index, value);
        }
    }

    /// Stores `value` in the field of register `index`, leaving every other
    /// field of the buffer as it is.
    fn write(&mut self, index: usize, value: u32)
        requires
            old(self).wf(),
            index < old(self)@.len(),
            value <= MAX_VALUE,
        ensures
            final(self).wf(),
            final(self)@ == old(self)@.update(index as int, value),
    {
        let quot: usize = index / Self::COUNT_PER_WORD;
        let rem: usize = index % Self::COUNT_PER_WORD;
        let shift: u32 = (rem * Self::SIZE) as u32;
        let mask: u32 = Self::MASK << shift;
        let word: u32 = self.buf[quot];
        let word_after: u32 = (word & !mask) | (value << shift);
        self.buf.set(quot, word_after);
        proof {
            assert(word_after == with_field(word, shift, value));
            assert forall|j: int| 0 <= j < self.count implies #[trigger] self@[j] == old(
                self,
            )@.update(index as int, value)[j] by {
                if j / 6 == index as int / 6 {
                    lemma_with_field(word, shift, shift_of(j), value);
                }
            }
            assert(self@ =~= old(self)@.update(index as int, value));
        }
    }

    /// A cursor over the registers, starting at register 0.
    pub fn iter(&self) -> (it: RegistersIterator<'_>)
        requires
            self.wf(),
        ensures
            it.wf(),
            it.remaining() == self@,
    {
        let it = RegistersIterator { registers: self, index: 0 };
        proof {
            assert(self@.skip(0) =~= self@);
        }
        it
    }
}

/// A cursor that hands out the registers of a store one by one, in index
/// order.
pub struct RegistersIterator<'a> {
    registers: &'a Registers,
    index: usize,
}

impl<'a> RegistersIterator<'a> {
    /// The cursor stands inside a well-formed store.
    pub closed spec fn wf(&self) -> bool {
        &&& self.registers.wf()
        &&& self.index <= self.registers@.len()
    }

    /// The values that are still to come, in order.
    pub closed spec fn remaining(&self) -> Seq<u32> {
        self.registers@.skip(self.index as int)
    }

    /// The next register value, or `None` once all were handed out.
    pub fn next(&mut self) -> (item: Option<u32>)
        requires
            old(self).wf(),
        ensures
            final(self).wf(),
            old(self).remaining().len() == 0 ==> item.is_none() && final(self).remaining()
                == old(self).remaining(),
            old(self).remaining().len() > 0 ==> item == Some(old(self).remaining()[0])
                && final(self).remaining() == old(self).remaining().skip(1),
    {
        if self.index < self.registers.len() {
            let value: u32 = self.registers.get(self.index);
            self.index = self.index + 1;
            proof {
                assert(self.remaining() =~= old(self).remaining().skip(1));
            }
            Some(value)
        } else {
            None
        }
    }
}

} // verus!
