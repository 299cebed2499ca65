//! The state that the quantised estimators share, as a mathematical model,
//! and the pieces of construction and estimation that work on it.

use crate::common::{low_word, spec_index, spec_residual, split_hash, valid_precision};
use crate::gen_gumbel::{mantissa, recovered, spec_mantissa, spec_recovered, BIAS, UNIT};
use crate::registers::{clamp, spec_set_greater, Registers, MAX_VALUE};
use vstd::arithmetic::power2::pow2;
use vstd::prelude::*;

verus! {

/// What an estimator holds: its precision, one register code per hash
/// prefix, and one calibration constant per register, the latter as a
/// numerator over `UNIT`.
pub struct Sketch {
    pub precision: u8,
    pub registers: Seq<u32>,
    pub calibration: Seq<u32>,
}

/// One insertion: the hash of the element and the register code of its
/// variate.
pub struct Insertion {
    pub hash: u64,
    pub code: u32,
}

/// Where an element falls and what its variate is made of: the register
/// that its hash selects, the residual of the hash, and the calibration
/// constant of that register as a numerator over `UNIT`.
pub struct Slot {
    pub index: usize,
    pub residual: u32,
    pub calibration: u32,
}

impl Sketch {
    /// There are `2^precision` registers, each with a code of five bits and
    /// a calibration constant below one.
    pub open spec fn wf(self) -> bool {
        &&& valid_precision(self.precision)
        &&& self.registers.len() == pow2(self.precision as nat)
        &&& self.calibration.len() == self.registers.len()
        &&& forall|i: int| 0 <= i < self.registers.len() ==> #[trigger] self.registers[i] <= MAX_VALUE
        &&& forall|i: int| 0 <= i < self.calibration.len() ==> #[trigger] self.calibration[i] < UNIT
    }

    /// The register that an element with `hash` falls into.
    pub open spec fn index_of(self, hash: u64) -> int {
        spec_index(low_word(hash), self.precision) as int
    }

    /// The slot of an element with `hash`.
    pub open spec fn slot(self, hash: u64) -> Slot {
        Slot {
            index: self.index_of(hash) as usize,
            residual: spec_residual(low_word(hash), self.precision),
            calibration: self.calibration[self.index_of(hash)],
        }
    }

    /// The sketch after the insertion of an element with `hash` whose
    /// variate has the register code `code`: the register of the element
    /// rises to the code where that is higher, and nothing else changes.
    pub open spec fn add(self, hash: u64, code: u32) -> Sketch {
        Sketch {
            precision: self.precision,
            registers: spec_set_greater(self.registers, self.index_of(hash), code),
            calibration: self.calibration,
        }
    }

    /// The sketch after `insertions`, in order.
    pub open spec fn add_all(self, insertions: Seq<Insertion>) -> Sketch
        decreases insertions.len(),
    {
        if insertions.len() == 0 {
            self
        } else {
            self.add_all(insertions.drop_last()).add(
                insertions.last().hash,
                insertions.last().code,
            )
        }
    }

    /// The level that register `index` recorded, calibration taken off, as a
    /// numerator over `UNIT`.
    pub open spec fn recovered(self, index: int) -> int {
        spec_recovered(self.registers[index], self.calibration[index])
    }

    /// The sum of the recovered levels of all registers, as a numerator over
    /// `UNIT`.
    pub open spec fn sum(self) -> int {
        recovered_sum(self.registers, self.calibration, self.registers.len())
    }
}

/// The sum of the recovered levels of the first `n` registers, as a
/// numerator over `UNIT`.
pub open spec fn recovered_sum(registers: Seq<u32>, calibration: Seq<u32>, n: nat) -> int
    decreases n,
{
    if n == 0 {
        0
    } else {
        recovered_sum(registers, calibration, (n - 1) as nat) + spec_recovered(
            registers[n - 1],
            calibration[n - 1],
        )
    }
}

/// The register codes with which `count` registers start, given the prior
/// codes: each register takes its entry, cut down to `MAX_VALUE`, and a
/// register without an entry starts at zero.
pub open spec fn spec_seed(count: nat, prior: Seq<u32>) -> Seq<u32> {
    Seq::new(
        count,
        |i: int|
            if i < prior.len() {
                clamp(prior[i])
            } else {
                0u32
            },
    )
}

/// The calibration constants of `count` registers, given the hashes of the
/// register indices: of each hash the 23 high bits of its low word, and zero
/// for a register without an entry.
pub open spec fn spec_calibration(count: nat, index_hashes: Seq<u64>) -> Seq<u32> {
    Seq::new(
        count,
        |i: int|
            if i < index_hashes.len() {
                spec_mantissa(low_word(index_hashes[i]))
            } else {
                0u32
            },
    )
}

/// The sketch that construction gives.
pub open spec fn spec_initial(precision: u8, index_hashes: Seq<u64>, prior: Seq<u32>) -> Sketch {
    Sketch {
        precision,
        registers: spec_seed(pow2(precision as nat), prior),
        calibration: spec_calibration(pow2(precision as nat), index_hashes),
    }
}

/// Raising one register by some amount raises the sum by that amount times
/// `UNIT`.
proof fn lemma_sum_update(registers: Seq<u32>, calibration: Seq<u32>, n: nat, index: int, code: u32)
    requires
        n <= registers.len(),
        0 <= index < registers.len(),
    ensures
        recovered_sum(registers.update(index, code), calibration, n) == recovered_sum(
            registers,
            calibration,
            n,
        ) + (if index < n {
            (code - registers[index]) * UNIT
        } else {
            0
        }),
    decreases n,
{
    if n > 0 {
        lemma_sum_update(registers, calibration, (n - 1) as nat, index, code);
        if index == n - 1 {
            assert((code - BIAS) * UNIT - (registers[index] - BIAS) * UNIT == (code
                - registers[index]) * UNIT) by (nonlinear_arith);
        }
    }
}

/// Bounds of the sum: each recovered level lies between `-17 * UNIT` and
/// `15 * UNIT`.
proof fn lemma_sum_bounds(registers: Seq<u32>, calibration: Seq<u32>, n: nat)
    requires
        n <= registers.len(),
        n <= calibration.len(),
        forall|i: int| 0 <= i < n ==> #[trigger] registers[i] <= MAX_VALUE,
        forall|i: int| 0 <= i < n ==> #[trigger] calibration[i] < UNIT,
    ensures
        -142_606_336 * (n as int) <= recovered_sum(registers, calibration, n),
        recovered_sum(registers, calibration, n) <= 125_829_120 * (n as int),
    decreases n,
{
    if n > 0 {
        lemma_sum_bounds(registers, calibration, (n - 1) as nat);
        let level: int = registers[n - 1] - BIAS;
        let unit: int = UNIT as int;
        assert(-134_217_728 <= level * unit <= 125_829_120) by (nonlinear_arith)
            requires
                -16 <= level <= 15,
                unit == 0x80_0000,
        ;
        assert(calibration[n - 1] < UNIT);
    }
}

/// An insertion keeps a sketch well formed.
pub proof fn lemma_add_wf(sketch: Sketch, hash: u64, code: u32)
    requires
        sketch.wf(),
    ensures
        sketch.add(hash, code).wf(),
        0 <= sketch.index_of(hash) < sketch.registers.len(),
{
    crate::common::lemma_index_bound(low_word(hash), sketch.precision);
}

/// Inserting the same element a second time changes no register: its hash
/// selects the same register, which already holds at least its code.
pub proof fn lemma_add_idempotent(sketch: Sketch, hash: u64, code: u32)
    requires
        sketch.wf(),
    ensures
        sketch.add(hash, code).add(hash, code) == sketch.add(hash, code),
{
    lemma_add_wf(sketch, hash, code);
}

/// An insertion lowers no register, and so does not lower the sum of the
/// recovered levels, of which the geometric estimate is an increasing
/// function.
pub proof fn lemma_add_monotonic(sketch: Sketch, hash: u64, code: u32)
    requires
        sketch.wf(),
    ensures
        forall|i: int|
            0 <= i < sketch.registers.len() ==> sketch.registers[i] <= #[trigger] sketch.add(
                hash,
                code,
            ).registers[i],
        sketch.sum() <= sketch.add(hash, code).sum(),
{
    lemma_add_wf(sketch, hash, code);
    let index = sketch.index_of(hash);
    if clamp(code) > sketch.registers[index] {
        lemma_sum_update(
            sketch.registers,
            sketch.calibration,
            sketch.registers.len(),
            index,
            clamp(code),
        );
        let rise = clamp(code) - sketch.registers[index];
        assert(rise * UNIT >= 0) by (nonlinear_arith)
            requires
                rise >= 0,
                UNIT == 0x80_0000,
        ;
    }
}

/// Over any run of insertions the sum of the recovered levels never falls:
/// after `j` of them it is at most what it is after `k >= j` of them.
pub proof fn lemma_sum_never_falls(sketch: Sketch, insertions: Seq<Insertion>, j: int, k: int)
    requires
        sketch.wf(),
        0 <= j <= k <= insertions.len(),
    ensures
        sketch.add_all(insertions.take(j)).wf(),
        sketch.add_all(insertions.take(k)).wf(),
        sketch.add_all(insertions.take(j)).sum() <= sketch.add_all(insertions.take(k)).sum(),
    decreases k - j,
{
    lemma_add_all_wf(sketch, insertions.take(j));
    lemma_add_all_wf(sketch, insertions.take(k));
    if j < k {
        lemma_sum_never_falls(sketch, insertions, j, k - 1);
        let before = sketch.add_all(insertions.take(k - 1));
        assert(insertions.take(k).drop_last() =~= insertions.take(k - 1));
        assert(insertions.take(k).last() == insertions[k - 1]);
        lemma_add_monotonic(before, insertions[k - 1].hash, insertions[k - 1].code);
    }
}

/// A run of insertions keeps a sketch well formed.
pub proof fn lemma_add_all_wf(sketch: Sketch, insertions: Seq<Insertion>)
    requires
        sketch.wf(),
    ensures
        sketch.add_all(insertions).wf(),
    decreases insertions.len(),
{
    if insertions.len() > 0 {
        lemma_add_all_wf(sketch, insertions.drop_last());
        lemma_add_wf(
            sketch.add_all(insertions.drop_last()),
            insertions.last().hash,
            insertions.last().code,
        );
    }
}

/// A store of `count` registers that start at the prior codes.
pub(crate) fn seed_registers(count: usize, prior: &[u32]) -> (registers: Registers)
    requires
        count + 6 <= usize::MAX,
    ensures
        registers.wf(),
        registers@ == spec_seed(count as nat, prior@),
{
    let given: usize = if prior.len() < count {
        prior.len()
    } else {
        count
    };
    let mut registers = Registers::new(count);
    let mut i: usize = 0;
    while i < given
        invariant
            given <= count,
            given <= prior@.len(),
            given == prior@.len() || given == count,
            i <= given,
            registers.wf(),
            registers@.len() == count,
            forall|j: int| 0 <= j < i ==> #[trigger] registers@[j] == clamp(prior@[j]),
            forall|j: int| i <= j < count ==> #[trigger] registers@[j] == 0,
        decreases given - i,
    {
        registers.set(i, prior[i]);
        i = i + 1;
    }
    proof {
        assert(registers@ =~= spec_seed(count as nat, prior@));
    }
    registers
}

/// The calibration constants of `count` registers, each made of the hash of
/// the index of its register.
pub(crate) fn calibration_table(count: usize, index_hashes: &[u64]) -> (table: Vec<u32>)
    ensures
        table@ == spec_calibration(count as nat, index_hashes@),
{
    let given: usize = index_hashes.len();
    let mut table: Vec<u32> = Vec::new();
    let mut i: usize = 0;
    while i < count
        invariant
            given == index_hashes@.len(),
            i <= count,
            table@.len() == i,
            forall|j: int|
                0 <= j < i ==> #[trigger] table@[j] == spec_calibration(
                    count as nat,
                    index_hashes@,
                )[j],
        decreases count - i,
    {
        if i < given {
            let word: u32 = #[verifier::truncate] (index_hashes[i] as u32);
            proof {
                crate::common::lemma_low_word(index_hashes@[i as int]);
            }
            table.push(mantissa(word));
        } else {
            table.push(0);
        }
        i = i + 1;
    }
    proof {
        assert(table@ =~= spec_calibration(count as nat, index_hashes@));
    }
    table
}

/// The slot of an element with `hash` in a sketch with `precision` and the
/// calibration constants `calibration`.
pub(crate) fn locate(precision: u8, calibration: &Vec<u32>, hash: u64) -> (slot: Slot)
    requires
        valid_precision(precision),
        calibration@.len() == pow2(precision as nat),
    ensures
        slot.index == spec_index(low_word(hash), precision),
        slot.residual == spec_residual(low_word(hash), precision),
        slot.calibration == calibration@[slot.index as int],
{
    let (index, residual) = split_hash(hash, precision);
    Slot { index, residual, calibration: calibration[index] }
}

/// The sum of the recovered levels of all registers, as a numerator over
/// `UNIT`.
pub(crate) fn register_sum(registers: &Registers, calibration: &Vec<u32>) -> (sum: i64)
    requires
        registers.wf(),
        registers@.len() == calibration@.len(),
        registers@.len() <= 0x1_0000,
        forall|i: int| 0 <= i < calibration@.len() ==> #[trigger] calibration@[i] < UNIT,
    ensures
        sum == recovered_sum(registers@, calibration@, registers@.len()),
{
    let count: usize = registers.len();
    let mut sum: i64 = 0;
    let mut i: usize = 0;
    proof {
        registers.lemma_bounded();
    }
    while i < count
        invariant
            registers.wf(),
            count == registers@.len(),
            count == calibration@.len(),
            count <= 0x1_0000,
            i <= count,
            forall|j: int| 0 <= j < registers@.len() ==> #[trigger] registers@[j] <= MAX_VALUE,
            forall|j: int| 0 <= j < calibration@.len() ==> #[trigger] calibration@[j] < UNIT,
            sum == recovered_sum(registers@, calibration@, i as nat),
        decreases count - i,
    {
        proof {
            lemma_sum_bounds(registers@, calibration@, i as nat);
        }
        let term: i64 = recovered(registers.get(i), calibration[i]);
        sum = sum + term;
        i = i + 1;
    }
    sum
}

} // verus!
