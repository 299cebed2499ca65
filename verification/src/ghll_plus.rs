//! The occupancy-tracking estimator: the basic estimator with one flag per
//! register that says whether an element has fallen into it yet.

use crate::bitmap::{bits_of, count_true, lemma_count_all_set, lemma_count_bound, Bitmap};
use crate::common::{
    lemma_count_fits, register_count, split_hash, valid_precision, GumbelError,
};
use crate::registers::Registers;
use crate::sketch::{
    calibration_table, lemma_add_monotonic, lemma_add_wf, locate, register_sum, seed_registers,
    spec_initial, Sketch, Slot,
};
use vstd::arithmetic::power2::pow2;
use vstd::prelude::*;

verus! {

/// What an occupancy-tracking estimator holds: a sketch, and for each
/// register whether it is still free.
pub struct Occupancy {
    pub sketch: Sketch,
    pub free: Seq<bool>,
}

impl Occupancy {
    /// The sketch is well formed and every register has its flag.
    pub open spec fn wf(self) -> bool {
        &&& self.sketch.wf()
        &&& self.free.len() == self.sketch.registers.len()
    }

    /// The state after the insertion of an element with `hash` whose variate
    /// has the register code `code`: the register of the element is free no
    /// longer, and the sketch changes as that of the basic estimator does.
    pub open spec fn add(self, hash: u64, code: u32) -> Occupancy {
        Occupancy {
            sketch: self.sketch.add(hash, code),
            free: self.free.update(self.sketch.index_of(hash), false),
        }
    }

    /// The number of registers that are still free.
    pub open spec fn free_count(self) -> nat {
        count_true(self.free, self.free.len())
    }
}

/// The state that construction gives: the sketch of the basic estimator, and
/// every register free.
pub open spec fn spec_initial_occupancy(
    precision: u8,
    index_hashes: Seq<u64>,
    prior: Seq<u32>,
) -> Occupancy {
    Occupancy {
        sketch: spec_initial(precision, index_hashes, prior),
        free: Seq::new(pow2(precision as nat), |i: int| true),
    }
}

/// An estimator without insertions has every register free.
pub proof fn lemma_initially_all_free(precision: u8, index_hashes: Seq<u64>, prior: Seq<u32>)
    requires
        valid_precision(precision),
    ensures
        spec_initial_occupancy(precision, index_hashes, prior).free_count() == pow2(
            precision as nat,
        ),
{
    let free = spec_initial_occupancy(precision, index_hashes, prior).free;
    lemma_count_all_set(free, free.len());
}

/// An insertion never frees a register: the number of free registers falls
/// by one where the element is the first in its register, and stays as it is
/// otherwise.
pub proof fn lemma_add_occupies(state: Occupancy, hash: u64, code: u32)
    requires
        state.wf(),
    ensures
        state.add(hash, code).wf(),
        0 <= state.sketch.index_of(hash) < state.free.len(),
        !state.add(hash, code).free[state.sketch.index_of(hash)],
        forall|i: int|
            0 <= i < state.free.len() && !state.free[i] ==> !#[trigger] state.add(
                hash,
                code,
            ).free[i],
        state.add(hash, code).free_count() == state.free_count() - (if state.free[state.sketch.index_of(
            hash,
        )] {
            1int
        } else {
            0int
        }),
{
    lemma_add_wf(state.sketch, hash, code);
    crate::bitmap::lemma_count_clear(state.free, state.free.len(), state.sketch.index_of(hash));
}

/// A cardinality estimator using the Gumbel distribution, with a bitmap of
/// the registers that no element has reached.
pub struct GHLLPlus {
    precision: u8,
    no_registers: usize,
    registers: Registers,
    calibration: Vec<u32>,
    free: Bitmap,
}

impl View for GHLLPlus {
    type V = Occupancy;

    closed spec fn view(&self) -> Occupancy {
        Occupancy {
            sketch: Sketch {
                precision: self.precision,
                registers: self.registers@,
                calibration: self.calibration@,
            },
            free: bits_of(self.free),
        }
    }
}

impl GHLLPlus {
    /// The estimator holds a well-formed state, and its fields agree with it.
    pub open spec fn wf(&self) -> bool {
        &&& self@.wf()
        &&& self.inv()
    }

    /// The register store is sound and as long as the estimator says.
    pub closed spec fn inv(&self) -> bool {
        &&& self.registers.wf()
        &&& self.no_registers == self.registers@.len()
    }

    /// Creates an estimator with `2^precision` registers, all of them free.
    ///
    /// `index_hashes[i]` is the hash of the register index `i` under the hash
    /// seed of the estimator, from which the calibration constant of
    /// register `i` is made. `prior[i]` is the register code of a variate
    /// drawn for register `i`, with which the register starts. A register
    /// for which a table has no entry gets zero from that table, and entries
    /// for more than `2^precision` registers are not read.
    pub fn with_precision(precision: u8, index_hashes: &[u64], prior: &[u32]) -> (r: Result<
        GHLLPlus,
        GumbelError,
    >)
        ensures
            r is Ok <==> valid_precision(precision),
            r matches Ok(estimator) ==> estimator.wf() && estimator@ == spec_initial_occupancy(
                precision,
                index_hashes@,
                prior@,
            ) && estimator@.free_count() == pow2(precision as nat),
    {
        let no_registers: usize = match register_count(precision) {
            Ok(n) => n,
            Err(e) => {
                return Err(e);
            },
        };
        proof {
            lemma_count_fits(precision);
            lemma_initially_all_free(precision, index_hashes@, prior@);
        }
        let registers = seed_registers(no_registers, prior);
        let calibration = calibration_table(no_registers, index_hashes);
        let free = Bitmap::all_set(no_registers);
        Ok(GHLLPlus { precision, no_registers, registers, calibration, free })
    }

    /// What the variate of an element with `hash` is made of: the residual of
    /// the hash, and the calibration constant of the register that the hash
    /// selects.
    pub fn locate(&self, hash: u64) -> (slot: Slot)
        requires
            self.wf(),
        ensures
            slot == self@.sketch.slot(hash),
            slot.index < self@.sketch.registers.len(),
    {
        proof {
            crate::common::lemma_index_bound(crate::common::low_word(hash), self.precision);
        }
        locate(self.precision, &self.calibration, hash)
    }

    /// Records an element with `hash` whose variate has the register code
    /// `code`: the register that the hash selects is marked as taken, and
    /// rises to the code where that is higher.
    pub fn add(&mut self, hash: u64, code: u32)
        requires
            old(self).wf(),
        ensures
            final(self).wf(),
            final(self)@ == old(self)@.add(hash, code),
            old(self)@.sketch.sum() <= final(self)@.sketch.sum(),
            final(self)@.free_count() <= old(self)@.free_count(),
    {
        proof {
            lemma_add_wf(self@.sketch, hash, code);
            lemma_add_monotonic(self@.sketch, hash, code);
            lemma_add_occupies(self@, hash, code);
        }
        let (index, _) = split_hash(hash, self.precision);
        self.free.clear(index);
        self.registers.set_greater(index, code);
    }

    /// The number of registers that no element has reached.
    pub fn free_count(&self) -> (n: usize)
        requires
            self.wf(),
        ensures
            n == self@.free_count(),
            n <= self@.sketch.registers.len(),
    {
        proof {
            lemma_count_bound(bits_of(self.free), bits_of(self.free).len());
        }
        self.free.count_ones()
    }

    /// The precision that the estimator was made with.
    pub fn precision(&self) -> (precision: u8)
        ensures
            precision == self@.sketch.precision,
    {
        self.precision
    }

    /// The number of registers.
    pub fn no_registers(&self) -> (n: usize)
        requires
            self.wf(),
        ensures
            n == self@.sketch.registers.len(),
            n == pow2(self@.sketch.precision as nat),
    {
        self.no_registers
    }

    /// The register store.
    pub fn registers(&self) -> (registers: &Registers)
        requires
            self.wf(),
        ensures
            registers.wf(),
            registers@ == self@.sketch.registers,
    {
        &self.registers
    }

    /// The calibration constants, one for each register, as numerators over
    /// `UNIT`.
    pub fn calibration(&self) -> (calibration: &Vec<u32>)
        ensures
            calibration@ == self@.sketch.calibration,
    {
        &self.calibration
    }

    /// The sum of the recovered levels of all registers, as a numerator over
    /// `UNIT`.
    pub fn register_sum(&self) -> (sum: i64)
        requires
            self.wf(),
        ensures
            sum == self@.sketch.sum(),
    {
        proof {
            lemma_count_fits(self.precision);
        }
        register_sum(&self.registers, &self.calibration)
    }
}

} // verus!
