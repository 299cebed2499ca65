//! The basic estimator: one quantised Gumbel register per hash prefix.

use crate::common::{
    lemma_count_fits, register_count, split_hash, valid_precision, GumbelError,
};
use crate::registers::Registers;
use crate::sketch::{
    calibration_table, lemma_add_monotonic, lemma_add_wf, locate, register_sum, seed_registers,
    spec_initial, Sketch, Slot,
};
use vstd::arithmetic::power2::pow2;
use vstd::prelude::*;

verus! {

/// A cardinality estimator using the Gumbel distribution.
pub struct GHLL {
    precision: u8,
    no_registers: usize,
    registers: Registers,
    calibration: Vec<u32>,
}

impl View for GHLL {
    type V = Sketch;

    closed spec fn view(&self) -> Sketch {
        Sketch {
            precision: self.precision,
            registers: self.registers@,
            calibration: self.calibration@,
        }
    }
}

impl GHLL {
    /// The estimator holds a well-formed sketch, and its fields agree with it.
    pub open spec fn wf(&self) -> bool {
        &&& self@.wf()
        &&& self.inv()
    }

    /// The register store is sound and as long as the estimator says.
    pub closed spec fn inv(&self) -> bool {
        &&& self.registers.wf()
        &&& self.no_registers == self.registers@.len()
    }

    /// Creates an estimator with `2^precision` registers.
    ///
    /// `index_hashes[i]` is the hash of the register index `i` under the hash
    /// seed of the estimator, from which the calibration constant of
    /// register `i` is made. `prior[i]` is the register code of a variate
    /// drawn for register `i`, with which the register starts. A register
    /// for which a table has no entry gets zero from that table, and entries
    /// for more than `2^precision` registers are not read.
    pub fn with_precision(precision: u8, index_hashes: &[u64], prior: &[u32]) -> (r: Result<
        GHLL,
        GumbelError,
    >)
        ensures
            r is Ok <==> valid_precision(precision),
            r matches Ok(estimator) ==> estimator.wf() && estimator@ == spec_initial(
                precision,
                index_hashes@,
                prior@,
            ),
    {
        let no_registers: usize = match register_count(precision) {
            Ok(n) => n,
            Err(e) => {
                return Err(e);
            },
        };
        proof {
            lemma_count_fits(precision);
        }
        let registers = seed_registers(no_registers, prior);
        let calibration = calibration_table(no_registers, index_hashes);
        Ok(GHLL { precision, no_registers, registers, calibration })
    }

    /// What the variate of an element with `hash` is made of: the residual of
    /// the hash, and the calibration constant of the register that the hash
    /// selects.
    pub fn locate(&self, hash: u64) -> (slot: Slot)
        requires
            self.wf(),
        ensures
            slot == self@.slot(hash),
            slot.index < self@.registers.len(),
    {
        proof {
            crate::common::lemma_index_bound(crate::common::low_word(hash), self.precision);
        }
        locate(self.precision, &self.calibration, hash)
    }

    /// Records an element with `hash` whose variate has the register code
    /// `code`: the register that the hash selects rises to the code where
    /// that is higher.
    pub fn add(&mut self, hash: u64, code: u32)
        requires
            old(self).wf(),
        ensures
            final(self).wf(),
            final(self)@ == old(self)@.add(hash, code),
            old(self)@.sum() <= final(self)@.sum(),
    {
        proof {
            lemma_add_wf(self@, hash, code);
            lemma_add_monotonic(self@, hash, code);
        }
        let (index, _) = split_hash(hash, self.precision);
        self.registers.set_greater(index, code);
    }

    /// The precision that the estimator was made with.
    pub fn precision(&self) -> (precision: u8)
        ensures
            precision == self@.precision,
    {
        self.precision
    }

    /// The number of registers.
    pub fn no_registers(&self) -> (n: usize)
        requires
            self.wf(),
        ensures
            n == self@.registers.len(),
            n == pow2(self@.precision as nat),
    {
        self.no_registers
    }

    /// The register store.
    pub fn registers(&self) -> (registers: &Registers)
        requires
            self.wf(),
        ensures
            registers.wf(),
            registers@ == self@.registers,
    {
        &self.registers
    }

    /// The calibration constants, one for each register, as numerators over
    /// `UNIT`.
    pub fn calibration(&self) -> (calibration: &Vec<u32>)
        ensures
            calibration@ == self@.calibration,
    {
        &self.calibration
    }

    /// The sum of the recovered levels of all registers, as a numerator over
    /// `UNIT`.
    pub fn register_sum(&self) -> (sum: i64)
        requires
            self.wf(),
        ensures
            sum == self@.sum(),
    {
        proof {
            lemma_count_fits(self.precision);
        }
        register_sum(&self.registers, &self.calibration)
    }
}

} // verus!
