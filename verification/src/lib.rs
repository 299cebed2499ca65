//! Streaming cardinality estimation with Gumbel-distributed registers.
//!
//! The crate holds the integer core of the sketch: the packed register
//! store, the splitting of a hash into a register index and a residual, the
//! quantisation of a variate into a register code, and the estimators that
//! keep one register per hash prefix.

pub mod bitmap;
pub mod common;
pub mod gen_gumbel;
pub mod ghll;
pub mod ghll_plus;
pub mod ghlls;
pub mod registers;
pub mod sketch;

pub use common::{hash_value, register_count, split_hash, GumbelError, MAX_PRECISION, MIN_PRECISION};
pub use ghll::GHLL;
pub use ghll_plus::GHLLPlus;
pub use ghlls::GHLLS;
pub use registers::{ceil, Registers, RegistersIterator};
pub use sketch::{Sketch, Slot};
