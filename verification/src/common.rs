//! What the estimators share: the accepted precisions, the error of
//! construction, and the splitting of a hash into a register index and a
//! residual.

use std::hash::{BuildHasher, Hash};
use vstd::arithmetic::power2::{lemma2_to64, pow2};
use vstd::prelude::*;

verus! {

/// The minimal accepted precision.
pub const MIN_PRECISION: u8 = 4;

/// The maximal accepted precision.
pub const MAX_PRECISION: u8 = 16;

/// Why an estimator could not be built.
#[derive(Debug)]
pub enum GumbelError {
    /// The precision lies outside `MIN_PRECISION..=MAX_PRECISION`.
    InvalidPrecision,
}

/// Whether an estimator can be built with `precision`.
pub open spec fn valid_precision(precision: u8) -> bool {
    MIN_PRECISION <= precision <= MAX_PRECISION
}

/// The register that a 32-bit hash selects: its top `precision` bits.
pub open spec fn spec_index(hash: u32, precision: u8) -> u32 {
    hash >> ((32 - precision) as u32)
}

/// What is left of a 32-bit hash once the index bits are shifted out: the low
/// `32 - precision` bits, left-justified.
pub open spec fn spec_residual(hash: u32, precision: u8) -> u32 {
    hash << (precision as u32)
}

/// The low 32 bits of a 64-bit hash, which are all that the estimators use.
pub open spec fn low_word(hash: u64) -> u32 {
    (hash % 0x1_0000_0000) as u32
}

proof fn lemma_truncate(hash: u64)
    by (bit_vector)
    ensures
        hash as u32 == (hash % 0x1_0000_0000u64) as u32,
{
}

/// Cutting a 64-bit hash down to 32 bits leaves its low word.
pub proof fn lemma_low_word(hash: u64)
    ensures
        hash as u32 == low_word(hash),
{
    lemma_truncate(hash);
}

proof fn lemma_index_fits(hash: u32, shift: u32, precision: u32)
    by (bit_vector)
    requires
        0 < precision < 32,
        shift == 32 - precision,
    ensures
        ((hash >> shift) as u64) < (1u64 << (precision as u64)),
{
}

proof fn lemma_one_shl(precision: u64)
    requires
        precision < 32,
    ensures
        (1u64 << precision) == pow2(precision as nat),
{
    vstd::bits::lemma_u64_pow2_no_overflow(precision as nat);
    vstd::bits::lemma_u64_shl_is_mul(1u64, precision);
}

/// The index and the residual together hold every bit of the hash: putting
/// the index back above the residual gives the hash again.
pub proof fn lemma_split_is_lossless(hash: u32, precision: u8)
    requires
        0 < precision < 32,
    ensures
        (spec_index(hash, precision) << ((32 - precision) as u32)) | (spec_residual(
            hash,
            precision,
        ) >> (precision as u32)) == hash,
{
    let p: u32 = precision as u32;
    let s: u32 = (32 - precision) as u32;
    assert(((hash >> s) << s) | ((hash << p) >> p) == hash) by (bit_vector)
        requires
            0 < p < 32,
            s == 32 - p,
    ;
}

/// The index that `precision` bits select lies below `2^precision`.
pub proof fn lemma_index_bound(hash: u32, precision: u8)
    requires
        0 < precision < 32,
    ensures
        spec_index(hash, precision) < pow2(precision as nat),
{
    lemma_index_fits(hash, (32 - precision) as u32, precision as u32);
    lemma_one_shl(precision as u64);
}

/// An accepted precision gives between `2^4` and `2^16` registers.
pub proof fn lemma_count_fits(precision: u8)
    requires
        valid_precision(precision),
    ensures
        16 <= pow2(precision as nat) <= 0x1_0000,
{
    lemma2_to64();
    if precision > 4 {
        vstd::arithmetic::power2::lemma_pow2_strictly_increases(4, precision as nat);
    }
    if precision < 16 {
        vstd::arithmetic::power2::lemma_pow2_strictly_increases(precision as nat, 16);
    }
}

/// The number of registers of an estimator with `precision`: `2^precision`,
/// where the precision is accepted.
pub fn register_count(precision: u8) -> (r: Result<usize, GumbelError>)
    ensures
        r is Ok <==> valid_precision(precision),
        r matches Ok(n) ==> n == pow2(precision as nat),
{
    if precision < MIN_PRECISION || precision > MAX_PRECISION {
        return Err(GumbelError::InvalidPrecision);
    }
    let n: usize = 1usize << precision;
    proof {
        vstd::bits::lemma_usize_pow2_no_overflow(precision as nat);
        vstd::bits::lemma_usize_shl_is_mul(1usize, precision as usize);
    }
    Ok(n)
}

/// Splits the low 32 bits of `hash`: the top `precision` bits choose a
/// register, the rest is the residual.
pub fn split_hash(hash: u64, precision: u8) -> (r: (usize, u32))
    requires
        0 < precision < 32,
    ensures
        r.0 == spec_index(low_word(hash), precision),
        r.1 == spec_residual(low_word(hash), precision),
        r.0 < pow2(precision as nat),
{
    let word: u32 = #[verifier::truncate] (hash as u32);
    let index: usize = (word >> (32 - precision)) as usize;
    let residual: u32 = word << precision;
    proof {
        lemma_truncate(hash);
        lemma_index_bound(word, precision);
    }
    (index, residual)
}

/// `BuildHasher::hash_one` of std: the hash of `value` under `builder`.
/// Nothing is claimed of the result, which is up to the two impls.
#[verifier::external_body]
fn hash_one<H, B>(builder: &B, value: &H) -> (hash: u64) where H: Hash + ?Sized, B: BuildHasher {
    builder.hash_one(value)
}

/// Hashes `value` with `builder` and splits the hash as `split_hash` does.
pub fn hash_value<H, B>(value: &H, builder: &B, precision: u8) -> (r: (usize, u32)) where
    H: Hash + ?Sized,
    B: BuildHasher,

    requires
        0 < precision < 32,
    ensures
        exists|hash: u64|
            r.0 == spec_index(low_word(hash), precision) && r.1 == #[trigger] spec_residual(
                low_word(hash),
                precision,
            ),
        r.0 < pow2(precision as nat),
{
    let hash: u64 = hash_one(builder, value);
    split_hash(hash, precision)
}

} // verus!
