//! Fitness and error values are `f32` numbers computed by the model that the
//! caller fits. The library never does arithmetic on them: it only orders them.
//! It therefore carries each one as the `i32` key of its bit pattern, whose
//! integer order is the IEEE 754 total order of the floats: negative NaNs,
//! negative infinity, the negative numbers, `-0.0`, `+0.0`, the positive
//! numbers, positive infinity, positive NaNs.
use vstd::prelude::*;

verus! {

/// Key of positive infinity (bits `0x7f80_0000`).
pub const POS_INF_KEY: i32 = 0x7f80_0000;

/// Key of negative infinity: `-1 - POS_INF_KEY`.
pub const NEG_INF_KEY: i32 = -0x7f80_0001;

/// Key of `-f32::MAX`, the worst finite value: a genome whose model could not
/// be scored gets this fitness.
pub const FAILURE_FITNESS: i32 = -0x7f80_0000;

/// The key of the `f32` whose bit pattern is `bits`.
pub open spec fn key_spec(bits: u32) -> int {
    if bits < 0x8000_0000 {
        bits as int
    } else {
        0x7fff_ffff - bits
    }
}

/// The bit pattern of the `f32` whose key is `key`.
pub open spec fn bits_spec(key: i32) -> int {
    if key >= 0 {
        key as int
    } else {
        0x7fff_ffff - key
    }
}

/// The key names a finite number.
pub open spec fn is_finite_key(key: int) -> bool {
    NEG_INF_KEY < key < POS_INF_KEY
}

/// The key of `-x`, where `key` is the key of `x`: flipping the sign bit.
pub open spec fn neg_key(key: int) -> int {
    -1 - key
}

/// Order key of an `f32` given by its bits (`f32::to_bits`).
pub fn order_key(bits: u32) -> (key: i32)
    ensures
        key as int == key_spec(bits),
{
    if bits < 0x8000_0000 {
        bits as i32
    } else {
        (0x7fff_ffff_i64 - bits as i64) as i32
    }
}

/// Bits of the `f32` (for `f32::from_bits`) whose order key is `key`.
pub fn key_bits(key: i32) -> (bits: u32)
    ensures
        bits as int == bits_spec(key),
        key_spec(bits) == key as int,
{
    if key >= 0 {
        key as u32
    } else {
        (0x7fff_ffff_i64 - key as i64) as u32
    }
}

/// The key of a float, taken back to bits, gives the float's bits again.
pub proof fn lemma_bits_round_trip(bits: u32)
    ensures
        bits_spec(key_spec(bits) as i32) == bits as int,
{
}

/// Flipping the sign bit of a float maps its key `k` to `-1 - k`.
pub proof fn lemma_negation(bits: u32)
    ensures
        key_spec(bits ^ 0x8000_0000u32) == neg_key(key_spec(bits)),
{
    assert(bits < 0x8000_0000 ==> bits ^ 0x8000_0000u32 == bits + 0x8000_0000u32) by (bit_vector);
    assert(bits >= 0x8000_0000 ==> bits ^ 0x8000_0000u32 == bits - 0x8000_0000u32) by (bit_vector);
}

/// Key of the negation of the value whose key is `key`.
pub fn negate(key: i32) -> (r: i32)
    ensures
        r as int == neg_key(key as int),
{
    -1 - key
}

/// What the caller's model scoring gave for one genome.
#[derive(Clone, Copy, Debug, PartialEq, Eq, Structural)]
pub enum Scoring {
    /// The genome selects no column: there was nothing to fit.
    NoColumns,
    /// Fitting or prediction failed.
    Failed,
    /// The model was fitted; `mse_key` is the key of its mean squared error.
    Scored { mse_key: i32 },
}

/// The fitness that a scoring outcome gives: `0.0` for an empty selection,
/// `-mse` for a finite, non-negative error, and [`FAILURE_FITNESS`] for a
/// failure or an error that is NaN, infinite or negative.
pub open spec fn fitness_spec(s: Scoring) -> int {
    match s {
        Scoring::NoColumns => 0,
        Scoring::Failed => FAILURE_FITNESS as int,
        Scoring::Scored { mse_key } => if -1 <= mse_key < POS_INF_KEY {
            neg_key(mse_key as int)
        } else {
            FAILURE_FITNESS as int
        },
    }
}

/// Fitness key of one scoring outcome. Whatever the outcome, the fitness is
/// finite and not above zero.
pub fn fitness_of(s: Scoring) -> (f: i32)
    ensures
        f as int == fitness_spec(s),
        is_finite_key(f as int),
        f <= 0,
        s == Scoring::NoColumns ==> f == 0,
{
    match s {
        Scoring::NoColumns => 0,
        Scoring::Failed => FAILURE_FITNESS,
        Scoring::Scored { mse_key } => {
            if -1 <= mse_key && mse_key < POS_INF_KEY {
                negate(mse_key)
            } else {
                FAILURE_FITNESS
            }
        },
    }
}

} // verus!
