//! Scores that the library orders but does no arithmetic on.
//!
//! A [`Weight`] is a number held as its IEEE 754 bit pattern of 64 bits. Comparing
//! such patterns needs no arithmetic. What arithmetic there is, the caller supplies
//! as a function from a [`WeightOp`] to its result.

use crate::clock::{elapsed, Duration, Instant};
use vstd::prelude::*;

verus! {

/// A number, held as its bit pattern.
#[derive(Debug, Clone, Copy, PartialEq, Eq, Hash, Structural)]
pub struct Weight {
    pub bits: u64,
}

impl View for Weight {
    type V = Weight;

    open spec fn view(&self) -> Weight {
        *self
    }
}

/// The bits of infinity. Those of the finite numbers that are not negative lie below.
pub const INFINITY_BITS: u64 = 0x7FF0_0000_0000_0000;

/// The bits of negative zero. Those of all numbers with a sign lie from there on.
pub const SIGN_BITS: u64 = 0x8000_0000_0000_0000;

/// The bits of negative infinity, the last that stand for a number.
pub const NEGATIVE_INFINITY_BITS: u64 = 0xFFF0_0000_0000_0000;

/// The bits stand for no number.
pub open spec fn is_nan(weight: Weight) -> bool {
    INFINITY_BITS < weight.bits < SIGN_BITS || weight.bits > NEGATIVE_INFINITY_BITS
}

/// A finite number that is not negative.
pub open spec fn is_finite(weight: Weight) -> bool {
    weight.bits < INFINITY_BITS
}

/// A finite number above zero.
pub open spec fn is_positive(weight: Weight) -> bool {
    0 < weight.bits < INFINITY_BITS
}

/// A number that is not above zero.
pub open spec fn is_at_most_zero(weight: Weight) -> bool {
    weight.bits == 0 || SIGN_BITS <= weight.bits <= NEGATIVE_INFINITY_BITS
}

/// Numbers are ordered as these places are; the two zeros share one.
pub open spec fn place(weight: Weight) -> int {
    if weight.bits < SIGN_BITS {
        weight.bits as int
    } else {
        SIGN_BITS - weight.bits
    }
}

/// Both are numbers, and `a` is not below `b`.
pub open spec fn reaches(a: Weight, b: Weight) -> bool {
    !is_nan(a) && !is_nan(b) && place(a) >= place(b)
}

/// Both are numbers, and `a` is below `b`.
pub open spec fn falls_short(a: Weight, b: Weight) -> bool {
    !is_nan(a) && !is_nan(b) && place(a) < place(b)
}

/// The rank of a bit pattern in the total order of all patterns: first those with a
/// sign, then those without, and negative zero before zero.
pub open spec fn rank(weight: Weight) -> int {
    if weight.bits < SIGN_BITS {
        weight.bits as int
    } else {
        SIGN_BITS - weight.bits - 1
    }
}

/// Ranks extend the order of the numbers to one of all bit patterns, no two of which
/// share a rank.
pub proof fn law_ranks_extend_the_order(a: Weight, b: Weight)
    ensures
        falls_short(a, b) ==> rank(a) < rank(b),
        rank(a) == rank(b) ==> a == b,
{
}

fn stands_for_no_number(weight: Weight) -> (nan: bool)
    ensures
        nan == is_nan(weight),
{
    (INFINITY_BITS < weight.bits && weight.bits < SIGN_BITS) || weight.bits
        > NEGATIVE_INFINITY_BITS
}

fn place_before(a: Weight, b: Weight) -> (before: bool)
    ensures
        before == (place(a) < place(b)),
{
    if a.bits < SIGN_BITS {
        b.bits < SIGN_BITS && a.bits < b.bits
    } else if b.bits < SIGN_BITS {
        a.bits > SIGN_BITS || b.bits > 0
    } else {
        b.bits < a.bits
    }
}

/// Whether both are numbers and `a` is not below `b`.
pub fn has_reached(a: Weight, b: Weight) -> (r: bool)
    ensures
        r == reaches(a, b),
{
    !stands_for_no_number(a) && !stands_for_no_number(b) && !place_before(a, b)
}

/// Whether both are numbers and `a` is below `b`.
pub fn is_short_of(a: Weight, b: Weight) -> (r: bool)
    ensures
        r == falls_short(a, b),
{
    !stands_for_no_number(a) && !stands_for_no_number(b) && place_before(a, b)
}

/// Whether `a` comes before `b` in the total order of all bit patterns.
pub fn ranks_below(a: Weight, b: Weight) -> (r: bool)
    ensures
        r == (rank(a) < rank(b)),
{
    if a.bits < SIGN_BITS {
        b.bits < SIGN_BITS && a.bits < b.bits
    } else {
        b.bits < SIGN_BITS || b.bits < a.bits
    }
}

/// An operation on weights.
#[derive(Debug, Clone, Copy, PartialEq, Eq, Structural)]
pub enum WeightOp {
    /// `value * 2^(-age / half_life)`.
    Decay { value: Weight, age: Duration, half_life: Duration },
    /// `value + 1`.
    Increment { value: Weight },
    /// `part / whole`.
    Ratio { part: Weight, whole: Weight },
    /// `(queued + missing) / rate`.
    CopyTime { queued: u32, missing: usize, rate: Weight },
}

/// The weight zero.
pub open spec fn zero_weight() -> Weight {
    Weight { bits: 0 }
}

/// `weigh` accepts every operation and always gives the same result for it.
pub open spec fn is_arithmetic<F: Fn(WeightOp) -> Weight>(weigh: F) -> bool {
    &&& forall|op: WeightOp| #[trigger] call_requires(weigh, (op,))
    &&& forall|op: WeightOp, a: Weight, b: Weight|
        #![trigger call_ensures(weigh, (op,), a), call_ensures(weigh, (op,), b)]
        call_ensures(weigh, (op,), a) && call_ensures(weigh, (op,), b) ==> a == b
}

/// The result that `weigh` gives for each operation.
pub open spec fn arithmetic_of<F: Fn(WeightOp) -> Weight>(weigh: F) -> spec_fn(
    WeightOp,
) -> Weight {
    |op: WeightOp| choose|w: Weight| call_ensures(weigh, (op,), w)
}

/// A weight last updated at `last_seen`, as it counts at `now`. What is not above zero
/// counts as zero.
pub open spec fn decayed(
    w: spec_fn(WeightOp) -> Weight,
    value: Weight,
    last_seen: Instant,
    now: Instant,
    half_life: Duration,
) -> Weight {
    if is_at_most_zero(value) {
        zero_weight()
    } else {
        w(
            WeightOp::Decay {
                value,
                age: Duration { nanos: elapsed(now, last_seen) as u128 },
                half_life,
            },
        )
    }
}

pub fn evaluate<F: Fn(WeightOp) -> Weight>(weigh: &F, op: WeightOp) -> (result: Weight)
    requires
        is_arithmetic(*weigh),
    ensures
        result == arithmetic_of(*weigh)(op),
{
    weigh(op)
}

pub fn decay<F: Fn(WeightOp) -> Weight>(
    weigh: &F,
    value: Weight,
    last_seen: Instant,
    now: Instant,
    half_life: Duration,
) -> (result: Weight)
    requires
        is_arithmetic(*weigh),
    ensures
        result == decayed(arithmetic_of(*weigh), value, last_seen, now, half_life),
{
    if value.bits == 0 || (SIGN_BITS <= value.bits && value.bits <= NEGATIVE_INFINITY_BITS) {
        return Weight { bits: 0 };
    }
    let age = now.duration_since(last_seen);
    evaluate(weigh, WeightOp::Decay { value, age, half_life })
}

} // verus!
