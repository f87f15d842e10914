//! The order of single-precision numbers, read off their bit patterns.
//!
//! Samples, levels and frequencies are carried as the 32 bits of an IEEE 754
//! single-precision number. Arithmetic on them is left to the caller; what the
//! analyzer itself needs is their order, and that is an order of integers.

use vstd::prelude::*;

verus! {

/// The sign bit.
pub const SIGN: u32 = 0x8000_0000;

/// Positive infinity. A magnitude above it is not a number.
pub const INFINITY: u32 = 0x7F80_0000;

/// Zero.
pub const ZERO: u32 = 0;

/// The distance from zero, as an integer that grows with it.
pub open spec fn magnitude(x: u32) -> int {
    if x >= SIGN {
        x - SIGN
    } else {
        x as int
    }
}

pub open spec fn is_nan(x: u32) -> bool {
    magnitude(x) > INFINITY
}

/// Where a number stands among the others. Both zeros stand at 0.
pub open spec fn rank(x: u32) -> int {
    if x >= SIGN {
        -magnitude(x)
    } else {
        magnitude(x)
    }
}

/// `x < y` of the numbers. Nothing is below or above what is not a number.
pub open spec fn below(x: u32, y: u32) -> bool {
    !is_nan(x) && !is_nan(y) && rank(x) < rank(y)
}

/// `x <= y` of the numbers.
pub open spec fn at_most(x: u32, y: u32) -> bool {
    !is_nan(x) && !is_nan(y) && rank(x) <= rank(y)
}

/// Is `x` not a number?
pub fn not_a_number(x: u32) -> (r: bool)
    ensures
        r == is_nan(x),
{
    if x >= SIGN {
        x - SIGN > INFINITY
    } else {
        x > INFINITY
    }
}

fn signed_rank(x: u32) -> (r: i64)
    ensures
        r == rank(x),
{
    if x >= SIGN {
        -((x - SIGN) as i64)
    } else {
        x as i64
    }
}

/// Is `x` less than `y`?
pub fn is_below(x: u32, y: u32) -> (r: bool)
    ensures
        r == below(x, y),
{
    !not_a_number(x) && !not_a_number(y) && signed_rank(x) < signed_rank(y)
}

/// Is `x` less than or equal to `y`?
pub fn is_at_most(x: u32, y: u32) -> (r: bool)
    ensures
        r == at_most(x, y),
{
    !not_a_number(x) && !not_a_number(y) && signed_rank(x) <= signed_rank(y)
}

/// `x` held between `low` and `high`; what is not a number stays as it is.
pub open spec fn clamped(x: u32, low: u32, high: u32) -> u32 {
    if below(x, low) {
        low
    } else if below(high, x) {
        high
    } else {
        x
    }
}

/// Holds `x` between `low` and `high`.
pub fn clamp(x: u32, low: u32, high: u32) -> (r: u32)
    requires
        at_most(low, high),
    ensures
        r == clamped(x, low, high),
{
    if is_below(x, low) {
        low
    } else if is_below(high, x) {
        high
    } else {
        x
    }
}

/// The largest of `start` and the numbers in `xs`; what is not a number is passed over.
pub open spec fn greatest(start: u32, xs: Seq<u32>) -> u32
    decreases xs.len(),
{
    if xs.len() == 0 {
        start
    } else {
        let rest = greatest(start, xs.drop_last());
        if below(rest, xs.last()) {
            xs.last()
        } else {
            rest
        }
    }
}

/// A clamped number lies between the bounds.
pub proof fn clamped_is_bounded(x: u32, low: u32, high: u32)
    requires
        !is_nan(x),
        at_most(low, high),
    ensures
        at_most(low, clamped(x, low, high)),
        at_most(clamped(x, low, high), high),
{
}

/// A number between the bounds is left alone by clamping.
pub proof fn clamped_keeps_inner(x: u32, low: u32, high: u32)
    requires
        at_most(low, x),
        at_most(x, high),
    ensures
        clamped(x, low, high) == x,
{
}

/// The greatest is no less than any of the numbers, and is `start` or one of them.
pub proof fn greatest_is_an_upper_bound(start: u32, xs: Seq<u32>)
    requires
        !is_nan(start),
    ensures
        !is_nan(greatest(start, xs)),
        at_most(start, greatest(start, xs)),
        forall|i: int|
            0 <= i < xs.len() && !is_nan(#[trigger] xs[i]) ==> at_most(xs[i], greatest(start, xs)),
        greatest(start, xs) == start || xs.contains(greatest(start, xs)),
    decreases xs.len(),
{
    if xs.len() > 0 {
        let rest = xs.drop_last();
        greatest_is_an_upper_bound(start, rest);
        assert forall|i: int| 0 <= i < xs.len() && !is_nan(#[trigger] xs[i]) implies at_most(
            xs[i],
            greatest(start, xs),
        ) by {
            if i < xs.len() - 1 {
                assert(rest[i] == xs[i]);
            }
        }
        if greatest(start, xs) != start {
            if below(greatest(start, rest), xs.last()) {
                assert(xs[xs.len() - 1] == greatest(start, xs));
            } else {
                let i = choose|i: int| 0 <= i < rest.len() && rest[i] == greatest(start, rest);
                assert(xs[i] == greatest(start, xs));
            }
        }
    }
}

/// Numbers of like sign are ordered as their bits are, or the other way round where they are
/// negative; negative ones come first; both zeros are one number; and what is not a number
/// stands in no order.
pub proof fn order_goes_by_sign_and_size(x: u32, y: u32)
    ensures
        x < 0x8000_0000 && y < 0x8000_0000 && x <= 0x7F80_0000 && y <= 0x7F80_0000 ==> (below(x, y)
            <==> x < y),
        0x8000_0000 <= x <= 0xFF80_0000 && 0x8000_0000 <= y <= 0xFF80_0000 ==> (below(x, y) <==> x
            > y),
        0x8000_0000 < x <= 0xFF80_0000 && y <= 0x7F80_0000 ==> below(x, y) && !below(y, x),
        x == 0x8000_0000 && y == 0 ==> at_most(x, y) && at_most(y, x) && !below(x, y) && !below(
            y,
            x,
        ),
        0x7F80_0000 < x < 0x8000_0000 || x > 0xFF80_0000 ==> is_nan(x) && !below(x, y) && !below(
            y,
            x,
        ) && !at_most(x, y) && !at_most(y, x),
        x <= 0x7F80_0000 || 0x8000_0000 <= x <= 0xFF80_0000 ==> !is_nan(x),
        at_most(x, y) <==> !is_nan(x) && !is_nan(y) && !below(y, x),
{
}

/// Clamping gives the nearer bound for what is outside, and leaves alone what is inside and
/// what is not a number.
pub proof fn clamping_cuts_off(x: u32, low: u32, high: u32)
    requires
        at_most(low, high),
    ensures
        below(x, low) ==> clamped(x, low, high) == low,
        below(high, x) ==> clamped(x, low, high) == high,
        at_most(low, x) && at_most(x, high) ==> clamped(x, low, high) == x,
        is_nan(x) ==> clamped(x, low, high) == x,
{
}

} // verus!
