//! The length of a move and the time it takes.
//!
//! Positions are in nanometres. A feed rate is a length per minute, counted
//! in millionths of a micrometre; one sixtieth of it is the speed per
//! second. Times are in nanoseconds.

use vstd::prelude::*;

verus! {

/// Nanoseconds that one nanometre takes at a feed rate of one millionth of
/// a micrometre per minute: a thousand minutes.
pub const NANOS_PER_LENGTH: u128 = 60_000_000_000_000;

/// Whether `root` is the square root of `n`, rounded down.
pub open spec fn is_floor_sqrt(n: nat, root: nat) -> bool {
    root * root <= n < (root + 1) * (root + 1)
}

/// The square root of `n`, rounded down.
pub open spec fn floor_sqrt(n: nat) -> nat {
    choose|root: nat| is_floor_sqrt(n, root)
}

/// The length of the straight path that changes the position by `dx` and
/// `dy`, rounded down.
pub open spec fn path_length(dx: int, dy: int) -> nat {
    floor_sqrt((dx * dx + dy * dy) as nat)
}

/// The time in nanoseconds that a path of `length` takes at the feed rate
/// `feed`, rounded towards zero. A negative feed rate gives a negative
/// time. A path without length takes no time at any feed rate, zero
/// included; a path with a length has no time at the feed rate zero, and
/// this function then gives zero.
pub open spec fn travel_nanos(length: nat, feed: int) -> int {
    if feed > 0 {
        (length as int * NANOS_PER_LENGTH as int) / feed
    } else if feed < 0 {
        -((length as int * NANOS_PER_LENGTH as int) / (-feed))
    } else {
        0
    }
}

/// Whether a path of `length` can be travelled at the feed rate `feed`:
/// not where the path has a length and the feed rate is zero.
pub open spec fn can_travel(length: nat, feed: int) -> bool {
    feed != 0 || length == 0
}

/// A number has one square root rounded down.
pub proof fn lemma_floor_sqrt_unique(n: nat, root: nat)
    requires
        is_floor_sqrt(n, root),
    ensures
        floor_sqrt(n) == root,
{
    let other = floor_sqrt(n);
    assert(is_floor_sqrt(n, other));
    if other < root {
        assert((other + 1) * (other + 1) <= root * root) by (nonlinear_arith)
            requires
                other + 1 <= root,
        ;
    }
    if root < other {
        assert((root + 1) * (root + 1) <= other * other) by (nonlinear_arith)
            requires
                root + 1 <= other,
        ;
    }
}

/// A path that changes nothing has no length.
pub proof fn lemma_path_length_zero()
    ensures
        path_length(0, 0) == 0,
{
    assert(is_floor_sqrt(0, 0)) by (nonlinear_arith);
    lemma_floor_sqrt_unique(0, 0);
}

/// The square root of `n`, rounded down.
pub fn integer_sqrt(n: u128) -> (root: u64)
    ensures
        root == floor_sqrt(n as nat),
        is_floor_sqrt(n as nat, root as nat),
{
    let mut low: u128 = 0;
    let mut high: u128 = 0x1_0000_0000_0000_0000;
    assert(n < high * high) by (nonlinear_arith)
        requires
            high == 0x1_0000_0000_0000_0000,
            n <= u128::MAX,
    ;
    while high - low > 1
        invariant
            low < high <= 0x1_0000_0000_0000_0000,
            low * low <= n < high * high,
        decreases high - low,
    {
        let middle: u128 = low + (high - low) / 2;
        assert(middle * middle <= 0xffff_ffff_ffff_ffff * 0xffff_ffff_ffff_ffff)
            by (nonlinear_arith)
            requires
                0 <= middle <= 0xffff_ffff_ffff_ffff,
        ;
        let square: u128 = middle * middle;
        if square <= n {
            low = middle;
        } else {
            high = middle;
        }
    }
    proof {
        lemma_floor_sqrt_unique(n as nat, low as nat);
    }
    low as u64
}

/// The length of the straight path that changes the position by `dx` and
/// `dy`, rounded down.
pub fn path_length_of(dx: i64, dy: i64) -> (length: u64)
    ensures
        length == path_length(dx as int, dy as int),
{
    let wide_x: i128 = dx as i128;
    let wide_y: i128 = dy as i128;
    assert(0 <= wide_x * wide_x <= 0x4000_0000_0000_0000_0000_0000_0000_0000) by (nonlinear_arith)
        requires
            -0x8000_0000_0000_0000 <= wide_x <= 0x8000_0000_0000_0000,
    ;
    assert(0 <= wide_y * wide_y <= 0x4000_0000_0000_0000_0000_0000_0000_0000) by (nonlinear_arith)
        requires
            -0x8000_0000_0000_0000 <= wide_y <= 0x8000_0000_0000_0000,
    ;
    let square_x: u128 = (wide_x * wide_x) as u128;
    let square_y: u128 = (wide_y * wide_y) as u128;
    integer_sqrt(square_x + square_y)
}

/// The time in nanoseconds that a path of `length` takes at the feed rate
/// `feed`, rounded towards zero, or `None` where the path has a length and
/// the feed rate is zero.
pub fn travel_time(length: u64, feed: i64) -> (nanos: Option<i128>)
    ensures
        match nanos {
            Some(time) => can_travel(length as nat, feed as int) && time == travel_nanos(
                length as nat,
                feed as int,
            ),
            None => !can_travel(length as nat, feed as int),
        },
{
    let scaled: u128 = (length as u128) * NANOS_PER_LENGTH;
    if feed > 0 {
        let quotient: u128 = scaled / (feed as u128);
        Some(quotient as i128)
    } else if feed < 0 {
        let speed: u128 = (-(feed as i128)) as u128;
        let quotient: u128 = scaled / speed;
        Some(-(quotient as i128))
    } else if length == 0 {
        Some(0)
    } else {
        None
    }
}

} // verus!
