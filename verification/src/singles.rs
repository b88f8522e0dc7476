//! Half pixels as single-precision numbers hold them.
//!
//! Screen coordinates are compared with the precision of an IEEE 754 single:
//! 24 significant bits, ties to even. Every coordinate here is a whole number
//! of half pixels, and so is every sum and difference after rounding, which
//! lets the comparison be carried out on integers.

use vstd::prelude::*;

verus! {

/// The first number that does not fit into 24 bits.
pub const SINGLE_LIMIT: u64 = 0x100_0000;

/// The distance between neighbouring singles at this magnitude.
pub open spec fn spacing(magnitude: nat) -> nat
    decreases magnitude,
{
    if magnitude < SINGLE_LIMIT {
        1
    } else {
        2 * spacing(magnitude / 2)
    }
}

/// The multiple of `unit` nearest to `magnitude`, the even multiple where two
/// are equally near.
pub open spec fn nearest_multiple(magnitude: nat, unit: nat) -> nat {
    let count = magnitude / unit;
    let rest = magnitude % unit;
    if 2 * rest < unit || (2 * rest == unit && count % 2 == 0) {
        count * unit
    } else {
        (count + 1) * unit
    }
}

/// The single nearest to a number of half pixels.
pub open spec fn single(value: int) -> int {
    if value < 0 {
        -(nearest_multiple((-value) as nat, spacing((-value) as nat)) as int)
    } else {
        nearest_multiple(value as nat, spacing(value as nat)) as int
    }
}

/// Whether a number of half pixels is a single, so that nothing is rounded.
pub open spec fn is_single(value: int) -> bool {
    single(value) == value
}

/// The whole pixel nearest to a number of half pixels, away from zero where
/// two are equally near, kept within `i32`.
pub open spec fn whole_pixel(value: int) -> i32 {
    let rounded = if value < 0 {
        -((1 - value) / 2)
    } else {
        (value + 1) / 2
    };
    if rounded < i32::MIN {
        i32::MIN
    } else if rounded > i32::MAX {
        i32::MAX
    } else {
        rounded as i32
    }
}

proof fn lemma_spacing(magnitude: nat)
    ensures
        spacing(magnitude) >= 1,
        spacing(magnitude) == 1 || spacing(magnitude) * 0x80_0000 <= magnitude,
    decreases magnitude,
{
    if magnitude >= SINGLE_LIMIT {
        lemma_spacing(magnitude / 2);
    }
}

/// A single is at most twice as large as what it stands for.
pub proof fn lemma_single_bound(value: int)
    ensures
        value >= 0 ==> 0 <= single(value) <= 2 * value,
        value <= 0 ==> 2 * value <= single(value) <= 0,
{
    let magnitude: nat = if value < 0 {
        (-value) as nat
    } else {
        value as nat
    };
    let unit = spacing(magnitude);
    lemma_spacing(magnitude);
    vstd::arithmetic::div_mod::lemma_fundamental_div_mod(magnitude as int, unit as int);
    vstd::arithmetic::div_mod::lemma_mod_bound(magnitude as int, unit as int);
    let count = magnitude / unit;
    let rest = magnitude % unit;
    assert(unit * count == count * unit) by (nonlinear_arith);
    assert((count + 1) * unit == count * unit + unit) by (nonlinear_arith);
    if unit == 1 {
        assert(rest == 0);
    }
}

/// Numbers of up to 24 bits are held exactly.
pub proof fn lemma_small_is_exact(value: int)
    requires
        -0x100_0000 < value < 0x100_0000,
    ensures
        single(value) == value,
{
    let magnitude: nat = if value < 0 {
        (-value) as nat
    } else {
        value as nat
    };
    assert(spacing(magnitude) == 1);
    assert(magnitude / 1 == magnitude);
    assert(magnitude % 1 == 0);
}

/// Rounding goes to the nearest number of 24 significant bits, and from half way
/// between two to the one whose last bit is zero.
pub proof fn lemma_single_is_nearest(value: int, unit: nat)
    requires
        unit >= 1,
        unit * 0x80_0000 <= value < unit * 0x100_0000,
        is_power(unit),
    ensures
        single(value) % (unit as int) == 0,
        -(unit as int) <= 2 * (single(value) - value) <= unit,
        unit > 1 && (2 * (single(value) - value) == unit || 2 * (single(value) - value) == -(
        unit as int)) ==> single(value) % (2 * unit as int) == 0,
        single(-value) == -single(value),
{
    lemma_spacing_is(value as nat, unit);
    let magnitude = value as nat;
    assert(spacing(magnitude) == unit);
    vstd::arithmetic::div_mod::lemma_fundamental_div_mod(value, unit as int);
    vstd::arithmetic::div_mod::lemma_mod_bound(value, unit as int);
    let count = magnitude / unit;
    let rest = magnitude % unit;
    assert(unit * count == count * unit) by (nonlinear_arith);
    assert((count + 1) * unit == count * unit + unit) by (nonlinear_arith);
    let chosen: nat = if 2 * rest < unit || (2 * rest == unit && count % 2 == 0) {
        count
    } else {
        count + 1
    };
    assert(single(value) == chosen * unit);
    vstd::arithmetic::div_mod::lemma_mod_multiples_basic(chosen as int, unit as int);
    if chosen % 2 == 0 {
        let half = chosen / 2;
        assert(chosen * unit == half * (2 * unit)) by (nonlinear_arith)
            requires
                chosen == 2 * half,
        ;
        vstd::arithmetic::div_mod::lemma_mod_multiples_basic(half as int, 2 * unit as int);
    }
    if 2 * rest == unit {
        assert(chosen % 2 == 0);
    }
}

/// Whether a number is a power of two.
pub open spec fn is_power(unit: nat) -> bool
    decreases unit,
{
    unit == 1 || (unit >= 2 && unit % 2 == 0 && is_power(unit / 2))
}

proof fn lemma_spacing_is(magnitude: nat, unit: nat)
    requires
        unit >= 1,
        unit * 0x80_0000 <= magnitude < unit * 0x100_0000,
        is_power(unit),
    ensures
        spacing(magnitude) == unit,
    decreases unit,
{
    if unit > 1 {
        let half = unit / 2;
        assert(unit == 2 * half);
        lemma_spacing_is(magnitude / 2, half);
    }
}

/// A number of half pixels becomes the whole pixel nearest to it; a half goes
/// away from zero.
pub proof fn lemma_whole_pixel(value: int)
    requires
        -0x1_0000_0000 <= value <= 0xFFFF_FFFE,
    ensures
        value % 2 == 0 ==> 2 * whole_pixel(value) == value,
        value % 2 != 0 && value > 0 ==> 2 * whole_pixel(value) == value + 1,
        value % 2 != 0 && value < 0 ==> 2 * whole_pixel(value) == value - 1,
{
}

fn spacing_of(magnitude: u64) -> (r: u64)
    ensures
        r == spacing(magnitude as nat),
        r >= 1,
        r == 1 || r * 0x80_0000 <= magnitude,
    decreases magnitude,
{
    proof {
        lemma_spacing(magnitude as nat);
    }
    if magnitude < SINGLE_LIMIT {
        1
    } else {
        let half = spacing_of(magnitude / 2);
        2 * half
    }
}

fn round_magnitude(magnitude: u64) -> (r: u64)
    requires
        magnitude <= 0x1000_0000_0000,
    ensures
        r == nearest_multiple(magnitude as nat, spacing(magnitude as nat)),
        r <= 2 * magnitude,
{
    let unit = spacing_of(magnitude);
    let count: u64 = magnitude / unit;
    let rest: u64 = magnitude % unit;
    proof {
        vstd::arithmetic::div_mod::lemma_fundamental_div_mod(magnitude as int, unit as int);
        lemma_single_bound(magnitude as int);
        assert(unit * count == count * unit) by (nonlinear_arith);
        assert((count + 1) * unit == count * unit + unit) by (nonlinear_arith);
    }
    if 2 * rest < unit || (2 * rest == unit && count % 2 == 0) {
        count * unit
    } else {
        (count + 1) * unit
    }
}

/// The single nearest to a number of half pixels.
pub fn to_single(value: i64) -> (r: i64)
    requires
        -0x1000_0000_0000 <= value <= 0x1000_0000_0000,
    ensures
        r == single(value as int),
        value >= 0 ==> 0 <= r <= 2 * value,
        value <= 0 ==> 2 * value <= r <= 0,
{
    if value < 0 {
        let magnitude: u64 = (-value) as u64;
        let rounded = round_magnitude(magnitude);
        -(rounded as i64)
    } else {
        round_magnitude(value as u64) as i64
    }
}

/// The whole pixel nearest to a number of half pixels.
pub fn to_whole_pixel(value: i64) -> (r: i32)
    requires
        -0x1000_0000_0000 <= value <= 0x1000_0000_0000,
    ensures
        r == whole_pixel(value as int),
{
    let rounded: i64 = if value < 0 {
        let up: u64 = (1 - value) as u64;
        -((up / 2) as i64)
    } else {
        ((value + 1) as u64 / 2) as i64
    };
    if rounded < i32::MIN as i64 {
        i32::MIN
    } else if rounded > i32::MAX as i64 {
        i32::MAX
    } else {
        rounded as i32
    }
}

} // verus!
