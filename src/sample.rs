//! Distribution selectors and the fixed-point arithmetic that turns a drawn
//! fraction into an edge count or a property length.
//!
//! A fraction is held as an unsigned fixed-point number with 32 fractional
//! bits: the value `v` stands for `v / FRACTION_ONE`.
use vstd::prelude::*;
use vstd::arithmetic::div_mod::lemma_div_is_ordered;

verus! {

/// Fixed-point unit: the fraction 1.0.
pub const FRACTION_ONE: u64 = 4294967296;

/// Edge counts are a fraction of this many edges.
pub const EDGE_SCALE: u64 = 10000;

/// Divisor applied to a sampled property length before that many raw bytes
/// are drawn and percent-encoded.  It is a tuning constant; whether it
/// is meant to offset the growth of the encoding is not established.
pub const PROPERTY_SCALE_DIVISOR: usize = 3;

/// The distribution a fraction is drawn from.
#[derive(Clone, Copy, Debug, PartialEq, Eq, Structural)]
pub enum Dist {
    /// No value: the fraction is always 0 and rows carry no property.
    Disabled,
    /// Uniform on `[0, 1)`.
    Uniform,
    /// Normal with mean 0.5 and standard deviation 0.5, clamped to `[0, 1]`.
    Normal,
    /// Exponential with rate 0.5.
    Exp,
}

/// Whether rows drawn with this distribution carry a property.
pub open spec fn has_property_spec(d: Dist) -> bool {
    d != Dist::Disabled
}

/// Whether rows drawn with this distribution carry a property.
pub fn has_property(d: Dist) -> (r: bool)
    ensures
        r == has_property_spec(d),
{
    !matches!(d, Dist::Disabled)
}

/// `x` confined to `[lo, hi]`.
pub open spec fn clamp(x: int, lo: int, hi: int) -> int {
    if x < lo {
        lo
    } else if x > hi {
        hi
    } else {
        x
    }
}

/// The fraction used for a raw fixed-point draw `raw` of distribution `d`:
/// zero for `Disabled`, confined to `[0, 1)` for `Uniform`, clamped to `[0, 1]`
/// for `Normal`, and non-negative for `Exp`.
pub open spec fn fraction_spec(d: Dist, raw: int) -> nat {
    match d {
        Dist::Disabled => 0,
        Dist::Uniform => clamp(raw, 0, FRACTION_ONE - 1) as nat,
        Dist::Normal => clamp(raw, 0, FRACTION_ONE as int) as nat,
        Dist::Exp => clamp(raw, 0, raw) as nat,
    }
}

/// Turns a raw fixed-point draw of `d` into the fraction it stands for.
pub fn fraction(d: Dist, raw: i64) -> (r: u64)
    ensures
        r == fraction_spec(d, raw as int),
{
    match d {
        Dist::Disabled => 0,
        Dist::Uniform => {
            if raw < 0 {
                0
            } else if raw >= FRACTION_ONE as i64 {
                FRACTION_ONE - 1
            } else {
                raw as u64
            }
        },
        Dist::Normal => {
            if raw < 0 {
                0
            } else if raw > FRACTION_ONE as i64 {
                FRACTION_ONE
            } else {
                raw as u64
            }
        },
        Dist::Exp => {
            if raw < 0 {
                0
            } else {
                raw as u64
            }
        },
    }
}

/// `x`, or `usize::MAX` where `x` does not fit.
pub open spec fn saturate(x: int) -> nat {
    clamp(x, 0, usize::MAX as int) as nat
}

/// Out-degree derived from fraction `f`: `floor(f * 10000)`, or
/// `floor(f^2 * 10000)` for `Exp`, and always 0 for `None`.
pub open spec fn edge_count_spec(d: Dist, f: nat) -> nat {
    match d {
        Dist::Disabled => 0,
        Dist::Exp => saturate((f * f * EDGE_SCALE) as int / (FRACTION_ONE * FRACTION_ONE) as int),
        _ => saturate((f * EDGE_SCALE) as int / FRACTION_ONE as int),
    }
}

/// Out-degree for a node whose edge fraction under `d` is `f`.
pub fn edge_count(d: Dist, f: u64) -> (r: usize)
    ensures
        r == edge_count_spec(d, f as nat),
{
    match d {
        Dist::Disabled => 0,
        Dist::Exp => {
            assert((f as u128) * (f as u128) <= u128::MAX) by (nonlinear_arith)
                requires
                    f <= u64::MAX,
            ;
            let sq: u128 = (f as u128) * (f as u128);
            let denom: u128 = 18446744073709551616;
            assert(denom == FRACTION_ONE * FRACTION_ONE);
            match sq.checked_mul(EDGE_SCALE as u128) {
                Some(scaled) => {
                    let q = scaled / denom;
                    if q > usize::MAX as u128 {
                        usize::MAX
                    } else {
                        q as usize
                    }
                },
                None => {
                    proof {
                        let big = sq * EDGE_SCALE;
                        assert(big > u128::MAX);
                        lemma_div_is_ordered(u128::MAX + 1, big as int, denom as int);
                        assert((u128::MAX + 1) / (denom as int) == denom) ;
                    }
                    usize::MAX
                },
            }
        },
        _ => {
            assert((f as u128) * (EDGE_SCALE as u128) <= u128::MAX) by (nonlinear_arith)
                requires
                    f <= u64::MAX,
            ;
            let q: u128 = (f as u128) * (EDGE_SCALE as u128) / (FRACTION_ONE as u128);
            if q > usize::MAX as u128 {
                usize::MAX
            } else {
                q as usize
            }
        },
    }
}

/// Property length for fraction `f`: `min + floor(f * (max - min))`.
pub open spec fn property_length_spec(f: nat, min: nat, max: nat) -> nat {
    saturate(min + (f * (max - min)) / FRACTION_ONE as int)
}

/// Sampled property length for fraction `f` between `min` and `max`.
pub fn property_length(f: u64, min: usize, max: usize) -> (r: usize)
    requires
        min <= max,
    ensures
        r == property_length_spec(f as nat, min as nat, max as nat),
{
    let range = (max - min) as u128;
    assert((f as u128) * range <= u128::MAX) by (nonlinear_arith)
        requires
            f <= u64::MAX,
            range <= u64::MAX,
    ;
    let part: u128 = (f as u128) * range / (FRACTION_ONE as u128);
    let total: u128 = part + min as u128;
    if total > usize::MAX as u128 {
        usize::MAX
    } else {
        total as usize
    }
}

/// Number of raw random bytes drawn for a property of length `len`.
pub open spec fn property_bytes_spec(len: nat) -> nat {
    len / PROPERTY_SCALE_DIVISOR as nat
}

/// Number of raw random bytes to draw for a property whose fraction under
/// `d` is `f`: zero when `d` is `None`.
pub open spec fn property_byte_count_spec(d: Dist, f: nat, min: nat, max: nat) -> nat {
    if has_property_spec(d) {
        property_bytes_spec(property_length_spec(f, min, max))
    } else {
        0
    }
}

/// Number of raw random bytes for a property drawn under `d` with fraction `f`.
pub fn property_byte_count(d: Dist, f: u64, min: usize, max: usize) -> (r: usize)
    requires
        min <= max,
    ensures
        r == property_byte_count_spec(d, f as nat, min as nat, max as nat),
{
    if has_property(d) {
        property_length(f, min, max) / PROPERTY_SCALE_DIVISOR
    } else {
        0
    }
}

/// With the `Disabled` distribution every derived quantity is zero: the
/// fraction, the out-degree and the number of property bytes.
pub proof fn lemma_disabled_derives_zero(raw: int, f: nat, min: nat, max: nat)
    ensures
        fraction_spec(Dist::Disabled, raw) == 0,
        edge_count_spec(Dist::Disabled, f) == 0,
        property_byte_count_spec(Dist::Disabled, f, min, max) == 0,
{
}

/// Under the uniform distribution, whatever the raw draw, the out-degree lies
/// in `[0, 10000)` and the property length in `[min, max)`, or is `min` when
/// `min == max`.
pub proof fn lemma_uniform_bounds(raw: int, min: nat, max: nat)
    requires
        min <= max <= usize::MAX,
    ensures
        edge_count_spec(Dist::Uniform, fraction_spec(Dist::Uniform, raw)) < EDGE_SCALE,
        min <= property_length_spec(fraction_spec(Dist::Uniform, raw), min, max) <= max,
        min < max ==> property_length_spec(fraction_spec(Dist::Uniform, raw), min, max) < max,
{
    let f = fraction_spec(Dist::Uniform, raw);
    let one = FRACTION_ONE as int;
    assert(f < one);
    assert((f * EDGE_SCALE) as int / one < EDGE_SCALE) by (nonlinear_arith)
        requires
            0 <= f < one,
            one == 4294967296,
            EDGE_SCALE == 10000,
    ;
    let range = max - min;
    assert(0 <= (f * range) as int / one <= range) by (nonlinear_arith)
        requires
            0 <= f < one,
            one > 0,
            range >= 0,
    ;
    if min < max {
        assert((f * range) as int / one < range) by (nonlinear_arith)
            requires
                0 <= f < one,
                one > 0,
                range > 0,
        ;
    }
}

} // verus!
