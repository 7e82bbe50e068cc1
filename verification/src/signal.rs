//! Fixed-point signal values (Q16.16 in an `i32`) and their domain arithmetic.
//!
//! Bool signals are `ZERO` / `ONE`; Level signals are Q16.16 fixed point;
//! Count signals are whole numbers stored directly in the `i32`.

use vstd::prelude::*;

verus! {

/// One runtime signal sample.
pub type Signal = i32;

/// Fixed-point one (`1.0` Level, truthy Bool).
pub const ONE: i32 = 65536;

/// Fixed-point zero (falsey Bool).
pub const ZERO: i32 = 0;

/// Saturate a mathematical integer into the `i32` range.
pub open spec fn sat(x: int) -> i32 {
    if x > i32::MAX {
        i32::MAX
    } else if x < i32::MIN {
        i32::MIN
    } else {
        x as i32
    }
}

pub open spec fn abs_int(x: int) -> int {
    if x < 0 { -x } else { x }
}

/// Division rounding toward zero (Rust's integer `/`).
pub open spec fn trunc_div(a: int, b: int) -> int {
    let q = abs_int(a) / abs_int(b);
    if (a >= 0) == (b > 0) { q } else { -q }
}

pub open spec fn clamp_int(x: int, lo: int, hi: int) -> int {
    if x < lo { lo } else if x > hi { hi } else { x }
}

/// A signal is truthy when it is non-zero.
pub open spec fn truthy(v: i32) -> bool {
    v != 0
}

pub open spec fn bool_signal(b: bool) -> i32 {
    if b { ONE } else { ZERO }
}

/// Truthiness of a signal (non-zero).
pub fn is_truthy(v: Signal) -> (b: bool)
    ensures
        b == truthy(v),
{
    v != 0
}

/// Count signals store whole numbers directly.
pub fn from_count(n: i32) -> (s: Signal)
    ensures
        s == n,
{
    n
}

/// Saturate an `i64` into the `i32` range.
pub fn sat_i64(x: i64) -> (r: i32)
    ensures
        r == sat(x as int),
{
    if x > i32::MAX as i64 {
        i32::MAX
    } else if x < i32::MIN as i64 {
        i32::MIN
    } else {
        x as i32
    }
}

fn abs_u64(x: i64) -> (r: u64)
    requires
        x > i64::MIN,
    ensures
        r as int == abs_int(x as int),
{
    if x < 0 {
        (-x) as u64
    } else {
        x as u64
    }
}

/// Truncating division on `i64` operands whose magnitudes fit comfortably.
fn trunc_div_i64(a: i64, b: i64) -> (r: i64)
    requires
        b != 0,
        i64::MIN < a,
        i64::MIN < b,
    ensures
        r as int == trunc_div(a as int, b as int),
{
    let na = abs_u64(a);
    let nb = abs_u64(b);
    let q: u64 = na / nb;
    assert(q <= na) by (nonlinear_arith)
        requires
            q == na / nb,
            nb >= 1,
    ;
    if (a >= 0) == (b > 0) {
        q as i64
    } else {
        -(q as i64)
    }
}

pub open spec fn spec_count_div(a: i32, b: i32) -> i32 {
    if b == 0 {
        0
    } else {
        sat(trunc_div(a as int, b as int))
    }
}

/// Saturating whole-number addition.
pub fn count_add(a: Signal, b: Signal) -> (r: Signal)
    ensures
        r == sat(a + b),
{
    sat_i64(a as i64 + b as i64)
}

/// Saturating whole-number subtraction.
pub fn count_sub(a: Signal, b: Signal) -> (r: Signal)
    ensures
        r == sat(a - b),
{
    sat_i64(a as i64 - b as i64)
}

/// Saturating whole-number multiplication.
pub fn count_mul(a: Signal, b: Signal) -> (r: Signal)
    ensures
        r == sat(a * b),
{
    let p: i64 = mul_i32_wide(a, b);
    sat_i64(p)
}

fn mul_i32_wide(a: i32, b: i32) -> (p: i64)
    ensures
        p == a * b,
        -0x4000_0000_0000_0000 <= p <= 0x4000_0000_0000_0000,
{
    let aa = a as i64;
    let bb = b as i64;
    assert(-0x4000_0000_0000_0000 <= aa * bb <= 0x4000_0000_0000_0000) by (nonlinear_arith)
        requires
            -0x8000_0000 <= aa <= 0x7fff_ffff,
            -0x8000_0000 <= bb <= 0x7fff_ffff,
    ;
    aa * bb
}

/// Whole-number division rounding toward zero; division by zero yields zero
/// and `i32::MIN / -1` saturates to `i32::MAX`.
pub fn count_div(a: Signal, b: Signal) -> (r: Signal)
    ensures
        r == spec_count_div(a, b),
{
    if b == 0 {
        0
    } else {
        let q = trunc_div_i64(a as i64, b as i64);
        sat_i64(q)
    }
}

pub open spec fn spec_saturating_abs(v: i32) -> i32 {
    sat(abs_int(v as int))
}

pub open spec fn spec_saturating_neg(v: i32) -> i32 {
    sat(-(v as int))
}

/// Saturating absolute value of a whole-number count.
pub fn count_abs(v: Signal) -> (r: Signal)
    ensures
        r == spec_saturating_abs(v),
{
    if v == i32::MIN {
        i32::MAX
    } else if v < 0 {
        -v
    } else {
        v
    }
}

/// Saturating negation of a whole-number count.
pub fn count_neg(v: Signal) -> (r: Signal)
    ensures
        r == spec_saturating_neg(v),
{
    if v == i32::MIN {
        i32::MAX
    } else {
        -v
    }
}

/// Saturating absolute value of a level.
pub fn level_abs(v: Signal) -> (r: Signal)
    ensures
        r == spec_saturating_abs(v),
{
    count_abs(v)
}

/// Saturating negation of a level.
pub fn level_neg(v: Signal) -> (r: Signal)
    ensures
        r == spec_saturating_neg(v),
{
    count_neg(v)
}

/// Rounding (half away from zero) of a Q16.16 level to a whole count.
pub open spec fn spec_level_to_count(v: i32) -> i32 {
    if v >= 0 {
        ((v + ONE / 2) / (ONE as int)) as i32
    } else {
        (-((ONE / 2 - v) / (ONE as int))) as i32
    }
}

/// Convert a Level to a Count, rounding halves away from zero.
pub fn level_to_count(v: Signal) -> (r: Signal)
    ensures
        r == spec_level_to_count(v),
{
    let half: i64 = 32768;
    if v >= 0 {
        let x: i64 = v as i64 + half;
        let q: i64 = x / 65536;
        q as i32
    } else {
        let x: i64 = half - v as i64;
        let q: i64 = x / 65536;
        (-q) as i32
    }
}

/// Convert a whole Count to a Level (saturating).
pub fn count_to_level(v: Signal) -> (r: Signal)
    ensures
        r == sat(v * ONE),
{
    sat_i64(v as i64 * 65536)
}

/// Saturating Q16.16 level addition.
pub fn level_add(a: Signal, b: Signal) -> (r: Signal)
    ensures
        r == sat(a + b),
{
    count_add(a, b)
}

/// Saturating Q16.16 level subtraction.
pub fn level_sub(a: Signal, b: Signal) -> (r: Signal)
    ensures
        r == sat(a - b),
{
    count_sub(a, b)
}

/// Q16.16 product, rounded toward negative infinity and saturated.
pub open spec fn spec_level_mul(a: i32, b: i32) -> i32 {
    sat((a * b) / (ONE as int))
}

/// Saturating Q16.16 multiplication.
pub fn level_mul(a: Signal, b: Signal) -> (r: Signal)
    ensures
        r == spec_level_mul(a, b),
{
    let p = mul_i32_wide(a, b);
    let q: i64 = floor_div_65536(p);
    sat_i64(q)
}

fn floor_div_65536(p: i64) -> (q: i64)
    requires
        -0x4000_0000_0000_0000 <= p <= 0x4000_0000_0000_0000,
    ensures
        q as int == (p as int) / 65536,
{
    if p >= 0 {
        p / 65536
    } else {
        let m: i64 = -p;
        let d: i64 = m / 65536;
        if d * 65536 == m {
            -d
        } else {
            proof {
                assert(((-(m as int)) / 65536) == -(d as int) - 1) by (nonlinear_arith)
                    requires
                        m > 0,
                        d == m / 65536,
                        d * 65536 != m,
                ;
            }
            -d - 1
        }
    }
}

pub open spec fn spec_level_div(a: i32, b: i32) -> i32 {
    if b == 0 {
        0
    } else {
        sat(trunc_div(a * ONE, b as int))
    }
}

/// Q16.16 division rounding toward zero; division by zero yields zero.
pub fn level_div(a: Signal, b: Signal) -> (r: Signal)
    ensures
        r == spec_level_div(a, b),
{
    if b == 0 {
        0
    } else {
        let num: i64 = a as i64 * 65536;
        let q = trunc_div_i64(num, b as i64);
        sat_i64(q)
    }
}


/// Floor square root: the unique `r` with `r * r <= n < (r + 1) * (r + 1)`.
pub open spec fn is_floor_sqrt(n: int, r: int) -> bool {
    0 <= r && r * r <= n && n < (r + 1) * (r + 1)
}

/// Floor integer square root of a `u64`.
pub fn isqrt_u64(n: u64) -> (r: u64)
    ensures
        is_floor_sqrt(n as int, r as int),
{
    // Invariant: lo * lo <= n < hi * hi.
    let mut lo: u64 = 0;
    let mut hi: u64 = 0x1_0000_0000;
    assert(n < 0x1_0000_0000u128 * 0x1_0000_0000u128);
    while hi - lo > 1
        invariant
            lo < hi <= 0x1_0000_0000,
            lo * lo <= n,
            (n as int) < hi * hi,
        decreases hi - lo,
    {
        let mid: u64 = lo + (hi - lo) / 2;
        assert(mid * mid <= 0x1_0000_0000u128 * 0x1_0000_0000u128) by (nonlinear_arith)
            requires
                mid <= 0x1_0000_0000u64,
        ;
        let sq: u128 = mid as u128 * mid as u128;
        if sq <= n as u128 {
            lo = mid;
        } else {
            hi = mid;
        }
    }
    assert(hi == lo + 1);
    lo
}

/// Square root of a Q16.16 level (non-positive inputs give zero).
pub open spec fn spec_level_sqrt(i: i32, r: i32) -> bool {
    if i <= 0 {
        r == 0
    } else {
        is_floor_sqrt(i * ONE, r as int)
    }
}

/// Square root of a Level signal, in Q16.16.
pub fn level_sqrt(i: Signal) -> (r: Signal)
    ensures
        spec_level_sqrt(i, r),
{
    if i <= 0 {
        0
    } else {
        let n: u64 = i as u64 * 65536;
        let s = isqrt_u64(n);
        proof {
            lemma_sqrt_bound(n as int, s as int, 0x8000_0000_0000);
        }
        s as i32
    }
}

proof fn lemma_sqrt_bound(n: int, r: int, b: int)
    requires
        is_floor_sqrt(n, r),
        n < b,
        b == 0x8000_0000_0000,
    ensures
        r < 0x100_0000,
{
    if r >= 0x100_0000 {
        assert(r * r >= 0x100_0000 * 0x100_0000) by (nonlinear_arith)
            requires
                r >= 0x100_0000,
        ;
    }
}

/// Floor square root of a Count (non-positive inputs give zero).
pub open spec fn spec_count_sqrt(i: i32, r: i32) -> bool {
    if i <= 0 {
        r == 0
    } else {
        is_floor_sqrt(i as int, r as int)
    }
}

/// Whole-number square root of a Count signal.
pub fn count_sqrt(i: Signal) -> (r: Signal)
    ensures
        spec_count_sqrt(i, r),
{
    if i <= 0 {
        0
    } else {
        let s = isqrt_u64(i as u64);
        proof {
            if s >= 0x8000_0000 {
                assert(s * s >= 0x8000_0000 * 0x8000_0000) by (nonlinear_arith)
                    requires
                        s >= 0x8000_0000,
                ;
            }
        }
        s as i32
    }
}

/// Map a 32-bit random draw onto the closed range between two bounds.
pub open spec fn spec_random_in_range(u: u32, a: i32, b: i32) -> i32 {
    let lo = if a <= b { a } else { b };
    let hi = if a <= b { b } else { a };
    let span = hi - lo;
    if span <= 0 {
        lo
    } else {
        (lo + (u * span) / (u32::MAX as int)) as i32
    }
}

/// Map `u` into `[min(a, b), max(a, b)]` with a wide intermediate product, so
/// `0` maps to the low bound and `u32::MAX` to the high bound.
pub fn random_level_in_range(u: u32, a: Signal, b: Signal) -> (r: Signal)
    ensures
        r == spec_random_in_range(u, a, b),
        (if a <= b { a } else { b }) <= r <= (if a <= b { b } else { a }),
{
    let lo: i64 = if a <= b { a as i64 } else { b as i64 };
    let hi: i64 = if a <= b { b as i64 } else { a as i64 };
    let span: i64 = hi - lo;
    if span <= 0 {
        return lo as i32;
    }
    let span_u: u64 = span as u64;
    let prod: u64 = mul_bounded(u as u64, span_u);
    let offset: u64 = prod / 0xffff_ffffu64;
    assert(offset <= span_u) by (nonlinear_arith)
        requires
            offset == prod / 0xffff_ffffu64,
            prod == u * span_u,
            u <= 0xffff_ffffu64,
            span_u >= 0,
    ;
    (lo + offset as i64) as i32
}

fn mul_bounded(a: u64, b: u64) -> (p: u64)
    requires
        a <= 0xffff_ffff,
        b <= 0xffff_ffff,
    ensures
        p == a * b,
{
    assert(a * b <= 0xffff_ffff * 0xffff_ffff) by (nonlinear_arith)
        requires
            a <= 0xffff_ffff,
            b <= 0xffff_ffff,
    ;
    a * b
}

/// Count-domain random sample: the same wide mapping over whole numbers.
pub fn random_count_in_range(u: u32, a: Signal, b: Signal) -> (r: Signal)
    ensures
        r == spec_random_in_range(u, a, b),
        (if a <= b { a } else { b }) <= r <= (if a <= b { b } else { a }),
{
    random_level_in_range(u, a, b)
}


/// Linear remap core: `out_min + t * out_span / den`, rounding toward zero.
pub open spec fn map_core(t: int, den: int, out_min: int, out_span: int) -> int {
    out_min + trunc_div(t * out_span, den)
}

/// Clamped linear remap of `i` from `[in_min, in_max]` onto `[out_min, out_max]`.
/// A degenerate (empty or inverted) input range always yields `out_min`.
pub open spec fn spec_map(i: i32, in_min: i32, in_max: i32, out_min: i32, out_max: i32) -> i32 {
    let den = in_max - in_min;
    if den <= 0 {
        out_min
    } else {
        map_core(clamp_int(i - in_min, 0, den), den, out_min as int, out_max - out_min) as i32
    }
}

/// The quotient of `t * s` by `den` for `0 <= t <= den` stays between 0 and `s`.
pub proof fn lemma_scaled_quotient_bounded(t: int, den: int, s: int)
    requires
        0 <= t <= den,
        den > 0,
    ensures
        s >= 0 ==> 0 <= trunc_div(t * s, den) <= s,
        s < 0 ==> s <= trunc_div(t * s, den) <= 0,
{
    let m = abs_int(s);
    assert(abs_int(t * s) == t * m) by (nonlinear_arith)
        requires
            0 <= t,
            m == abs_int(s),
    ;
    assert(t * m <= den * m) by (nonlinear_arith)
        requires
            0 <= t <= den,
            m >= 0,
    ;
    assert((t * m) / den <= m) by (nonlinear_arith)
        requires
            0 <= t * m <= den * m,
            den > 0,
    ;
    assert((t * m) / den >= 0) by (nonlinear_arith)
        requires
            0 <= t * m,
            den > 0,
    ;
    if s < 0 {
        assert(t * s <= 0) by (nonlinear_arith)
            requires
                t >= 0,
                s < 0,
        ;
    }
}

/// The remap always lands between `out_min` and `out_max` (in either order).
pub proof fn lemma_map_in_range(i: i32, in_min: i32, in_max: i32, out_min: i32, out_max: i32)
    requires
        in_max - in_min > 0,
    ensures
        ({
            let den = in_max - in_min;
            let v = map_core(clamp_int(i - in_min, 0, den), den, out_min as int, out_max - out_min);
            &&& (out_min <= out_max ==> out_min <= v <= out_max)
            &&& (out_max < out_min ==> out_max <= v <= out_min)
        }),
{
    let den = in_max - in_min;
    lemma_scaled_quotient_bounded(clamp_int(i - in_min, 0, den), den, out_max - out_min);
}

/// Bind-time specialisation of a linear remap, chosen from the range shape.
#[derive(Clone, Copy, Debug, PartialEq, Eq)]
pub enum I32MapPlan {
    /// Empty or inverted input range: the output is constant.
    Constant { out: i32 },
    /// Input and output spans are equal: a pure offset.
    Unit { in_min: i32, den: i64, out_min: i32 },
    /// The output span is a whole multiple of the input span.
    Scale { in_min: i32, den: i64, out_min: i32, factor: i64 },
    /// The input span is a power-of-two multiple of a positive output span.
    Shift { in_min: i32, den: i64, out_min: i32, bits: u32 },
    /// General ratio: a wide multiply and a rounding-toward-zero divide.
    Divide { in_min: i32, den: i64, out_min: i32, out_span: i64 },
}

pub open spec fn clamped_offset(i: i32, in_min: i32, den: int) -> int {
    clamp_int(i - in_min, 0, den)
}

impl I32MapPlan {
    pub open spec fn wf(self) -> bool {
        match self {
            I32MapPlan::Constant { .. } => true,
            I32MapPlan::Unit { in_min, den, out_min } => {
                &&& 0 < den < 0x1_0000_0000
                &&& i32::MIN <= out_min + den <= i32::MAX
            },
            I32MapPlan::Scale { in_min, den, out_min, factor } => {
                &&& 0 < den < 0x1_0000_0000
                &&& i32::MIN <= out_min + den * factor <= i32::MAX
            },
            I32MapPlan::Shift { in_min, den, out_min, bits } => {
                &&& 0 < den < 0x1_0000_0000
                &&& bits < 32
                &&& (den as int) % (vstd::arithmetic::power2::pow2(bits as nat) as int) == 0
                &&& i32::MIN <= out_min + (den as int) / (vstd::arithmetic::power2::pow2(bits as nat) as int) <= i32::MAX
            },
            I32MapPlan::Divide { in_min, den, out_min, out_span } => {
                &&& 0 < den < 0x1_0000_0000
                &&& i32::MIN <= out_min + out_span <= i32::MAX
            },
        }
    }

    /// What the plan computes for input `i`.
    pub open spec fn spec_apply(self, i: i32) -> int {
        match self {
            I32MapPlan::Constant { out } => out as int,
            I32MapPlan::Unit { in_min, den, out_min } => out_min + clamped_offset(i, in_min, den as int),
            I32MapPlan::Scale { in_min, den, out_min, factor } => out_min + clamped_offset(
                i,
                in_min,
                den as int,
            ) * factor,
            I32MapPlan::Shift { in_min, den, out_min, bits } => out_min + clamped_offset(
                i,
                in_min,
                den as int,
            ) / (vstd::arithmetic::power2::pow2(bits as nat) as int),
            I32MapPlan::Divide { in_min, den, out_min, out_span } => map_core(
                clamped_offset(i, in_min, den as int),
                den as int,
                out_min as int,
                out_span as int,
            ),
        }
    }

    /// Choose the plan for remapping `[in_min, in_max]` onto `[out_min, out_max]`.
    pub fn precompute(in_min: i32, in_max: i32, out_min: i32, out_max: i32) -> (plan: I32MapPlan)
        ensures
            plan.wf(),
            forall|i: i32| #[trigger] plan.spec_apply(i) == spec_map(i, in_min, in_max, out_min, out_max) as int,
            (in_max as int) - (in_min as int) <= 0 <==> plan is Constant,
    {
        let den: i64 = in_max as i64 - in_min as i64;
        let span: i64 = out_max as i64 - out_min as i64;
        if den <= 0 {
            return I32MapPlan::Constant { out: out_min };
        }
        proof {
            assert forall|i: i32| true implies #[trigger] spec_map(i, in_min, in_max, out_min, out_max) as int
                == map_core(clamped_offset(i, in_min, den as int), den as int, out_min as int, span as int) by {
                lemma_map_in_range(i, in_min, in_max, out_min, out_max);
            }
        }
        if span == den {
            let plan = I32MapPlan::Unit { in_min, den, out_min };
            proof {
                assert forall|i: i32| true implies #[trigger] plan.spec_apply(i) == spec_map(i, in_min, in_max, out_min, out_max) as int by {
                    let t = clamped_offset(i, in_min, den as int);
                    assert(t * span == t * den);
                    assert((t * den) / (den as int) == t) by (nonlinear_arith)
                        requires
                            den > 0,
                            t >= 0,
                    ;
                    assert(t * den >= 0) by (nonlinear_arith)
                        requires
                            den > 0,
                            t >= 0,
                    ;
                }
            }
            return plan;
        }
        let mag: u64 = if span < 0 { (-span) as u64 } else { span as u64 };
        if mag % (den as u64) == 0 {
            let q: u64 = mag / (den as u64);
            assert(q * den == mag) by (nonlinear_arith)
                requires
                    mag % (den as u64) == 0,
                    q == mag / (den as u64),
                    den > 0,
            ;
            assert(q <= mag) by (nonlinear_arith)
                requires
                    q * den == mag,
                    den >= 1,
                    q >= 0,
            ;
            let factor: i64 = if span < 0 { -(q as i64) } else { q as i64 };
            assert(factor * den == span) by (nonlinear_arith)
                requires
                    q * den == mag,
                    span < 0 ==> mag == -span && factor == -q,
                    span >= 0 ==> mag == span && factor == q,
            ;
            assert(den * factor == span) by (nonlinear_arith)
                requires
                    factor * den == span,
            ;
            let plan = I32MapPlan::Scale { in_min, den, out_min, factor };
            proof {
                assert forall|i: i32| true implies #[trigger] plan.spec_apply(i) == spec_map(i, in_min, in_max, out_min, out_max) as int by {
                    let t = clamped_offset(i, in_min, den as int);
                    lemma_exact_quotient(t, den as int, factor as int);
                }
            }
            return plan;
        }
        if span > 0 && den % span == 0 {
            let ratio: i64 = den / span;
            let (is_pow, bits) = pow2_exponent(ratio as u64);
            if is_pow {
                let plan = I32MapPlan::Shift { in_min, den, out_min, bits };
                proof {
                    let p = vstd::arithmetic::power2::pow2(bits as nat) as int;
                    assert(den == span * p) by (nonlinear_arith)
                        requires
                            ratio == den / span,
                            den % span == 0,
                            span > 0,
                            ratio == p,
                    ;
                    assert(p > 0) by {
                        vstd::arithmetic::power2::lemma_pow2_pos(bits as nat);
                    }
                    assert((den as int) % p == 0 && (den as int) / p == span) by (nonlinear_arith)
                        requires
                            den == span * p,
                            p > 0,
                    ;
                    assert forall|i: i32| true implies #[trigger] plan.spec_apply(i) == spec_map(i, in_min, in_max, out_min, out_max) as int by {
                        let t = clamped_offset(i, in_min, den as int);
                        assert((t * span) / (den as int) == t / p) by (nonlinear_arith)
                            requires
                                den == span * p,
                                span > 0,
                                p > 0,
                                t >= 0,
                        ;
                        assert(t * span >= 0) by (nonlinear_arith)
                            requires
                                span > 0,
                                t >= 0,
                        ;
                    }
                }
                return plan;
            }
        }
        I32MapPlan::Divide { in_min, den, out_min, out_span: span }
    }

    /// Apply the plan to one input sample.
    pub fn apply(&self, i: Signal) -> (r: Signal)
        requires
            self.wf(),
        ensures
            r as int == self.spec_apply(i),
    {
        match *self {
            I32MapPlan::Constant { out } => out,
            I32MapPlan::Unit { in_min, den, out_min } => {
                let t = clamp_offset_exec(i, in_min, den);
                (out_min as i64 + t) as i32
            },
            I32MapPlan::Scale { in_min, den, out_min, factor } => {
                let t = clamp_offset_exec(i, in_min, den);
                proof {
                    lemma_scaled_product_bounded(t as int, den as int, factor as int);
                }
                (out_min as i64 + t * factor) as i32
            },
            I32MapPlan::Shift { in_min, den, out_min, bits } => {
                let t = clamp_offset_exec(i, in_min, den);
                let tu: u64 = t as u64;
                let q: u64 = tu >> (bits as u64);
                proof {
                    vstd::bits::lemma_u64_shr_is_div(tu, bits as u64);
                    let p = vstd::arithmetic::power2::pow2(bits as nat) as int;
                    vstd::arithmetic::power2::lemma_pow2_pos(bits as nat);
                    assert((t as int) / p <= (den as int) / p) by (nonlinear_arith)
                        requires
                            0 <= t <= den,
                            p > 0,
                    ;
                    assert((t as int) / p >= 0) by (nonlinear_arith)
                        requires
                            0 <= t,
                            p > 0,
                    ;
                }
                (out_min as i64 + q as i64) as i32
            },
            I32MapPlan::Divide { in_min, den, out_min, out_span } => {
                let t = clamp_offset_exec(i, in_min, den);
                proof {
                    lemma_scaled_quotient_bounded(t as int, den as int, out_span as int);
                }
                let q = scaled_quotient(t, den, out_span);
                (out_min as i64 + q) as i32
            },
        }
    }
}

proof fn lemma_exact_quotient(t: int, den: int, factor: int)
    requires
        den > 0,
        t >= 0,
    ensures
        trunc_div(t * (factor * den), den) == t * factor,
{
    let m = abs_int(factor);
    assert(abs_int(t * (factor * den)) == (t * m) * den) by (nonlinear_arith)
        requires
            t >= 0,
            den > 0,
            m == abs_int(factor),
    ;
    assert(((t * m) * den) / den == t * m) by (nonlinear_arith)
        requires
            den > 0,
            t >= 0,
            m >= 0,
    ;
    if factor < 0 && t > 0 {
        assert(t * (factor * den) < 0) by (nonlinear_arith)
            requires
                t > 0,
                factor < 0,
                den > 0,
        ;
        assert(-(t * m) == t * factor) by (nonlinear_arith)
            requires
                m == -factor,
        ;
    } else if factor >= 0 {
        assert(t * (factor * den) >= 0) by (nonlinear_arith)
            requires
                t >= 0,
                factor >= 0,
                den > 0,
        ;
        assert(t * m == t * factor);
    } else {
        assert(t == 0);
    }
}

proof fn lemma_scaled_product_bounded(t: int, den: int, factor: int)
    requires
        0 <= t <= den,
        den > 0,
    ensures
        factor >= 0 ==> 0 <= t * factor <= den * factor,
        factor < 0 ==> den * factor <= t * factor <= 0,
{
    if factor >= 0 {
        assert(0 <= t * factor <= den * factor) by (nonlinear_arith)
            requires
                0 <= t <= den,
                factor >= 0,
        ;
    } else {
        assert(den * factor <= t * factor <= 0) by (nonlinear_arith)
            requires
                0 <= t <= den,
                factor < 0,
        ;
    }
}

fn clamp_offset_exec(i: i32, in_min: i32, den: i64) -> (t: i64)
    requires
        0 < den < 0x1_0000_0000,
    ensures
        t as int == clamped_offset(i, in_min, den as int),
        0 <= t <= den,
{
    let d: i64 = i as i64 - in_min as i64;
    if d < 0 {
        0
    } else if d > den {
        den
    } else {
        d
    }
}

/// `trunc_div(t * s, den)` with a 128-bit product.
fn scaled_quotient(t: i64, den: i64, s: i64) -> (q: i64)
    requires
        0 <= t <= den,
        0 < den < 0x1_0000_0000,
        -0x1_0000_0000 < s < 0x1_0000_0000,
    ensures
        q as int == trunc_div(t * s, den as int),
{
    let m: u64 = if s < 0 { (-s) as u64 } else { s as u64 };
    assert((t as int) * (m as int) <= 0x1_0000_0000 * 0x1_0000_0000) by (nonlinear_arith)
        requires
            0 <= t < 0x1_0000_0000,
            0 <= m < 0x1_0000_0000,
    ;
    let prod: u128 = t as u128 * m as u128;
    let qu: u128 = prod / (den as u128);
    assert(abs_int(t * s) == t * m) by (nonlinear_arith)
        requires
            0 <= t,
            m == abs_int(s as int),
    ;
    proof {
        lemma_scaled_quotient_bounded(t as int, den as int, s as int);
    }
    assert(qu <= m);
    if s < 0 && t > 0 {
        assert(t * s < 0) by (nonlinear_arith)
            requires
                t > 0,
                s < 0,
        ;
        -(qu as i64)
    } else {
        assert(t * s >= 0) by (nonlinear_arith)
            requires
                t >= 0,
                s >= 0 || t == 0,
        ;
        qu as i64
    }
}

/// An odd number above one times a power of two is no power of two.
proof fn lemma_odd_times_pow2_not_pow2(q: int, b: nat, k: nat)
    requires
        q > 1,
        q % 2 == 1,
    ensures
        q * vstd::arithmetic::power2::pow2(b) != vstd::arithmetic::power2::pow2(k),
{
    let p = vstd::arithmetic::power2::pow2(b) as int;
    vstd::arithmetic::power2::lemma_pow2_pos(b);
    if k <= b {
        if k < b {
            vstd::arithmetic::power2::lemma_pow2_strictly_increases(k, b);
        }
        assert(q * p > p) by (nonlinear_arith)
            requires
                q > 1,
                p > 0,
        ;
    } else {
        let d = (k - b) as nat;
        vstd::arithmetic::power2::lemma_pow2_adds(d, b);
        vstd::arithmetic::power2::lemma_pow2_unfold(d);
        let m = vstd::arithmetic::power2::pow2((d - 1) as nat) as int;
        assert(d + b == k);
        if q * p == vstd::arithmetic::power2::pow2(k) {
            assert(q * p == (2 * m) * p);
            assert(q == 2 * m) by (nonlinear_arith)
                requires
                    q * p == (2 * m) * p,
                    p > 0,
            ;
        }
    }
}

/// Whether `ratio` is a power of two, and its exponent when it is.
fn pow2_exponent(ratio: u64) -> (res: (bool, u32))
    requires
        0 < ratio < 0x1_0000_0000,
    ensures
        res.0 ==> res.1 < 32 && ratio as int == vstd::arithmetic::power2::pow2(res.1 as nat) as int,
        !res.0 ==> forall|k: nat| ratio as int != #[trigger] vstd::arithmetic::power2::pow2(k) as int,
{
    let mut q: u64 = ratio;
    let mut bits: u32 = 0;
    proof {
        vstd::arithmetic::power2::lemma2_to64();
    }
    while q > 1 && q % 2 == 0
        invariant
            0 < q,
            bits < 32,
            q * vstd::arithmetic::power2::pow2(bits as nat) == ratio,
            ratio < 0x1_0000_0000,
        decreases q,
    {
        proof {
            vstd::arithmetic::power2::lemma_pow2_unfold((bits + 1) as nat);
            vstd::arithmetic::power2::lemma_pow2_pos(bits as nat);
            let p = vstd::arithmetic::power2::pow2(bits as nat);
            assert((q / 2) * (2 * p) == q * p) by (nonlinear_arith)
                requires
                    q % 2 == 0,
            ;
            assert((q / 2) >= 1);
            assert(2 * p <= ratio) by (nonlinear_arith)
                requires
                    (q / 2) * (2 * p) == ratio,
                    q / 2 >= 1,
                    p > 0,
            ;
            if bits + 1 > 32 {
                vstd::arithmetic::power2::lemma_pow2_strictly_increases(32, (bits + 1) as nat);
            }
            assert(vstd::arithmetic::power2::pow2((bits + 1) as nat) == 2 * p);
            vstd::arithmetic::power2::lemma2_to64();
            assert(bits + 1 < 32);
        }
        q = q / 2;
        bits = bits + 1;
    }
    proof {
        if q != 1 {
            assert forall|k: nat| ratio as int != #[trigger] vstd::arithmetic::power2::pow2(k) as int by {
                lemma_odd_times_pow2_not_pow2(q as int, bits as nat, k);
            }
        }
    }
    (q == 1, bits)
}

} // verus!
