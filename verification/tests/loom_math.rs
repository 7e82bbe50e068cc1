//! Integer signal math: square roots, saturating count arithmetic,
//! conversions, random ranges, digitize and linear remapping.

use wyrd::catalog::{KnotKind, SignalDomain};
use wyrd::kind_tag::{digitize, map_linear, tag_from_kind, KindTag};
use wyrd::signal::{
    count_abs, count_add, count_div, count_mul, count_neg, count_sqrt, count_sub, count_to_level, from_count,
    isqrt_u64, level_sqrt, level_to_count, random_count_in_range, random_level_in_range, I32MapPlan, ONE, ZERO,
};

fn from_level(x: f64) -> i32 {
    (x * 65536.0).round() as i32
}

fn digitize_for_test(i: i32, steps: u16, in_min: i32, in_max: i32, out_min: i32, out_max: i32) -> i32 {
    digitize(i, steps, in_min, in_max, out_min, out_max)
}

fn digitize_for_domain_test(
    _domain: SignalDomain,
    i: i32,
    steps: u16,
    in_min: i32,
    in_max: i32,
    out_min: i32,
    out_max: i32,
) -> i32 {
    digitize(i, steps, in_min, in_max, out_min, out_max)
}

fn map_linear_for_test(i: i32, in_min: i32, in_max: i32, out_min: i32, out_max: i32) -> i32 {
    map_linear(i, in_min, in_max, out_min, out_max)
}

fn map_linear_for_domain_test(_domain: SignalDomain, i: i32, in_min: i32, in_max: i32, out_min: i32, out_max: i32) -> i32 {
    map_linear(i, in_min, in_max, out_min, out_max)
}

#[test]
fn isqrt_matches_dense_range_and_boundaries() {
    for n in 0u64..=65_536 {
        let root = isqrt_u64(n);
        assert!(root * root <= n, "isqrt({n}) overshot with {root}");
        assert!((root + 1) * (root + 1) > n, "isqrt({n}) undershot with {root}");
    }
    for k in 0i32..200 {
        let n = k * k;
        assert_eq!(isqrt_u64(n as u64), k as u64, "isqrt({n})");
        if k > 0 {
            assert_eq!(isqrt_u64((n - 1) as u64), (k - 1) as u64);
        }
    }
    assert_eq!(isqrt_u64(0), 0);
    assert_eq!(isqrt_u64(u64::MAX), u32::MAX as u64);
}

#[test]
fn full_i32_ranges_preserve_both_endpoints() {
    for range in [(i32::MIN, i32::MAX), (i32::MAX, i32::MIN)] {
        assert_eq!(random_level_in_range(0, range.0, range.1), i32::MIN);
        assert_eq!(random_level_in_range(u32::MAX, range.0, range.1), i32::MAX);
        assert_eq!(random_count_in_range(0, range.0, range.1), i32::MIN);
        assert_eq!(random_count_in_range(u32::MAX, range.0, range.1), i32::MAX);
    }
}

#[test]
fn count_arithmetic_is_integer_and_saturating() {
    assert_eq!(count_mul(from_count(6), from_count(7)), from_count(42));
    assert_eq!(count_mul(from_count(50_000), from_count(50_000)), from_count(i32::MAX));
    assert_eq!(count_div(from_count(7), from_count(2)), from_count(3));
    assert_eq!(count_div(from_count(7), from_count(0)), from_count(0));
    assert_eq!(count_div(from_count(i32::MIN), from_count(-1)), from_count(i32::MAX));
    assert_eq!(count_add(from_count(i32::MAX), from_count(1)), from_count(i32::MAX));
    assert_eq!(count_sub(from_count(i32::MIN), from_count(1)), from_count(i32::MIN));
    assert_eq!(count_abs(from_count(i32::MIN)), from_count(i32::MAX));
    assert_eq!(count_neg(from_count(i32::MIN)), from_count(i32::MAX));
}

#[test]
fn numeric_conversions_round_and_saturate() {
    assert_eq!(level_to_count(from_level(2.5)), from_count(3));
    assert_eq!(level_to_count(from_level(-2.5)), from_count(-3));
    assert_eq!(count_to_level(from_count(2)), from_level(2.0));
    assert_eq!(count_to_level(i32::MAX), i32::MAX);
}

#[test]
fn sqrt_respects_level_and_count_representations() {
    assert_eq!(level_sqrt(from_level(0.25)), from_level(0.5));
    assert_eq!(count_sqrt(from_count(15)), from_count(3));
    assert_eq!(count_sqrt(from_count(-1)), from_count(0));
}

#[test]
fn digitize_precompute_matches_endpoints_and_mids() {
    let steps = 4u16;
    let in0 = from_count(0);
    let in4 = from_count(4);
    let o0 = from_count(0);
    let o30 = from_count(30);
    assert_eq!(digitize_for_test(from_count(0), steps, in0, in4, o0, o30), from_count(0));
    assert_eq!(digitize_for_test(from_count(1), steps, in0, in4, o0, o30), from_count(10));
    assert_eq!(digitize_for_test(from_count(2), steps, in0, in4, o0, o30), from_count(20));
    assert_eq!(digitize_for_test(from_count(3), steps, in0, in4, o0, o30), from_count(30));
    assert_eq!(digitize_for_test(from_count(4), steps, in0, in4, o0, o30), from_count(30));
    assert_eq!(digitize_for_test(ONE, 1, ZERO, ONE, from_count(7), from_count(9)), from_count(7));
}

#[test]
fn count_digitize_truncates_non_divisible_ranges() {
    assert_eq!(
        digitize_for_domain_test(
            SignalDomain::Count,
            from_count(1),
            4,
            from_count(0),
            from_count(3),
            from_count(0),
            from_count(10),
        ),
        from_count(3)
    );
}

#[test]
fn map_precompute_endpoints_mid_and_degenerate() {
    let i0 = from_count(0);
    let i4 = from_count(4);
    let o0 = from_count(0);
    let o40 = from_count(40);
    assert_eq!(map_linear_for_test(from_count(0), i0, i4, o0, o40), o0);
    assert_eq!(map_linear_for_test(from_count(2), i0, i4, o0, o40), from_count(20));
    assert_eq!(map_linear_for_test(from_count(4), i0, i4, o0, o40), o40);
    assert_eq!(map_linear_for_test(from_count(8), i0, i4, o0, o40), o40);
    assert_eq!(map_linear_for_test(from_count(-2), i0, i4, o0, o40), o0);
    assert_eq!(map_linear_for_test(ONE, from_count(3), from_count(3), from_count(7), o40), from_count(7));
    let mid = map_linear_for_test(ONE / 2, ZERO, ONE, ZERO, ONE);
    assert_eq!(mid, ONE / 2);
}

#[test]
fn count_map_truncates_non_divisible_ranges() {
    assert_eq!(
        map_linear_for_domain_test(
            SignalDomain::Count,
            from_count(1),
            from_count(0),
            from_count(3),
            from_count(0),
            from_count(10),
        ),
        from_count(3)
    );
}

#[test]
fn map_full_i32_range_uses_wide_intermediates() {
    assert_eq!(map_linear_for_test(i32::MIN, i32::MIN, i32::MAX, i32::MIN, i32::MAX), i32::MIN);
    assert_eq!(map_linear_for_test(i32::MAX, i32::MIN, i32::MAX, i32::MIN, i32::MAX), i32::MAX);
    assert_eq!(map_linear_for_test(0, i32::MIN, i32::MAX, i32::MIN, i32::MAX), 0);

    assert_eq!(map_linear_for_test(i32::MIN, i32::MIN, i32::MAX, i32::MAX, i32::MIN), i32::MAX);
    assert_eq!(map_linear_for_test(i32::MAX, i32::MIN, i32::MAX, i32::MAX, i32::MIN), i32::MIN);
    assert_eq!(map_linear_for_test(0, i32::MIN, i32::MAX, i32::MAX, i32::MIN), -1);
}

#[test]
fn map_full_i32_output_range_clamps_inputs_outside_range() {
    assert_eq!(map_linear_for_test(i32::MIN, -1, 1, i32::MIN, i32::MAX), i32::MIN);
    assert_eq!(map_linear_for_test(i32::MAX, -1, 1, i32::MIN, i32::MAX), i32::MAX);
}

fn reference_i32_map(input: i32, in_min: i32, in_max: i32, out_min: i32, out_max: i32) -> i32 {
    let den = (in_max as i128) - (in_min as i128);
    if den == 0 {
        return out_min;
    }
    let t = ((input as i128) - (in_min as i128)).clamp(0, den);
    ((out_min as i128) + t * ((out_max as i128) - (out_min as i128)) / den) as i32
}

#[test]
fn map_i32_uses_specialized_bind_plans() {
    let plan = |in_min, in_max, out_min, out_max| match tag_from_kind(&KnotKind::map(
        in_min,
        in_max,
        out_min,
        out_max,
        SignalDomain::Count,
    )) {
        KindTag::MapRange { plan, .. } => plan,
        _ => unreachable!("map precompute must return a Map tag"),
    };

    assert!(matches!(plan(3, 3, 7, 9), I32MapPlan::Constant { .. }));
    assert!(matches!(plan(-8, 8, 5, 21), I32MapPlan::Unit { .. }));
    assert!(matches!(plan(0, 8, 0, 16), I32MapPlan::Scale { .. }));
    assert!(matches!(plan(0, 8, 0, 4), I32MapPlan::Shift { .. }));
    assert!(matches!(plan(0, 10, 0, 3), I32MapPlan::Divide { .. }));
}

#[test]
fn map_i32_matches_wide_reference_across_edge_and_seeded_ranges() {
    let cases = [
        (i32::MIN, i32::MAX, i32::MIN, i32::MAX),
        (i32::MIN, i32::MAX, i32::MAX, i32::MIN),
        (-65_536, 65_536, 0, 65_536),
        (0, 8, 0, 16),
        (0, 8, 0, 4),
        (0, 10, -37, 997),
        (3, 3, -5, 42),
    ];
    for (in_min, in_max, out_min, out_max) in cases {
        for input in [i32::MIN, in_min.saturating_sub(1), in_min, 0, in_max, in_max.saturating_add(1), i32::MAX] {
            assert_eq!(
                map_linear_for_domain_test(SignalDomain::Count, input, in_min, in_max, out_min, out_max),
                reference_i32_map(input, in_min, in_max, out_min, out_max),
                "input={input}, in={in_min}..{in_max}, out={out_min}..{out_max}"
            );
        }
    }

    let mut state = 0x9E37_79B9u32;
    for _ in 0..512 {
        let next = |state: &mut u32| {
            *state = state.wrapping_mul(1_664_525).wrapping_add(1_013_904_223);
            *state as i32
        };
        let a = next(&mut state);
        let b = next(&mut state);
        let (in_min, in_max) = if a <= b { (a, b) } else { (b, a) };
        let out_min = next(&mut state);
        let out_max = next(&mut state);
        let input = next(&mut state);
        assert_eq!(
            map_linear_for_domain_test(SignalDomain::Count, input, in_min, in_max, out_min, out_max),
            reference_i32_map(input, in_min, in_max, out_min, out_max),
        );
    }
}
