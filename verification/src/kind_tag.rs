//! Bind-time dispatch tags: one per knot, carrying the precomputed
//! parameters that [`crate::runtime::Runtime::loom`] evaluates.

use vstd::prelude::*;

use crate::catalog::{CalcOp, CompareOp, FlagPriority, KnotKind, SignalDomain, TimerMode};
use crate::signal::{clamp_int, lemma_scaled_quotient_bounded, spec_map, trunc_div, I32MapPlan, Signal};

verus! {

/// Quantize `i` into `steps` bins over `[in_min, in_max]`, mapping bin `k`
/// onto `out_min + k * (out_max - out_min) / (steps - 1)` (rounding toward
/// zero). An empty or inverted input range, or fewer than two steps, yields
/// `out_min`.
pub open spec fn spec_digitize(i: i32, steps: u16, in_min: i32, in_max: i32, out_min: i32, out_max: i32) -> i32 {
    let den = in_max - in_min;
    if den <= 0 || steps < 2 {
        out_min
    } else {
        let t = clamp_int(i - in_min, 0, den);
        let raw = (t * steps) / den;
        let bin = if raw > steps - 1 {
            steps - 1
        } else {
            raw
        };
        (out_min + trunc_div(bin * (out_max - out_min), steps - 1)) as i32
    }
}

/// Bind-time form of a digitizer.
#[derive(Clone, Copy, Debug, PartialEq, Eq)]
pub struct DigitizePlan {
    pub degenerate: bool,
    pub in_min: i32,
    pub out_min: i32,
    pub steps: u16,
    pub last: u16,
    pub den: i64,
    pub out_span: i64,
}

/// A bin index times a span, divided by the last bin, stays within the span.
proof fn lemma_bin_in_span(bin: int, last: int, span: int)
    requires
        0 <= bin <= last,
        last > 0,
    ensures
        span >= 0 ==> 0 <= trunc_div(bin * span, last) <= span,
        span < 0 ==> span <= trunc_div(bin * span, last) <= 0,
{
    lemma_scaled_quotient_bounded(bin, last, span);
}

impl DigitizePlan {
    pub open spec fn wf(self) -> bool {
        self.degenerate || {
            &&& 0 < self.den < 0x1_0000_0000
            &&& self.steps >= 2
            &&& self.last == self.steps - 1
            &&& i32::MIN <= self.out_min + self.out_span <= i32::MAX
        }
    }

    /// Precompute the digitizer for the given range and step count.
    pub fn precompute(steps: u16, in_min: i32, in_max: i32, out_min: i32, out_max: i32) -> (p: DigitizePlan)
        ensures
            p.wf(),
            forall|i: i32| #[trigger] p.spec_apply(i) == spec_digitize(i, steps, in_min, in_max, out_min, out_max),
    {
        let den: i64 = in_max as i64 - in_min as i64;
        let span: i64 = out_max as i64 - out_min as i64;
        if den <= 0 || steps < 2 {
            DigitizePlan { degenerate: true, in_min, out_min, steps, last: 0, den: 0, out_span: 0 }
        } else {
            DigitizePlan { degenerate: false, in_min, out_min, steps, last: steps - 1, den, out_span: span }
        }
    }

    pub open spec fn spec_apply(self, i: i32) -> i32 {
        if self.degenerate {
            self.out_min
        } else {
            let t = clamp_int(i - self.in_min, 0, self.den as int);
            let raw = (t * self.steps) / (self.den as int);
            let bin = if raw > self.last {
                self.last as int
            } else {
                raw
            };
            (self.out_min + trunc_div(bin * self.out_span, self.last as int)) as i32
        }
    }

    /// Digitize one sample.
    pub fn apply(&self, i: Signal) -> (r: Signal)
        requires
            self.wf(),
        ensures
            r == self.spec_apply(i),
    {
        if self.degenerate {
            return self.out_min;
        }
        let raw_t: i64 = i as i64 - self.in_min as i64;
        let t: i64 = if raw_t < 0 {
            0
        } else if raw_t > self.den {
            self.den
        } else {
            raw_t
        };
        assert(0 <= t * (self.steps as int) <= 0x1_0000_0000 * 0x10000) by (nonlinear_arith)
            requires
                0 <= t < 0x1_0000_0000,
                0 <= self.steps < 0x10000,
        ;
        let raw: i64 = t * (self.steps as i64) / self.den;
        assert(raw >= 0) by (nonlinear_arith)
            requires
                t >= 0,
                self.steps >= 0,
                self.den > 0,
                raw == t * (self.steps as int) / (self.den as int),
        ;
        let last: i64 = self.last as i64;
        let bin: i64 = if raw > last {
            last
        } else {
            raw
        };
        proof {
            lemma_bin_in_span(bin as int, last as int, self.out_span as int);
        }
        assert(-0x1_0000_0000 * 0x10000 <= bin * self.out_span <= 0x1_0000_0000 * 0x10000) by (nonlinear_arith)
            requires
                0 <= bin < 0x10000,
                -0x1_0000_0000 <= self.out_span <= 0x1_0000_0000,
        ;
        let prod: i64 = bin * self.out_span;
        let q: i64 = prod / last;
        assert(q == trunc_div(prod as int, last as int));
        (self.out_min as i64 + q) as i32
    }
}

/// Digitize `i` exactly as a bound `Digitize` knot does.
pub fn digitize(i: Signal, steps: u16, in_min: Signal, in_max: Signal, out_min: Signal, out_max: Signal) -> (r: Signal)
    ensures
        r == spec_digitize(i, steps, in_min, in_max, out_min, out_max),
{
    let p = DigitizePlan::precompute(steps, in_min, in_max, out_min, out_max);
    p.apply(i)
}

/// Remap `i` exactly as a bound `MapRange` knot does.
pub fn map_linear(i: Signal, in_min: Signal, in_max: Signal, out_min: Signal, out_max: Signal) -> (r: Signal)
    ensures
        r == spec_map(i, in_min, in_max, out_min, out_max),
{
    let p = I32MapPlan::precompute(in_min, in_max, out_min, out_max);
    p.apply(i)
}

/// How a `Convert` knot changes representation.
#[derive(Clone, Copy, Debug, PartialEq, Eq, Structural)]
pub enum ConvertMode {
    Identity,
    BoolToCount,
    ToBool,
    LevelToCount,
    CountToLevel,
}

pub open spec fn spec_convert_mode(from: SignalDomain, to: SignalDomain) -> ConvertMode {
    match (from, to) {
        (SignalDomain::Bool, SignalDomain::Count) => ConvertMode::BoolToCount,
        (SignalDomain::Level, SignalDomain::Bool) | (SignalDomain::Count, SignalDomain::Bool) => ConvertMode::ToBool,
        (SignalDomain::Level, SignalDomain::Count) => ConvertMode::LevelToCount,
        (SignalDomain::Count, SignalDomain::Level) => ConvertMode::CountToLevel,
        _ => ConvertMode::Identity,
    }
}

/// One knot's dispatch tag with its bind-time parameters.
#[derive(Clone, Copy, Debug, PartialEq, Eq)]
pub enum KindTag {
    /// `Constant`, `SignalIn` and `OnStart`: seeded, never evaluated.
    Sense,
    Not,
    And { arity: u8 },
    Or { arity: u8 },
    RisingFromZero,
    FallingToZero,
    Change,
    Compare { op: CompareOp, rhs_const: Option<Signal> },
    Flag { priority: FlagPriority, enable_toggle: bool },
    Counter,
    TimerPulseHold { ticks: u16 },
    TimerFedCountdown { ticks: u16 },
    Delay { ticks: u16 },
    CalcAdd { domain: SignalDomain },
    CalcSub { domain: SignalDomain },
    CalcMulLevel,
    CalcMulCount,
    CalcDivLevel,
    CalcDivCount,
    CalcDivLevelConst { divisor: Signal },
    CalcDivCountConst { divisor: Signal },
    Abs { domain: SignalDomain },
    Neg { domain: SignalDomain },
    MapRange { plan: I32MapPlan },
    Select,
    Digitize { plan: DigitizePlan },
    Threshold { high: Signal, low: Signal, use_hysteresis: bool },
    RandomLevel { require_gate: bool, min_wired: bool, max_wired: bool },
    RandomCount { require_gate: bool, min_wired: bool, max_wired: bool },
    SqrtLevel,
    SqrtCount,
    Convert { mode: ConvertMode },
    Xor,
    Clamp { min: Signal, max: Signal },
    SignalOut,
    EmitCommand { enable_wired: bool },
}

impl KindTag {
    /// The tag parameters are usable by the evaluator.
    pub open spec fn wf(self) -> bool {
        match self {
            KindTag::And { arity } | KindTag::Or { arity } => 2 <= arity <= 4,
            KindTag::MapRange { plan } => plan.wf(),
            KindTag::Digitize { plan } => plan.wf(),
            _ => true,
        }
    }

    /// Seeded knots carry no evaluation.
    pub open spec fn is_sense(self) -> bool {
        self is Sense
    }

    /// `self` is the tag of `kind` before wiring-dependent refinement: equal
    /// to the fixed tag of the kind, or, for `MapRange` and `Digitize`, a plan
    /// that computes the kind's remap.
    pub open spec fn tags_kind(self, kind: KnotKind) -> bool {
        match kind {
            KnotKind::MapRange { in_min, in_max, out_min, out_max, .. } => self matches KindTag::MapRange { plan } && plan.wf()
                && forall|i: i32| #[trigger] plan.spec_apply(i) == spec_map(i, in_min, in_max, out_min, out_max) as int,
            KnotKind::Digitize { steps, in_min, in_max, out_min, out_max, .. } => self matches KindTag::Digitize { plan }
                && plan.wf() && forall|i: i32| #[trigger] plan.spec_apply(i) == spec_digitize(i, steps, in_min, in_max, out_min, out_max),
            _ => self == KindTag::spec_from_kind(kind),
        }
    }

    /// The fixed tag of a knot kind (the plans of `MapRange` and `Digitize`
    /// are described by [`KindTag::tags_kind`]).
    pub open spec fn spec_from_kind(kind: KnotKind) -> KindTag {
        match kind {
            KnotKind::Constant { .. } | KnotKind::SignalIn { .. } | KnotKind::OnStart => KindTag::Sense,
            KnotKind::Not => KindTag::Not,
            KnotKind::And { arity } => KindTag::And { arity },
            KnotKind::Or { arity } => KindTag::Or { arity },
            KnotKind::RisingFromZero => KindTag::RisingFromZero,
            KnotKind::FallingToZero => KindTag::FallingToZero,
            KnotKind::Change => KindTag::Change,
            KnotKind::Compare { op, rhs_const, .. } => KindTag::Compare { op, rhs_const },
            KnotKind::Flag { priority, enable_toggle } => KindTag::Flag { priority, enable_toggle },
            KnotKind::Counter => KindTag::Counter,
            KnotKind::Timer { mode, ticks } => match mode {
                TimerMode::PulseHold => KindTag::TimerPulseHold { ticks },
                TimerMode::FedCountdown => KindTag::TimerFedCountdown { ticks },
            },
            KnotKind::Delay { ticks } => KindTag::Delay { ticks },
            KnotKind::Calc { domain, op } => match op {
                CalcOp::Add => KindTag::CalcAdd { domain },
                CalcOp::Sub => KindTag::CalcSub { domain },
                CalcOp::Mul => if domain == SignalDomain::Count {
                    KindTag::CalcMulCount
                } else {
                    KindTag::CalcMulLevel
                },
                CalcOp::Div => if domain == SignalDomain::Count {
                    KindTag::CalcDivCount
                } else {
                    KindTag::CalcDivLevel
                },
            },
            KnotKind::MapRange { in_min, in_max, out_min, out_max, .. } => KindTag::MapRange {
                plan: I32MapPlan::Constant { out: out_min },
            },
            KnotKind::Abs { domain } => KindTag::Abs { domain },
            KnotKind::Neg { domain } => KindTag::Neg { domain },
            KnotKind::Select => KindTag::Select,
            KnotKind::Digitize { out_min, .. } => KindTag::Digitize {
                plan: DigitizePlan { degenerate: true, in_min: 0, out_min, steps: 0, last: 0, den: 0, out_span: 0 },
            },
            KnotKind::Threshold { high, low, use_hysteresis, .. } => KindTag::Threshold { high, low, use_hysteresis },
            KnotKind::Random { domain, require_gate } => if domain == SignalDomain::Count {
                KindTag::RandomCount { require_gate, min_wired: false, max_wired: false }
            } else {
                KindTag::RandomLevel { require_gate, min_wired: false, max_wired: false }
            },
            KnotKind::Sqrt { domain } => if domain == SignalDomain::Count {
                KindTag::SqrtCount
            } else {
                KindTag::SqrtLevel
            },
            KnotKind::Convert { from, to } => KindTag::Convert { mode: spec_convert_mode(from, to) },
            KnotKind::Xor => KindTag::Xor,
            KnotKind::Clamp { min, max, .. } => KindTag::Clamp { min, max },
            KnotKind::SignalOut { .. } => KindTag::SignalOut,
            KnotKind::EmitCommand { .. } => KindTag::EmitCommand { enable_wired: false },
        }
    }
}

fn is_count(d: SignalDomain) -> (r: bool)
    ensures
        r == (d == SignalDomain::Count),
{
    match d {
        SignalDomain::Count => true,
        _ => false,
    }
}

/// How a `Convert` knot from `from` to `to` changes its input.
pub fn convert_mode(from: SignalDomain, to: SignalDomain) -> (m: ConvertMode)
    ensures
        m == spec_convert_mode(from, to),
{
    match (from, to) {
        (SignalDomain::Bool, SignalDomain::Count) => ConvertMode::BoolToCount,
        (SignalDomain::Level, SignalDomain::Bool) | (SignalDomain::Count, SignalDomain::Bool) => ConvertMode::ToBool,
        (SignalDomain::Level, SignalDomain::Count) => ConvertMode::LevelToCount,
        (SignalDomain::Count, SignalDomain::Level) => ConvertMode::CountToLevel,
        _ => ConvertMode::Identity,
    }
}

/// The dispatch tag of `kind`, before wiring-dependent refinement. The
/// `MapRange` and `Digitize` plans are determined by what they compute.
pub fn tag_from_kind(kind: &KnotKind) -> (t: KindTag)
    ensures
        crate::validate::param_fault(*kind) is None ==> t.wf(),
        t.tags_kind(*kind),
{
    match kind {
        KnotKind::Constant { .. } | KnotKind::SignalIn { .. } | KnotKind::OnStart => KindTag::Sense,
        KnotKind::Not => KindTag::Not,
        KnotKind::And { arity } => KindTag::And { arity: *arity },
        KnotKind::Or { arity } => KindTag::Or { arity: *arity },
        KnotKind::RisingFromZero => KindTag::RisingFromZero,
        KnotKind::FallingToZero => KindTag::FallingToZero,
        KnotKind::Change => KindTag::Change,
        KnotKind::Compare { op, rhs_const, .. } => KindTag::Compare { op: *op, rhs_const: *rhs_const },
        KnotKind::Flag { priority, enable_toggle } => KindTag::Flag { priority: *priority, enable_toggle: *enable_toggle },
        KnotKind::Counter => KindTag::Counter,
        KnotKind::Timer { mode, ticks } => match mode {
            TimerMode::PulseHold => KindTag::TimerPulseHold { ticks: *ticks },
            TimerMode::FedCountdown => KindTag::TimerFedCountdown { ticks: *ticks },
        },
        KnotKind::Delay { ticks } => KindTag::Delay { ticks: *ticks },
        KnotKind::Calc { domain, op } => match op {
            CalcOp::Add => KindTag::CalcAdd { domain: *domain },
            CalcOp::Sub => KindTag::CalcSub { domain: *domain },
            CalcOp::Mul => if is_count(*domain) {
                KindTag::CalcMulCount
            } else {
                KindTag::CalcMulLevel
            },
            CalcOp::Div => if is_count(*domain) {
                KindTag::CalcDivCount
            } else {
                KindTag::CalcDivLevel
            },
        },
        KnotKind::MapRange { in_min, in_max, out_min, out_max, .. } => KindTag::MapRange {
            plan: I32MapPlan::precompute(*in_min, *in_max, *out_min, *out_max),
        },
        KnotKind::Abs { domain } => KindTag::Abs { domain: *domain },
        KnotKind::Neg { domain } => KindTag::Neg { domain: *domain },
        KnotKind::Select => KindTag::Select,
        KnotKind::Digitize { steps, in_min, in_max, out_min, out_max, .. } => KindTag::Digitize {
            plan: DigitizePlan::precompute(*steps, *in_min, *in_max, *out_min, *out_max),
        },
        KnotKind::Threshold { high, low, use_hysteresis, .. } => KindTag::Threshold {
            high: *high,
            low: *low,
            use_hysteresis: *use_hysteresis,
        },
        KnotKind::Random { domain, require_gate } => if is_count(*domain) {
            KindTag::RandomCount { require_gate: *require_gate, min_wired: false, max_wired: false }
        } else {
            KindTag::RandomLevel { require_gate: *require_gate, min_wired: false, max_wired: false }
        },
        KnotKind::Sqrt { domain } => if is_count(*domain) {
            KindTag::SqrtCount
        } else {
            KindTag::SqrtLevel
        },
        KnotKind::Convert { from, to } => KindTag::Convert { mode: convert_mode(*from, *to) },
        KnotKind::Xor => KindTag::Xor,
        KnotKind::Clamp { min, max, .. } => KindTag::Clamp { min: *min, max: *max },
        KnotKind::SignalOut { .. } => KindTag::SignalOut,
        KnotKind::EmitCommand { .. } => KindTag::EmitCommand { enable_wired: false },
    }
}

} // verus!
