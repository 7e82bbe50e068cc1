//! The runtime fingerprint: 64-bit FNV-1a over a byte encoding of a bound
//! runtime's immutable shape.

use vstd::prelude::*;

use vstd::utf8::encode_utf8;

use crate::catalog::{CalcOp, CompareOp, FlagPriority, KnotKind, SignalDomain, TimerMode};
use crate::signal::Signal;
use crate::weave::KnotDef;

verus! {

pub const FNV_OFFSET: u64 = 0xcbf2_9ce4_8422_2325;

pub const FNV_PRIME: u64 = 0x0100_0000_01b3;

/// One FNV-1a step.
pub open spec fn fnv_step(h: u64, b: u8) -> u64 {
    (h ^ (b as u64)).wrapping_mul(FNV_PRIME)
}

/// FNV-1a of `bytes` continuing from state `h`.
pub open spec fn fnv_fold(h: u64, bytes: Seq<u8>) -> u64
    decreases bytes.len(),
{
    if bytes.len() == 0 {
        h
    } else {
        fnv_step(fnv_fold(h, bytes.drop_last()), bytes.last())
    }
}

/// 64-bit FNV-1a of `bytes`.
pub open spec fn spec_fnv1a64(bytes: Seq<u8>) -> u64 {
    fnv_fold(FNV_OFFSET, bytes)
}

/// Continue an FNV-1a hash over `bytes`.
pub fn fnv_continue(h: u64, bytes: &[u8]) -> (r: u64)
    ensures
        r == fnv_fold(h, bytes@),
{
    let mut acc = h;
    let mut i: usize = 0;
    while i < bytes.len()
        invariant
            i <= bytes@.len(),
            acc == fnv_fold(h, bytes@.subrange(0, i as int)),
        decreases bytes@.len() - i,
    {
        proof {
            assert(bytes@.subrange(0, i + 1).drop_last() =~= bytes@.subrange(0, i as int));
        }
        acc = (acc ^ (bytes[i] as u64)).wrapping_mul(FNV_PRIME);
        i = i + 1;
    }
    assert(bytes@.subrange(0, bytes@.len() as int) =~= bytes@);
    acc
}

/// 64-bit FNV-1a of `bytes`.
pub fn fnv1a64(bytes: &[u8]) -> (r: u64)
    ensures
        r == spec_fnv1a64(bytes@),
{
    fnv_continue(FNV_OFFSET, bytes)
}

/// Folding over a concatenation folds over each part in turn.
pub broadcast proof fn lemma_fnv_fold_concat(h: u64, a: Seq<u8>, b: Seq<u8>)
    ensures
        #[trigger] fnv_fold(h, a + b) == fnv_fold(fnv_fold(h, a), b),
    decreases b.len(),
{
    if b.len() == 0 {
        assert(a + b =~= a);
    } else {
        assert((a + b).drop_last() =~= a + b.drop_last());
        lemma_fnv_fold_concat(h, a, b.drop_last());
    }
}

/// The two little-endian bytes of `v`.
pub open spec fn le_u16(v: u16) -> Seq<u8> {
    seq![(v & 0xff) as u8, (v >> 8u16) as u8]
}

/// The eight little-endian bytes of `v`.
pub open spec fn le_u64(v: u64) -> Seq<u8> {
    Seq::new(8, |j: int| ((v >> ((8 * j) as u64)) & 0xff) as u8)
}

/// The four little-endian bytes of a signal's two's-complement value.
pub open spec fn signal_bytes(v: Signal) -> Seq<u8> {
    Seq::new(4, |j: int| (((v as u32) >> ((8 * j) as u32)) & 0xff) as u8)
}

pub open spec fn domain_byte(d: SignalDomain) -> u8 {
    match d {
        SignalDomain::Bool => 0,
        SignalDomain::Level => 1,
        SignalDomain::Count => 2,
    }
}

pub open spec fn compare_byte(op: CompareOp) -> u8 {
    match op {
        CompareOp::Eq => 0,
        CompareOp::Ne => 1,
        CompareOp::Lt => 2,
        CompareOp::Lte => 3,
        CompareOp::Gt => 4,
        CompareOp::Gte => 5,
    }
}

pub open spec fn calc_byte(op: CalcOp) -> u8 {
    match op {
        CalcOp::Add => 0,
        CalcOp::Sub => 1,
        CalcOp::Mul => 2,
        CalcOp::Div => 3,
    }
}

pub open spec fn bool_byte(b: bool) -> u8 {
    if b { 1 } else { 0 }
}

/// The encoding of one knot kind: a tag byte, then its parameters.
pub open spec fn kind_bytes(kind: KnotKind) -> Seq<u8> {
    match kind {
        KnotKind::Constant { domain, value } => seq![0u8] + seq![domain_byte(domain)] + signal_bytes(value),
        KnotKind::SignalIn { domain } => seq![1u8] + seq![domain_byte(domain)],
        KnotKind::OnStart => seq![2u8],
        KnotKind::Not => seq![3u8],
        KnotKind::And { arity } => seq![4u8] + seq![arity],
        KnotKind::Or { arity } => seq![5u8] + seq![arity],
        KnotKind::Compare { domain, op, rhs_const } => seq![6u8] + seq![domain_byte(domain)] + seq![compare_byte(op)]
            + match rhs_const {
            Some(c) => seq![1u8] + signal_bytes(c),
            None => seq![0u8],
        },
        KnotKind::RisingFromZero => seq![7u8],
        KnotKind::Flag { priority, enable_toggle } => seq![8u8] + seq![
            match priority {
                FlagPriority::ResetWins => 0u8,
                FlagPriority::SetWins => 1u8,
            },
        ] + seq![bool_byte(enable_toggle)],
        KnotKind::Counter => seq![9u8],
        KnotKind::Timer { mode, ticks } => seq![10u8] + seq![
            match mode {
                TimerMode::FedCountdown => 0u8,
                TimerMode::PulseHold => 1u8,
            },
        ] + le_u16(ticks),
        KnotKind::Delay { ticks } => seq![11u8] + le_u16(ticks),
        KnotKind::Calc { domain, op } => seq![12u8] + seq![domain_byte(domain)] + seq![calc_byte(op)],
        KnotKind::MapRange { domain, in_min, in_max, out_min, out_max } => seq![13u8] + seq![domain_byte(domain)]
            + signal_bytes(in_min) + signal_bytes(in_max) + signal_bytes(out_min) + signal_bytes(out_max),
        KnotKind::Abs { domain } => seq![14u8] + seq![domain_byte(domain)],
        KnotKind::Neg { domain } => seq![15u8] + seq![domain_byte(domain)],
        KnotKind::Select => seq![16u8],
        KnotKind::Digitize { domain, steps, in_min, in_max, out_min, out_max } => seq![17u8] + seq![
            domain_byte(domain),
        ] + le_u16(steps) + signal_bytes(in_min) + signal_bytes(in_max) + signal_bytes(out_min) + signal_bytes(
            out_max,
        ),
        KnotKind::Threshold { domain, high, low, use_hysteresis } => seq![18u8] + seq![domain_byte(domain)]
            + signal_bytes(high) + signal_bytes(low) + seq![bool_byte(use_hysteresis)],
        KnotKind::Random { domain, require_gate } => seq![19u8] + seq![domain_byte(domain)] + seq![
            bool_byte(require_gate),
        ],
        KnotKind::Sqrt { domain } => seq![20u8] + seq![domain_byte(domain)],
        KnotKind::Xor => seq![21u8],
        KnotKind::FallingToZero => seq![22u8],
        KnotKind::Change => seq![23u8],
        KnotKind::Clamp { domain, min, max } => seq![24u8] + seq![domain_byte(domain)] + signal_bytes(min)
            + signal_bytes(max),
        KnotKind::Convert { from, to } => seq![25u8] + seq![domain_byte(from)] + seq![domain_byte(to)],
        KnotKind::SignalOut { path, domain } => seq![26u8] + encode_utf8(path@) + seq![0u8] + seq![
            domain_byte(domain),
        ],
        KnotKind::EmitCommand { name } => seq![27u8] + encode_utf8(name@) + seq![0u8],
    }
}



/// The byte a flag's priority encodes as.
pub open spec fn priority_byte(p: FlagPriority) -> u8 {
    match p {
        FlagPriority::ResetWins => 0u8,
        FlagPriority::SetWins => 1u8,
    }
}

/// The byte a timer's mode encodes as.
pub open spec fn mode_byte(m: TimerMode) -> u8 {
    match m {
        TimerMode::FedCountdown => 0u8,
        TimerMode::PulseHold => 1u8,
    }
}

/// The tag byte that opens the encoding of a knot kind.
pub open spec fn kind_code(kind: KnotKind) -> u8 {
    match kind {
        KnotKind::Constant { .. } => 0u8,
        KnotKind::SignalIn { .. } => 1u8,
        KnotKind::OnStart { .. } => 2u8,
        KnotKind::Not { .. } => 3u8,
        KnotKind::And { .. } => 4u8,
        KnotKind::Or { .. } => 5u8,
        KnotKind::Compare { .. } => 6u8,
        KnotKind::RisingFromZero { .. } => 7u8,
        KnotKind::Flag { .. } => 8u8,
        KnotKind::Counter { .. } => 9u8,
        KnotKind::Timer { .. } => 10u8,
        KnotKind::Delay { .. } => 11u8,
        KnotKind::Calc { .. } => 12u8,
        KnotKind::MapRange { .. } => 13u8,
        KnotKind::Abs { .. } => 14u8,
        KnotKind::Neg { .. } => 15u8,
        KnotKind::Select { .. } => 16u8,
        KnotKind::Digitize { .. } => 17u8,
        KnotKind::Threshold { .. } => 18u8,
        KnotKind::Random { .. } => 19u8,
        KnotKind::Sqrt { .. } => 20u8,
        KnotKind::Xor { .. } => 21u8,
        KnotKind::FallingToZero { .. } => 22u8,
        KnotKind::Change { .. } => 23u8,
        KnotKind::Clamp { .. } => 24u8,
        KnotKind::Convert { .. } => 25u8,
        KnotKind::SignalOut { .. } => 26u8,
        KnotKind::EmitCommand { .. } => 27u8,
    }
}

/// Every kind's encoding opens with its tag byte.
proof fn lemma_kind_code(kind: KnotKind)
    ensures
        kind_bytes(kind).len() >= 1,
        kind_bytes(kind)[0] == kind_code(kind),
{
    match kind {
        KnotKind::Constant { .. } => {
            assert(kind_bytes(kind)[0] == 0u8);
        },
        KnotKind::SignalIn { .. } => {
            assert(kind_bytes(kind)[0] == 1u8);
        },
        KnotKind::OnStart { .. } => {
            assert(kind_bytes(kind)[0] == 2u8);
        },
        KnotKind::Not { .. } => {
            assert(kind_bytes(kind)[0] == 3u8);
        },
        KnotKind::And { .. } => {
            assert(kind_bytes(kind)[0] == 4u8);
        },
        KnotKind::Or { .. } => {
            assert(kind_bytes(kind)[0] == 5u8);
        },
        KnotKind::Compare { .. } => {
            assert(kind_bytes(kind)[0] == 6u8);
        },
        KnotKind::RisingFromZero { .. } => {
            assert(kind_bytes(kind)[0] == 7u8);
        },
        KnotKind::Flag { .. } => {
            assert(kind_bytes(kind)[0] == 8u8);
        },
        KnotKind::Counter { .. } => {
            assert(kind_bytes(kind)[0] == 9u8);
        },
        KnotKind::Timer { .. } => {
            assert(kind_bytes(kind)[0] == 10u8);
        },
        KnotKind::Delay { .. } => {
            assert(kind_bytes(kind)[0] == 11u8);
        },
        KnotKind::Calc { .. } => {
            assert(kind_bytes(kind)[0] == 12u8);
        },
        KnotKind::MapRange { .. } => {
            assert(kind_bytes(kind)[0] == 13u8);
        },
        KnotKind::Abs { .. } => {
            assert(kind_bytes(kind)[0] == 14u8);
        },
        KnotKind::Neg { .. } => {
            assert(kind_bytes(kind)[0] == 15u8);
        },
        KnotKind::Select { .. } => {
            assert(kind_bytes(kind)[0] == 16u8);
        },
        KnotKind::Digitize { .. } => {
            assert(kind_bytes(kind)[0] == 17u8);
        },
        KnotKind::Threshold { .. } => {
            assert(kind_bytes(kind)[0] == 18u8);
        },
        KnotKind::Random { .. } => {
            assert(kind_bytes(kind)[0] == 19u8);
        },
        KnotKind::Sqrt { .. } => {
            assert(kind_bytes(kind)[0] == 20u8);
        },
        KnotKind::Xor { .. } => {
            assert(kind_bytes(kind)[0] == 21u8);
        },
        KnotKind::FallingToZero { .. } => {
            assert(kind_bytes(kind)[0] == 22u8);
        },
        KnotKind::Change { .. } => {
            assert(kind_bytes(kind)[0] == 23u8);
        },
        KnotKind::Clamp { .. } => {
            assert(kind_bytes(kind)[0] == 24u8);
        },
        KnotKind::Convert { .. } => {
            assert(kind_bytes(kind)[0] == 25u8);
        },
        KnotKind::SignalOut { .. } => {
            assert(kind_bytes(kind)[0] == 26u8);
        },
        KnotKind::EmitCommand { .. } => {
            assert(kind_bytes(kind)[0] == 27u8);
        },
    }
}

/// Two signals with the same four bytes are the same signal.
pub proof fn lemma_signal_bytes_injective(a: Signal, b: Signal)
    requires
        signal_bytes(a) == signal_bytes(b),
    ensures
        a == b,
{
    let x = a as u32;
    let y = b as u32;
    let b0 = signal_bytes(a)[0];
    let b1 = signal_bytes(a)[1];
    let b2 = signal_bytes(a)[2];
    let b3 = signal_bytes(a)[3];
    assert(b0 == signal_bytes(b)[0] && b1 == signal_bytes(b)[1] && b2 == signal_bytes(b)[2] && b3 == signal_bytes(b)[3]);
    assert(b0 == ((x >> 0u32) & 0xff) as u8 && b0 == ((y >> 0u32) & 0xff) as u8);
    assert(b1 == ((x >> 8u32) & 0xff) as u8 && b1 == ((y >> 8u32) & 0xff) as u8);
    assert(b2 == ((x >> 16u32) & 0xff) as u8 && b2 == ((y >> 16u32) & 0xff) as u8);
    assert(b3 == ((x >> 24u32) & 0xff) as u8 && b3 == ((y >> 24u32) & 0xff) as u8);
    assert(x == y) by (bit_vector)
        requires
            ((x >> 0u32) & 0xff) as u8 == ((y >> 0u32) & 0xff) as u8,
            ((x >> 8u32) & 0xff) as u8 == ((y >> 8u32) & 0xff) as u8,
            ((x >> 16u32) & 0xff) as u8 == ((y >> 16u32) & 0xff) as u8,
            ((x >> 24u32) & 0xff) as u8 == ((y >> 24u32) & 0xff) as u8,
    ;
    assert(a == b) by (bit_vector)
        requires
            a as u32 == b as u32,
    ;
}

/// Two tick counts with the same two bytes are the same count.
pub proof fn lemma_le_u16_injective(a: u16, b: u16)
    requires
        le_u16(a) == le_u16(b),
    ensures
        a == b,
{
    assert(le_u16(a)[0] == le_u16(b)[0] && le_u16(a)[1] == le_u16(b)[1]);
    assert(a == b) by (bit_vector)
        requires
            (a & 0xff) as u8 == (b & 0xff) as u8,
            (a >> 8u16) as u8 == (b >> 8u16) as u8,
    ;
}

/// Two kinds that encode alike, the first a `Constant`, are the same `Constant`.
#[verifier::rlimit(40)]
proof fn lemma_encoding_pins_constant(k1: KnotKind, k2: KnotKind)
    requires
        kind_bytes(k1) == kind_bytes(k2),
        k1 is Constant,
    ensures
        k1 == k2,
{
    lemma_kind_code(k1);
    lemma_kind_code(k2);
    let b = kind_bytes(k1);
    assert(k2 is Constant);
    assert(b[1] == domain_byte(k1->Constant_domain));
    assert(kind_bytes(k2)[1] == domain_byte(k2->Constant_domain));
    assert(k1->Constant_domain == k2->Constant_domain);
    assert(b.subrange(2, 6) =~= signal_bytes(k1->Constant_value));
    assert(kind_bytes(k2).subrange(2, 6) =~= signal_bytes(k2->Constant_value));
    lemma_signal_bytes_injective(k1->Constant_value, k2->Constant_value);
    assert(k1 == k2);
}

/// Two kinds that encode alike, the first a `SignalIn`, are the same `SignalIn`.
#[verifier::rlimit(40)]
proof fn lemma_encoding_pins_signal_in(k1: KnotKind, k2: KnotKind)
    requires
        kind_bytes(k1) == kind_bytes(k2),
        k1 is SignalIn,
    ensures
        k1 == k2,
{
    lemma_kind_code(k1);
    lemma_kind_code(k2);
    let b = kind_bytes(k1);
    assert(k2 is SignalIn);
    assert(b[1] == domain_byte(k1->SignalIn_domain));
    assert(kind_bytes(k2)[1] == domain_byte(k2->SignalIn_domain));
    assert(k1->SignalIn_domain == k2->SignalIn_domain);
    assert(k1 == k2);
}

/// Two kinds that encode alike, the first a `OnStart`, are the same `OnStart`.
#[verifier::rlimit(40)]
proof fn lemma_encoding_pins_on_start(k1: KnotKind, k2: KnotKind)
    requires
        kind_bytes(k1) == kind_bytes(k2),
        k1 is OnStart,
    ensures
        k1 == k2,
{
    lemma_kind_code(k1);
    lemma_kind_code(k2);
    let b = kind_bytes(k1);
    assert(k2 is OnStart);
    assert(k1 == k2);
}

/// Two kinds that encode alike, the first a `Not`, are the same `Not`.
#[verifier::rlimit(40)]
proof fn lemma_encoding_pins_not(k1: KnotKind, k2: KnotKind)
    requires
        kind_bytes(k1) == kind_bytes(k2),
        k1 is Not,
    ensures
        k1 == k2,
{
    lemma_kind_code(k1);
    lemma_kind_code(k2);
    let b = kind_bytes(k1);
    assert(k2 is Not);
    assert(k1 == k2);
}

/// Two kinds that encode alike, the first a `And`, are the same `And`.
#[verifier::rlimit(40)]
proof fn lemma_encoding_pins_and(k1: KnotKind, k2: KnotKind)
    requires
        kind_bytes(k1) == kind_bytes(k2),
        k1 is And,
    ensures
        k1 == k2,
{
    lemma_kind_code(k1);
    lemma_kind_code(k2);
    let b = kind_bytes(k1);
    assert(k2 is And);
    assert(b[1] == k1->And_arity);
    assert(kind_bytes(k2)[1] == k2->And_arity);
    assert(k1->And_arity == k2->And_arity);
    assert(k1 == k2);
}

/// Two kinds that encode alike, the first a `Or`, are the same `Or`.
#[verifier::rlimit(40)]
proof fn lemma_encoding_pins_or(k1: KnotKind, k2: KnotKind)
    requires
        kind_bytes(k1) == kind_bytes(k2),
        k1 is Or,
    ensures
        k1 == k2,
{
    lemma_kind_code(k1);
    lemma_kind_code(k2);
    let b = kind_bytes(k1);
    assert(k2 is Or);
    assert(b[1] == k1->Or_arity);
    assert(kind_bytes(k2)[1] == k2->Or_arity);
    assert(k1->Or_arity == k2->Or_arity);
    assert(k1 == k2);
}

/// Two kinds that encode alike, the first a `Compare`, are the same `Compare`.
#[verifier::rlimit(40)]
proof fn lemma_encoding_pins_compare(k1: KnotKind, k2: KnotKind)
    requires
        kind_bytes(k1) == kind_bytes(k2),
        k1 is Compare,
    ensures
        k1 == k2,
{
    lemma_kind_code(k1);
    lemma_kind_code(k2);
    let b = kind_bytes(k1);
    assert(k2 is Compare);
    assert(b[1] == domain_byte(k1->Compare_domain));
    assert(kind_bytes(k2)[1] == domain_byte(k2->Compare_domain));
    assert(k1->Compare_domain == k2->Compare_domain);
    assert(b[2] == compare_byte(k1->Compare_op));
    assert(kind_bytes(k2)[2] == compare_byte(k2->Compare_op));
    assert(k1->Compare_op == k2->Compare_op);
    match k1->Compare_rhs_const {
        Some(c1) => {
            assert(b[3] == 1u8);
            assert(k2->Compare_rhs_const is Some) by {
                if k2->Compare_rhs_const is None {
                    assert(kind_bytes(k2)[3] == 0u8);
                }
            }
            assert(b.subrange(4, 8) =~= signal_bytes(c1));
            assert(kind_bytes(k2).subrange(4, 8) =~= signal_bytes(k2->Compare_rhs_const->Some_0));
            lemma_signal_bytes_injective(c1, k2->Compare_rhs_const->Some_0);
        },
        None => {
            assert(b[3] == 0u8);
            assert(k2->Compare_rhs_const is None) by {
                if k2->Compare_rhs_const is Some {
                    assert(kind_bytes(k2)[3] == 1u8);
                }
            }
        },
    }
    assert(k1 == k2);
}

/// Two kinds that encode alike, the first a `RisingFromZero`, are the same `RisingFromZero`.
#[verifier::rlimit(40)]
proof fn lemma_encoding_pins_rising_from_zero(k1: KnotKind, k2: KnotKind)
    requires
        kind_bytes(k1) == kind_bytes(k2),
        k1 is RisingFromZero,
    ensures
        k1 == k2,
{
    lemma_kind_code(k1);
    lemma_kind_code(k2);
    let b = kind_bytes(k1);
    assert(k2 is RisingFromZero);
    assert(k1 == k2);
}

/// Two kinds that encode alike, the first a `Flag`, are the same `Flag`.
#[verifier::rlimit(40)]
proof fn lemma_encoding_pins_flag(k1: KnotKind, k2: KnotKind)
    requires
        kind_bytes(k1) == kind_bytes(k2),
        k1 is Flag,
    ensures
        k1 == k2,
{
    lemma_kind_code(k1);
    lemma_kind_code(k2);
    let b = kind_bytes(k1);
    assert(k2 is Flag);
    assert(b[1] == priority_byte(k1->Flag_priority));
    assert(kind_bytes(k2)[1] == priority_byte(k2->Flag_priority));
    assert(k1->Flag_priority == k2->Flag_priority);
    assert(b[2] == bool_byte(k1->Flag_enable_toggle));
    assert(kind_bytes(k2)[2] == bool_byte(k2->Flag_enable_toggle));
    assert(k1->Flag_enable_toggle == k2->Flag_enable_toggle);
    assert(k1 == k2);
}

/// Two kinds that encode alike, the first a `Counter`, are the same `Counter`.
#[verifier::rlimit(40)]
proof fn lemma_encoding_pins_counter(k1: KnotKind, k2: KnotKind)
    requires
        kind_bytes(k1) == kind_bytes(k2),
        k1 is Counter,
    ensures
        k1 == k2,
{
    lemma_kind_code(k1);
    lemma_kind_code(k2);
    let b = kind_bytes(k1);
    assert(k2 is Counter);
    assert(k1 == k2);
}

/// Two kinds that encode alike, the first a `Timer`, are the same `Timer`.
#[verifier::rlimit(40)]
proof fn lemma_encoding_pins_timer(k1: KnotKind, k2: KnotKind)
    requires
        kind_bytes(k1) == kind_bytes(k2),
        k1 is Timer,
    ensures
        k1 == k2,
{
    lemma_kind_code(k1);
    lemma_kind_code(k2);
    let b = kind_bytes(k1);
    assert(k2 is Timer);
    assert(b[1] == mode_byte(k1->Timer_mode));
    assert(kind_bytes(k2)[1] == mode_byte(k2->Timer_mode));
    assert(k1->Timer_mode == k2->Timer_mode);
    assert(b.subrange(2, 4) =~= le_u16(k1->Timer_ticks));
    assert(kind_bytes(k2).subrange(2, 4) =~= le_u16(k2->Timer_ticks));
    lemma_le_u16_injective(k1->Timer_ticks, k2->Timer_ticks);
    assert(k1 == k2);
}

/// Two kinds that encode alike, the first a `Delay`, are the same `Delay`.
#[verifier::rlimit(40)]
proof fn lemma_encoding_pins_delay(k1: KnotKind, k2: KnotKind)
    requires
        kind_bytes(k1) == kind_bytes(k2),
        k1 is Delay,
    ensures
        k1 == k2,
{
    lemma_kind_code(k1);
    lemma_kind_code(k2);
    let b = kind_bytes(k1);
    assert(k2 is Delay);
    assert(b.subrange(1, 3) =~= le_u16(k1->Delay_ticks));
    assert(kind_bytes(k2).subrange(1, 3) =~= le_u16(k2->Delay_ticks));
    lemma_le_u16_injective(k1->Delay_ticks, k2->Delay_ticks);
    assert(k1 == k2);
}

/// Two kinds that encode alike, the first a `Calc`, are the same `Calc`.
#[verifier::rlimit(40)]
proof fn lemma_encoding_pins_calc(k1: KnotKind, k2: KnotKind)
    requires
        kind_bytes(k1) == kind_bytes(k2),
        k1 is Calc,
    ensures
        k1 == k2,
{
    lemma_kind_code(k1);
    lemma_kind_code(k2);
    let b = kind_bytes(k1);
    assert(k2 is Calc);
    assert(b[1] == domain_byte(k1->Calc_domain));
    assert(kind_bytes(k2)[1] == domain_byte(k2->Calc_domain));
    assert(k1->Calc_domain == k2->Calc_domain);
    assert(b[2] == calc_byte(k1->Calc_op));
    assert(kind_bytes(k2)[2] == calc_byte(k2->Calc_op));
    assert(k1->Calc_op == k2->Calc_op);
    assert(k1 == k2);
}

/// Two kinds that encode alike, the first a `MapRange`, are the same `MapRange`.
#[verifier::rlimit(40)]
proof fn lemma_encoding_pins_map_range(k1: KnotKind, k2: KnotKind)
    requires
        kind_bytes(k1) == kind_bytes(k2),
        k1 is MapRange,
    ensures
        k1 == k2,
{
    lemma_kind_code(k1);
    lemma_kind_code(k2);
    let b = kind_bytes(k1);
    assert(k2 is MapRange);
    assert(b[1] == domain_byte(k1->MapRange_domain));
    assert(kind_bytes(k2)[1] == domain_byte(k2->MapRange_domain));
    assert(k1->MapRange_domain == k2->MapRange_domain);
    assert(b.subrange(2, 6) =~= signal_bytes(k1->MapRange_in_min));
    assert(kind_bytes(k2).subrange(2, 6) =~= signal_bytes(k2->MapRange_in_min));
    lemma_signal_bytes_injective(k1->MapRange_in_min, k2->MapRange_in_min);
    assert(b.subrange(6, 10) =~= signal_bytes(k1->MapRange_in_max));
    assert(kind_bytes(k2).subrange(6, 10) =~= signal_bytes(k2->MapRange_in_max));
    lemma_signal_bytes_injective(k1->MapRange_in_max, k2->MapRange_in_max);
    assert(b.subrange(10, 14) =~= signal_bytes(k1->MapRange_out_min));
    assert(kind_bytes(k2).subrange(10, 14) =~= signal_bytes(k2->MapRange_out_min));
    lemma_signal_bytes_injective(k1->MapRange_out_min, k2->MapRange_out_min);
    assert(b.subrange(14, 18) =~= signal_bytes(k1->MapRange_out_max));
    assert(kind_bytes(k2).subrange(14, 18) =~= signal_bytes(k2->MapRange_out_max));
    lemma_signal_bytes_injective(k1->MapRange_out_max, k2->MapRange_out_max);
    assert(k1 == k2);
}

/// Two kinds that encode alike, the first a `Abs`, are the same `Abs`.
#[verifier::rlimit(40)]
proof fn lemma_encoding_pins_abs(k1: KnotKind, k2: KnotKind)
    requires
        kind_bytes(k1) == kind_bytes(k2),
        k1 is Abs,
    ensures
        k1 == k2,
{
    lemma_kind_code(k1);
    lemma_kind_code(k2);
    let b = kind_bytes(k1);
    assert(k2 is Abs);
    assert(b[1] == domain_byte(k1->Abs_domain));
    assert(kind_bytes(k2)[1] == domain_byte(k2->Abs_domain));
    assert(k1->Abs_domain == k2->Abs_domain);
    assert(k1 == k2);
}

/// Two kinds that encode alike, the first a `Neg`, are the same `Neg`.
#[verifier::rlimit(40)]
proof fn lemma_encoding_pins_neg(k1: KnotKind, k2: KnotKind)
    requires
        kind_bytes(k1) == kind_bytes(k2),
        k1 is Neg,
    ensures
        k1 == k2,
{
    lemma_kind_code(k1);
    lemma_kind_code(k2);
    let b = kind_bytes(k1);
    assert(k2 is Neg);
    assert(b[1] == domain_byte(k1->Neg_domain));
    assert(kind_bytes(k2)[1] == domain_byte(k2->Neg_domain));
    assert(k1->Neg_domain == k2->Neg_domain);
    assert(k1 == k2);
}

/// Two kinds that encode alike, the first a `Select`, are the same `Select`.
#[verifier::rlimit(40)]
proof fn lemma_encoding_pins_select(k1: KnotKind, k2: KnotKind)
    requires
        kind_bytes(k1) == kind_bytes(k2),
        k1 is Select,
    ensures
        k1 == k2,
{
    lemma_kind_code(k1);
    lemma_kind_code(k2);
    let b = kind_bytes(k1);
    assert(k2 is Select);
    assert(k1 == k2);
}

/// Two kinds that encode alike, the first a `Digitize`, are the same `Digitize`.
#[verifier::rlimit(40)]
proof fn lemma_encoding_pins_digitize(k1: KnotKind, k2: KnotKind)
    requires
        kind_bytes(k1) == kind_bytes(k2),
        k1 is Digitize,
    ensures
        k1 == k2,
{
    lemma_kind_code(k1);
    lemma_kind_code(k2);
    let b = kind_bytes(k1);
    assert(k2 is Digitize);
    assert(b[1] == domain_byte(k1->Digitize_domain));
    assert(kind_bytes(k2)[1] == domain_byte(k2->Digitize_domain));
    assert(k1->Digitize_domain == k2->Digitize_domain);
    assert(b.subrange(2, 4) =~= le_u16(k1->Digitize_steps));
    assert(kind_bytes(k2).subrange(2, 4) =~= le_u16(k2->Digitize_steps));
    lemma_le_u16_injective(k1->Digitize_steps, k2->Digitize_steps);
    assert(b.subrange(4, 8) =~= signal_bytes(k1->Digitize_in_min));
    assert(kind_bytes(k2).subrange(4, 8) =~= signal_bytes(k2->Digitize_in_min));
    lemma_signal_bytes_injective(k1->Digitize_in_min, k2->Digitize_in_min);
    assert(b.subrange(8, 12) =~= signal_bytes(k1->Digitize_in_max));
    assert(kind_bytes(k2).subrange(8, 12) =~= signal_bytes(k2->Digitize_in_max));
    lemma_signal_bytes_injective(k1->Digitize_in_max, k2->Digitize_in_max);
    assert(b.subrange(12, 16) =~= signal_bytes(k1->Digitize_out_min));
    assert(kind_bytes(k2).subrange(12, 16) =~= signal_bytes(k2->Digitize_out_min));
    lemma_signal_bytes_injective(k1->Digitize_out_min, k2->Digitize_out_min);
    assert(b.subrange(16, 20) =~= signal_bytes(k1->Digitize_out_max));
    assert(kind_bytes(k2).subrange(16, 20) =~= signal_bytes(k2->Digitize_out_max));
    lemma_signal_bytes_injective(k1->Digitize_out_max, k2->Digitize_out_max);
    assert(k1 == k2);
}

/// Two kinds that encode alike, the first a `Threshold`, are the same `Threshold`.
#[verifier::rlimit(40)]
proof fn lemma_encoding_pins_threshold(k1: KnotKind, k2: KnotKind)
    requires
        kind_bytes(k1) == kind_bytes(k2),
        k1 is Threshold,
    ensures
        k1 == k2,
{
    lemma_kind_code(k1);
    lemma_kind_code(k2);
    let b = kind_bytes(k1);
    assert(k2 is Threshold);
    assert(b[1] == domain_byte(k1->Threshold_domain));
    assert(kind_bytes(k2)[1] == domain_byte(k2->Threshold_domain));
    assert(k1->Threshold_domain == k2->Threshold_domain);
    assert(b.subrange(2, 6) =~= signal_bytes(k1->Threshold_high));
    assert(kind_bytes(k2).subrange(2, 6) =~= signal_bytes(k2->Threshold_high));
    lemma_signal_bytes_injective(k1->Threshold_high, k2->Threshold_high);
    assert(b.subrange(6, 10) =~= signal_bytes(k1->Threshold_low));
    assert(kind_bytes(k2).subrange(6, 10) =~= signal_bytes(k2->Threshold_low));
    lemma_signal_bytes_injective(k1->Threshold_low, k2->Threshold_low);
    assert(b[10] == bool_byte(k1->Threshold_use_hysteresis));
    assert(kind_bytes(k2)[10] == bool_byte(k2->Threshold_use_hysteresis));
    assert(k1->Threshold_use_hysteresis == k2->Threshold_use_hysteresis);
    assert(k1 == k2);
}

/// Two kinds that encode alike, the first a `Random`, are the same `Random`.
#[verifier::rlimit(40)]
proof fn lemma_encoding_pins_random(k1: KnotKind, k2: KnotKind)
    requires
        kind_bytes(k1) == kind_bytes(k2),
        k1 is Random,
    ensures
        k1 == k2,
{
    lemma_kind_code(k1);
    lemma_kind_code(k2);
    let b = kind_bytes(k1);
    assert(k2 is Random);
    assert(b[1] == domain_byte(k1->Random_domain));
    assert(kind_bytes(k2)[1] == domain_byte(k2->Random_domain));
    assert(k1->Random_domain == k2->Random_domain);
    assert(b[2] == bool_byte(k1->Random_require_gate));
    assert(kind_bytes(k2)[2] == bool_byte(k2->Random_require_gate));
    assert(k1->Random_require_gate == k2->Random_require_gate);
    assert(k1 == k2);
}

/// Two kinds that encode alike, the first a `Sqrt`, are the same `Sqrt`.
#[verifier::rlimit(40)]
proof fn lemma_encoding_pins_sqrt(k1: KnotKind, k2: KnotKind)
    requires
        kind_bytes(k1) == kind_bytes(k2),
        k1 is Sqrt,
    ensures
        k1 == k2,
{
    lemma_kind_code(k1);
    lemma_kind_code(k2);
    let b = kind_bytes(k1);
    assert(k2 is Sqrt);
    assert(b[1] == domain_byte(k1->Sqrt_domain));
    assert(kind_bytes(k2)[1] == domain_byte(k2->Sqrt_domain));
    assert(k1->Sqrt_domain == k2->Sqrt_domain);
    assert(k1 == k2);
}

/// Two kinds that encode alike, the first a `Xor`, are the same `Xor`.
#[verifier::rlimit(40)]
proof fn lemma_encoding_pins_xor(k1: KnotKind, k2: KnotKind)
    requires
        kind_bytes(k1) == kind_bytes(k2),
        k1 is Xor,
    ensures
        k1 == k2,
{
    lemma_kind_code(k1);
    lemma_kind_code(k2);
    let b = kind_bytes(k1);
    assert(k2 is Xor);
    assert(k1 == k2);
}

/// Two kinds that encode alike, the first a `FallingToZero`, are the same `FallingToZero`.
#[verifier::rlimit(40)]
proof fn lemma_encoding_pins_falling_to_zero(k1: KnotKind, k2: KnotKind)
    requires
        kind_bytes(k1) == kind_bytes(k2),
        k1 is FallingToZero,
    ensures
        k1 == k2,
{
    lemma_kind_code(k1);
    lemma_kind_code(k2);
    let b = kind_bytes(k1);
    assert(k2 is FallingToZero);
    assert(k1 == k2);
}

/// Two kinds that encode alike, the first a `Change`, are the same `Change`.
#[verifier::rlimit(40)]
proof fn lemma_encoding_pins_change(k1: KnotKind, k2: KnotKind)
    requires
        kind_bytes(k1) == kind_bytes(k2),
        k1 is Change,
    ensures
        k1 == k2,
{
    lemma_kind_code(k1);
    lemma_kind_code(k2);
    let b = kind_bytes(k1);
    assert(k2 is Change);
    assert(k1 == k2);
}

/// Two kinds that encode alike, the first a `Clamp`, are the same `Clamp`.
#[verifier::rlimit(40)]
proof fn lemma_encoding_pins_clamp(k1: KnotKind, k2: KnotKind)
    requires
        kind_bytes(k1) == kind_bytes(k2),
        k1 is Clamp,
    ensures
        k1 == k2,
{
    lemma_kind_code(k1);
    lemma_kind_code(k2);
    let b = kind_bytes(k1);
    assert(k2 is Clamp);
    assert(b[1] == domain_byte(k1->Clamp_domain));
    assert(kind_bytes(k2)[1] == domain_byte(k2->Clamp_domain));
    assert(k1->Clamp_domain == k2->Clamp_domain);
    assert(b.subrange(2, 6) =~= signal_bytes(k1->Clamp_min));
    assert(kind_bytes(k2).subrange(2, 6) =~= signal_bytes(k2->Clamp_min));
    lemma_signal_bytes_injective(k1->Clamp_min, k2->Clamp_min);
    assert(b.subrange(6, 10) =~= signal_bytes(k1->Clamp_max));
    assert(kind_bytes(k2).subrange(6, 10) =~= signal_bytes(k2->Clamp_max));
    lemma_signal_bytes_injective(k1->Clamp_max, k2->Clamp_max);
    assert(k1 == k2);
}

/// Two kinds that encode alike, the first a `Convert`, are the same `Convert`.
#[verifier::rlimit(40)]
proof fn lemma_encoding_pins_convert(k1: KnotKind, k2: KnotKind)
    requires
        kind_bytes(k1) == kind_bytes(k2),
        k1 is Convert,
    ensures
        k1 == k2,
{
    lemma_kind_code(k1);
    lemma_kind_code(k2);
    let b = kind_bytes(k1);
    assert(k2 is Convert);
    assert(b[1] == domain_byte(k1->Convert_from));
    assert(kind_bytes(k2)[1] == domain_byte(k2->Convert_from));
    assert(k1->Convert_from == k2->Convert_from);
    assert(b[2] == domain_byte(k1->Convert_to));
    assert(kind_bytes(k2)[2] == domain_byte(k2->Convert_to));
    assert(k1->Convert_to == k2->Convert_to);
    assert(k1 == k2);
}

/// Two output or command kinds that encode alike name the same text (as
/// UTF-8), and two outputs that encode alike share their domain: the
/// fingerprint covers a knot's name and domain as well.
pub proof fn law_named_kind_bytes(k1: KnotKind, k2: KnotKind)
    requires
        kind_bytes(k1) == kind_bytes(k2),
        k1 is SignalOut || k1 is EmitCommand,
    ensures
        k1 is SignalOut ==> k2 is SignalOut && k1->SignalOut_domain == k2->SignalOut_domain && encode_utf8(
            k1->SignalOut_path@,
        ) == encode_utf8(k2->SignalOut_path@),
        k1 is EmitCommand ==> k2 is EmitCommand && encode_utf8(k1->EmitCommand_name@) == encode_utf8(
            k2->EmitCommand_name@,
        ),
{
    lemma_kind_code(k1);
    lemma_kind_code(k2);
    let b = kind_bytes(k1);
    if k1 is SignalOut {
        assert(k2 is SignalOut);
        let e1 = encode_utf8(k1->SignalOut_path@);
        let e2 = encode_utf8(k2->SignalOut_path@);
        assert(b.len() == e1.len() + 3 && b.len() == e2.len() + 3);
        assert(b.subrange(1, e1.len() as int + 1) =~= e1);
        assert(kind_bytes(k2).subrange(1, e2.len() as int + 1) =~= e2);
        assert(b[b.len() - 1] == domain_byte(k1->SignalOut_domain));
        assert(kind_bytes(k2)[b.len() - 1] == domain_byte(k2->SignalOut_domain));
    } else {
        assert(k2 is EmitCommand);
        let e1 = encode_utf8(k1->EmitCommand_name@);
        let e2 = encode_utf8(k2->EmitCommand_name@);
        assert(b.len() == e1.len() + 2 && b.len() == e2.len() + 2);
        assert(b.subrange(1, e1.len() as int + 1) =~= e1);
        assert(kind_bytes(k2).subrange(1, e2.len() as int + 1) =~= e2);
    }
}

/// Two resolved threads that encode alike are the same thread: the
/// fingerprint covers both ends of every thread.
pub proof fn law_thread_bytes_injective(a: (u16, u8, u16, u8), b: (u16, u8, u16, u8))
    requires
        thread_bytes(a) == thread_bytes(b),
    ensures
        a == b,
{
    let x = thread_bytes(a);
    let y = thread_bytes(b);
    assert(x.subrange(0, 2) =~= le_u16(a.0) && y.subrange(0, 2) =~= le_u16(b.0));
    lemma_le_u16_injective(a.0, b.0);
    assert(x[2] == a.1 && y[2] == b.1);
    assert(x.subrange(3, 5) =~= le_u16(a.2) && y.subrange(3, 5) =~= le_u16(b.2));
    lemma_le_u16_injective(a.2, b.2);
    assert(x[5] == a.3 && y[5] == b.3);
}

/// Two bind seeds that encode alike are the same seed: the fingerprint
/// tells a seeded bind from an unseeded one, and one seed from another.
pub proof fn law_seed_bytes_injective(a: Option<u64>, b: Option<u64>)
    requires
        seed_bytes(a) == seed_bytes(b),
    ensures
        a == b,
{
    assert(seed_bytes(a)[0] == seed_bytes(b)[0]);
    assert(seed_bytes(a)[0] == (if a is Some { 1u8 } else { 0u8 }));
    assert(seed_bytes(b)[0] == (if b is Some { 1u8 } else { 0u8 }));
    if a is Some && b is Some {
        let x = a->Some_0;
        let y = b->Some_0;
        assert(seed_bytes(a).subrange(1, 9) =~= le_u64(x));
        assert(seed_bytes(b).subrange(1, 9) =~= le_u64(y));
        assert forall|j: int| 0 <= j < 8 implies #[trigger] le_u64(x)[j] == le_u64(y)[j] by {}
        let b0 = le_u64(x)[0];
        assert(b0 == ((x >> 0u64) & 0xff) as u8 && b0 == ((y >> 0u64) & 0xff) as u8);
        assert(le_u64(x)[1] == ((x >> 8u64) & 0xff) as u8 && le_u64(y)[1] == ((y >> 8u64) & 0xff) as u8);
        assert(le_u64(x)[2] == ((x >> 16u64) & 0xff) as u8 && le_u64(y)[2] == ((y >> 16u64) & 0xff) as u8);
        assert(le_u64(x)[3] == ((x >> 24u64) & 0xff) as u8 && le_u64(y)[3] == ((y >> 24u64) & 0xff) as u8);
        assert(le_u64(x)[4] == ((x >> 32u64) & 0xff) as u8 && le_u64(y)[4] == ((y >> 32u64) & 0xff) as u8);
        assert(le_u64(x)[5] == ((x >> 40u64) & 0xff) as u8 && le_u64(y)[5] == ((y >> 40u64) & 0xff) as u8);
        assert(le_u64(x)[6] == ((x >> 48u64) & 0xff) as u8 && le_u64(y)[6] == ((y >> 48u64) & 0xff) as u8);
        assert(le_u64(x)[7] == ((x >> 56u64) & 0xff) as u8 && le_u64(y)[7] == ((y >> 56u64) & 0xff) as u8);
        assert(x == y) by (bit_vector)
            requires
                ((x >> 0u64) & 0xff) as u8 == ((y >> 0u64) & 0xff) as u8,
                ((x >> 8u64) & 0xff) as u8 == ((y >> 8u64) & 0xff) as u8,
                ((x >> 16u64) & 0xff) as u8 == ((y >> 16u64) & 0xff) as u8,
                ((x >> 24u64) & 0xff) as u8 == ((y >> 24u64) & 0xff) as u8,
                ((x >> 32u64) & 0xff) as u8 == ((y >> 32u64) & 0xff) as u8,
                ((x >> 40u64) & 0xff) as u8 == ((y >> 40u64) & 0xff) as u8,
                ((x >> 48u64) & 0xff) as u8 == ((y >> 48u64) & 0xff) as u8,
                ((x >> 56u64) & 0xff) as u8 == ((y >> 56u64) & 0xff) as u8,
        ;
    }
}

/// The encoding of a knot kind without names is one-to-one: two such kinds
/// encode alike only when they are the same kind with the same parameters,
/// so the runtime fingerprint covers every parameter of every such knot.
pub proof fn law_kind_bytes_injective(k1: KnotKind, k2: KnotKind)
    requires
        kind_bytes(k1) == kind_bytes(k2),
        !(k1 is SignalOut),
        !(k1 is EmitCommand),
    ensures
        k1 == k2,
{
    match k1 {
        KnotKind::Constant { .. } => lemma_encoding_pins_constant(k1, k2),
        KnotKind::SignalIn { .. } => lemma_encoding_pins_signal_in(k1, k2),
        KnotKind::OnStart { .. } => lemma_encoding_pins_on_start(k1, k2),
        KnotKind::Not { .. } => lemma_encoding_pins_not(k1, k2),
        KnotKind::And { .. } => lemma_encoding_pins_and(k1, k2),
        KnotKind::Or { .. } => lemma_encoding_pins_or(k1, k2),
        KnotKind::Compare { .. } => lemma_encoding_pins_compare(k1, k2),
        KnotKind::RisingFromZero { .. } => lemma_encoding_pins_rising_from_zero(k1, k2),
        KnotKind::Flag { .. } => lemma_encoding_pins_flag(k1, k2),
        KnotKind::Counter { .. } => lemma_encoding_pins_counter(k1, k2),
        KnotKind::Timer { .. } => lemma_encoding_pins_timer(k1, k2),
        KnotKind::Delay { .. } => lemma_encoding_pins_delay(k1, k2),
        KnotKind::Calc { .. } => lemma_encoding_pins_calc(k1, k2),
        KnotKind::MapRange { .. } => lemma_encoding_pins_map_range(k1, k2),
        KnotKind::Abs { .. } => lemma_encoding_pins_abs(k1, k2),
        KnotKind::Neg { .. } => lemma_encoding_pins_neg(k1, k2),
        KnotKind::Select { .. } => lemma_encoding_pins_select(k1, k2),
        KnotKind::Digitize { .. } => lemma_encoding_pins_digitize(k1, k2),
        KnotKind::Threshold { .. } => lemma_encoding_pins_threshold(k1, k2),
        KnotKind::Random { .. } => lemma_encoding_pins_random(k1, k2),
        KnotKind::Sqrt { .. } => lemma_encoding_pins_sqrt(k1, k2),
        KnotKind::Xor { .. } => lemma_encoding_pins_xor(k1, k2),
        KnotKind::FallingToZero { .. } => lemma_encoding_pins_falling_to_zero(k1, k2),
        KnotKind::Change { .. } => lemma_encoding_pins_change(k1, k2),
        KnotKind::Clamp { .. } => lemma_encoding_pins_clamp(k1, k2),
        KnotKind::Convert { .. } => lemma_encoding_pins_convert(k1, k2),
        _ => {},
    }
}

/// The kinds of `ks`, encoded in order.
pub open spec fn knots_bytes(ks: Seq<KnotDef>) -> Seq<u8>
    decreases ks.len(),
{
    if ks.len() == 0 {
        Seq::empty()
    } else {
        knots_bytes(ks.drop_last()) + kind_bytes(ks.last().kind)
    }
}

/// One resolved thread: from knot, from slot, to knot, to slot.
pub open spec fn thread_bytes(t: (u16, u8, u16, u8)) -> Seq<u8> {
    le_u16(t.0) + seq![t.1] + le_u16(t.2) + seq![t.3]
}

pub open spec fn threads_bytes(ts: Seq<(u16, u8, u16, u8)>) -> Seq<u8>
    decreases ts.len(),
{
    if ts.len() == 0 {
        Seq::empty()
    } else {
        threads_bytes(ts.drop_last()) + thread_bytes(ts.last())
    }
}

/// Each name's UTF-8 bytes, each followed by `0xff`.
pub open spec fn names_bytes(ns: Seq<String>) -> Seq<u8>
    decreases ns.len(),
{
    if ns.len() == 0 {
        Seq::empty()
    } else {
        names_bytes(ns.drop_last()) + encode_utf8(ns.last()@) + seq![0xffu8]
    }
}

/// The encoding the fingerprint hashes: a format tag, then the knot kinds,
/// the resolved threads, the interned paths and commands (each list after
/// its length), the signal representation tag, the emit cap and the seed
/// mix.
pub open spec fn fingerprint_bytes(
    knots: Seq<KnotDef>,
    threads: Seq<(u16, u8, u16, u8)>,
    path_names: Seq<String>,
    cmd_names: Seq<String>,
    max_emits_per_tick: u16,
    seed_mix: u64,
    bind_seed: Option<u64>,
) -> Seq<u8> {
    encode_utf8("wyrd-runtime-state-v1"@) + le_u64(knots.len() as u64) + knots_bytes(knots) + le_u64(
        threads.len() as u64,
    ) + threads_bytes(threads) + le_u64(path_names.len() as u64) + names_bytes(path_names) + le_u64(
        cmd_names.len() as u64,
    ) + names_bytes(cmd_names) + seq![2u8] + le_u16(max_emits_per_tick) + le_u64(seed_mix) + seed_bytes(
        bind_seed,
    )
}

/// The seed given at bind, if any: `1` and its eight bytes, else `0`.
pub open spec fn seed_bytes(seed: Option<u64>) -> Seq<u8> {
    match seed {
        Some(s) => seq![1u8] + le_u64(s),
        None => seq![0u8],
    }
}

/// The fingerprint of a runtime with these tables.
pub open spec fn spec_fingerprint_of(
    knots: Seq<KnotDef>,
    threads: Seq<(u16, u8, u16, u8)>,
    path_names: Seq<String>,
    cmd_names: Seq<String>,
    max_emits_per_tick: u16,
    seed_mix: u64,
    bind_seed: Option<u64>,
) -> u64 {
    spec_fnv1a64(fingerprint_bytes(knots, threads, path_names, cmd_names, max_emits_per_tick, seed_mix, bind_seed))
}

fn fnv_u8(h: u64, b: u8) -> (r: u64)
    ensures
        r == fnv_fold(h, seq![b]),
{
    proof {
        let s = seq![b];
        assert(s.drop_last() =~= Seq::<u8>::empty());
        assert(fnv_fold(h, s.drop_last()) == h);
        assert(s.last() == b);
    }
    (h ^ (b as u64)).wrapping_mul(FNV_PRIME)
}

fn fnv_u16(h: u64, v: u16) -> (r: u64)
    ensures
        r == fnv_fold(h, le_u16(v)),
{
    broadcast use lemma_fnv_fold_concat;

    let h1 = fnv_u8(h, (v & 0xff) as u8);
    let h2 = fnv_u8(h1, (v >> 8) as u8);
    assert(le_u16(v) =~= seq![(v & 0xff) as u8] + seq![(v >> 8u16) as u8]);
    h2
}

fn fnv_u64(h: u64, v: u64) -> (r: u64)
    ensures
        r == fnv_fold(h, le_u64(v)),
{
    broadcast use lemma_fnv_fold_concat;

    let ghost bytes = le_u64(v);
    let mut acc = h;
    let mut i: u64 = 0;
    while i < 8
        invariant
            i <= 8,
            bytes == le_u64(v),
            acc == fnv_fold(h, bytes.subrange(0, i as int)),
        decreases 8 - i,
    {
        let b = ((v >> (8 * i)) & 0xff) as u8;
        assert(bytes.subrange(0, i + 1) =~= bytes.subrange(0, i as int) + seq![b]);
        proof {
            lemma_fnv_fold_concat(h, bytes.subrange(0, i as int), seq![b]);
        }
        acc = fnv_u8(acc, b);
        i = i + 1;
    }
    assert(bytes.subrange(0, 8) =~= bytes);
    acc
}

/// Hash the four little-endian bytes of a signal.
fn fnv_signal(h: u64, v: Signal) -> (r: u64)
    ensures
        r == fnv_fold(h, signal_bytes(v)),
{
    broadcast use lemma_fnv_fold_concat;

    let ghost bytes = signal_bytes(v);
    let u = v as u32;
    let mut acc = h;
    let mut i: u32 = 0;
    while i < 4
        invariant
            i <= 4,
            u == v as u32,
            bytes == signal_bytes(v),
            acc == fnv_fold(h, bytes.subrange(0, i as int)),
        decreases 4 - i,
    {
        let b = ((u >> (8 * i)) & 0xff) as u8;
        assert(bytes.subrange(0, i + 1) =~= bytes.subrange(0, i as int) + seq![b]);
        proof {
            lemma_fnv_fold_concat(h, bytes.subrange(0, i as int), seq![b]);
        }
        acc = fnv_u8(acc, b);
        i = i + 1;
    }
    assert(bytes.subrange(0, 4) =~= bytes);
    acc
}

fn domain_code(d: SignalDomain) -> (r: u8)
    ensures
        r == domain_byte(d),
{
    match d {
        SignalDomain::Bool => 0,
        SignalDomain::Level => 1,
        SignalDomain::Count => 2,
    }
}

/// Hash one knot kind and its parameters.
fn fingerprint_knot(h: u64, kind: &KnotKind) -> (r: u64)
    ensures
        r == fnv_fold(h, kind_bytes(*kind)),
{
    broadcast use lemma_fnv_fold_concat;

    match kind {
        KnotKind::Constant { domain, value } => fnv_signal(fnv_u8(fnv_u8(h, 0), domain_code(*domain)), *value),
        KnotKind::SignalIn { domain } => fnv_u8(fnv_u8(h, 1), domain_code(*domain)),
        KnotKind::OnStart => fnv_u8(h, 2),
        KnotKind::Not => fnv_u8(h, 3),
        KnotKind::And { arity } => fnv_u8(fnv_u8(h, 4), *arity),
        KnotKind::Or { arity } => fnv_u8(fnv_u8(h, 5), *arity),
        KnotKind::Compare { domain, op, rhs_const } => {
            let o: u8 = match op {
                CompareOp::Eq => 0,
                CompareOp::Ne => 1,
                CompareOp::Lt => 2,
                CompareOp::Lte => 3,
                CompareOp::Gt => 4,
                CompareOp::Gte => 5,
            };
            let h = fnv_u8(fnv_u8(fnv_u8(h, 6), domain_code(*domain)), o);
            match rhs_const {
                Some(c) => fnv_signal(fnv_u8(h, 1), *c),
                None => fnv_u8(h, 0),
            }
        },
        KnotKind::RisingFromZero => fnv_u8(h, 7),
        KnotKind::Flag { priority, enable_toggle } => {
            let pr: u8 = match priority {
                FlagPriority::ResetWins => 0,
                FlagPriority::SetWins => 1,
            };
            fnv_u8(fnv_u8(fnv_u8(h, 8), pr), if *enable_toggle { 1 } else { 0 })
        },
        KnotKind::Counter => fnv_u8(h, 9),
        KnotKind::Timer { mode, ticks } => {
            let m: u8 = match mode {
                TimerMode::FedCountdown => 0,
                TimerMode::PulseHold => 1,
            };
            fnv_u16(fnv_u8(fnv_u8(h, 10), m), *ticks)
        },
        KnotKind::Delay { ticks } => fnv_u16(fnv_u8(h, 11), *ticks),
        KnotKind::Calc { domain, op } => {
            let o: u8 = match op {
                CalcOp::Add => 0,
                CalcOp::Sub => 1,
                CalcOp::Mul => 2,
                CalcOp::Div => 3,
            };
            fnv_u8(fnv_u8(fnv_u8(h, 12), domain_code(*domain)), o)
        },
        KnotKind::MapRange { domain, in_min, in_max, out_min, out_max } => {
            let h = fnv_u8(fnv_u8(h, 13), domain_code(*domain));
            fnv_signal(fnv_signal(fnv_signal(fnv_signal(h, *in_min), *in_max), *out_min), *out_max)
        },
        KnotKind::Abs { domain } => fnv_u8(fnv_u8(h, 14), domain_code(*domain)),
        KnotKind::Neg { domain } => fnv_u8(fnv_u8(h, 15), domain_code(*domain)),
        KnotKind::Select => fnv_u8(h, 16),
        KnotKind::Digitize { domain, steps, in_min, in_max, out_min, out_max } => {
            let h = fnv_u16(fnv_u8(fnv_u8(h, 17), domain_code(*domain)), *steps);
            fnv_signal(fnv_signal(fnv_signal(fnv_signal(h, *in_min), *in_max), *out_min), *out_max)
        },
        KnotKind::Threshold { domain, high, low, use_hysteresis } => {
            let h = fnv_signal(fnv_signal(fnv_u8(fnv_u8(h, 18), domain_code(*domain)), *high), *low);
            fnv_u8(h, if *use_hysteresis { 1 } else { 0 })
        },
        KnotKind::Random { domain, require_gate } => fnv_u8(
            fnv_u8(fnv_u8(h, 19), domain_code(*domain)),
            if *require_gate { 1 } else { 0 },
        ),
        KnotKind::Sqrt { domain } => fnv_u8(fnv_u8(h, 20), domain_code(*domain)),
        KnotKind::Xor => fnv_u8(h, 21),
        KnotKind::FallingToZero => fnv_u8(h, 22),
        KnotKind::Change => fnv_u8(h, 23),
        KnotKind::Clamp { domain, min, max } => fnv_signal(
            fnv_signal(fnv_u8(fnv_u8(h, 24), domain_code(*domain)), *min),
            *max,
        ),
        KnotKind::Convert { from, to } => fnv_u8(fnv_u8(fnv_u8(h, 25), domain_code(*from)), domain_code(*to)),
        KnotKind::SignalOut { path, domain } => {
            let h = fnv_continue(fnv_u8(h, 26), path.as_str().as_bytes());
            fnv_u8(fnv_u8(h, 0), domain_code(*domain))
        },
        KnotKind::EmitCommand { name } => {
            let h = fnv_continue(fnv_u8(h, 27), name.as_str().as_bytes());
            fnv_u8(h, 0)
        },
    }
}

/// Hash one resolved thread.
fn fingerprint_thread(h: u64, t: (u16, u8, u16, u8)) -> (r: u64)
    ensures
        r == fnv_fold(h, thread_bytes(t)),
{
    broadcast use lemma_fnv_fold_concat;

    let (a, b, c, d) = t;
    fnv_u8(fnv_u16(fnv_u8(fnv_u16(h, a), b), c), d)
}

/// Hash each resolved thread in order.
fn fingerprint_threads(h: u64, threads: &Vec<(u16, u8, u16, u8)>) -> (r: u64)
    ensures
        r == fnv_fold(h, threads_bytes(threads@)),
{
    let mut acc = h;
    let mut t: usize = 0;
    while t < threads.len()
        invariant
            t <= threads@.len(),
            acc == fnv_fold(h, threads_bytes(threads@.subrange(0, t as int))),
        decreases threads@.len() - t,
    {
        let ghost prev = threads@.subrange(0, t as int);
        assert(threads@.subrange(0, t + 1).drop_last() =~= prev);
        proof {
            lemma_fnv_fold_concat(h, threads_bytes(prev), thread_bytes(threads@[t as int]));
        }
        acc = fingerprint_thread(acc, threads[t]);
        t = t + 1;
    }
    assert(threads@.subrange(0, threads@.len() as int) =~= threads@);
    acc
}

/// Hash each name's bytes, each followed by `0xff`.
fn fingerprint_names(h: u64, names: &Vec<String>) -> (r: u64)
    ensures
        r == fnv_fold(h, names_bytes(names@)),
{
    broadcast use lemma_fnv_fold_concat;

    let mut acc = h;
    let mut j: usize = 0;
    while j < names.len()
        invariant
            j <= names@.len(),
            acc == fnv_fold(h, names_bytes(names@.subrange(0, j as int))),
        decreases names@.len() - j,
    {
        let ghost prev = names@.subrange(0, j as int);
        assert(names@.subrange(0, j + 1).drop_last() =~= prev);
        proof {
            let x = names_bytes(prev);
            let y = encode_utf8(names@[j as int]@);
            lemma_fnv_fold_concat(h, x + y, seq![0xffu8]);
            lemma_fnv_fold_concat(h, x, y);
        }
        acc = fnv_u8(fnv_continue(acc, names[j].as_str().as_bytes()), 0xff);
        j = j + 1;
    }
    assert(names@.subrange(0, names@.len() as int) =~= names@);
    acc
}

/// The fingerprint of the immutable shape of a bound runtime: knot kinds,
/// resolved threads, interned names, emit cap, seed mix and bind seed.
pub fn runtime_fingerprint_for(
    knots: &Vec<KnotDef>,
    threads: &Vec<(u16, u8, u16, u8)>,
    path_names: &Vec<String>,
    cmd_names: &Vec<String>,
    max_emits_per_tick: u16,
    seed_mix: u64,
    bind_seed: Option<u64>,
) -> (r: u64)
    ensures
        r == spec_fingerprint_of(knots@, threads@, path_names@, cmd_names@, max_emits_per_tick, seed_mix, bind_seed),
{
    broadcast use lemma_fnv_fold_concat;

    let h0 = fnv_continue(FNV_OFFSET, "wyrd-runtime-state-v1".as_bytes());
    let h1 = fnv_u64(h0, knots.len() as u64);
    let mut h = h1;
    let mut i: usize = 0;
    while i < knots.len()
        invariant
            i <= knots@.len(),
            h == fnv_fold(h1, knots_bytes(knots@.subrange(0, i as int))),
        decreases knots@.len() - i,
    {
        let ghost prev = knots@.subrange(0, i as int);
        assert(knots@.subrange(0, i + 1).drop_last() =~= prev);
        proof {
            lemma_fnv_fold_concat(h1, knots_bytes(prev), kind_bytes(knots@[i as int].kind));
        }
        h = fingerprint_knot(h, &knots[i].kind);
        i = i + 1;
    }
    assert(knots@.subrange(0, knots@.len() as int) =~= knots@);
    let h2 = fingerprint_threads(fnv_u64(h, threads.len() as u64), threads);
    let h3 = fingerprint_names(fnv_u64(h2, path_names.len() as u64), path_names);
    let h4 = fingerprint_names(fnv_u64(h3, cmd_names.len() as u64), cmd_names);
    let h5 = fnv_u64(fnv_u16(fnv_u8(h4, 2), max_emits_per_tick), seed_mix);
    match bind_seed {
        Some(seed) => fnv_u64(fnv_u8(h5, 1), seed),
        None => fnv_u8(h5, 0),
    }
}

} // verus!
