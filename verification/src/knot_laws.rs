//! What each knot kind computes when a loom evaluates it: the laws of the
//! settle, stated over a knot's inputs, its previous state and what the
//! evaluation leaves behind.

use vstd::prelude::*;

use crate::catalog::{CompareOp, FlagPriority};
use crate::kind_tag::{ConvertMode, KindTag};
use crate::loom::{is_pure, knot_ports, step};
use crate::runtime::{port_index, MAX_PORTS};
use crate::settle::{eval_dyn, Dyn, Tables};
use crate::kind_tag::spec_digitize;
use crate::signal::{
    abs_int, clamp_int, lemma_scaled_quotient_bounded, spec_level_to_count, spec_map, trunc_div, truthy, Signal, ONE, ZERO,
};

verus! {

/// Knot `k` has its eight ports and its state in `d`.
pub open spec fn knot_fits(d: Dyn, k: int) -> bool {
    &&& 0 <= k
    &&& port_index(k, MAX_PORTS as int) <= d.ports.len()
    &&& k < d.prev_in.len()
    &&& k < d.prev_dec.len()
    &&& k < d.counter.len()
    &&& k < d.flag.len()
    &&& k < d.timer_left.len()
}

/// Port `s` of knot `k` in `d`.
pub open spec fn port_at(d: Dyn, k: int, s: int) -> Signal {
    d.ports[port_index(k, s)]
}

/// A signal that reads as a Bool: `ONE` or `ZERO`.
pub open spec fn is_bool(v: Signal) -> bool {
    v == ONE || v == ZERO
}

/// Evaluating a knot of a kind that [`step`] describes writes the ports and
/// state that `step` gives, and nothing else of the knot's inputs.
proof fn lemma_pure_eval(t: Tables, d: Dyn, k: int)
    requires
        knot_fits(d, k),
        k < t.tags.len(),
        is_pure(t.tags[k]),
    ensures
        ({
            let r = step(t.tags[k], knot_ports(d.ports, k), crate::settle::state_in(d, k));
            let e = eval_dyn(t, d, k);
            &&& forall|s: int| 0 <= s < MAX_PORTS ==> #[trigger] port_at(e, k, s) == r.0[s]
            &&& e.prev_in == d.prev_in.update(k, r.1.prev_in)
            &&& e.prev_dec == d.prev_dec.update(k, r.1.prev_dec)
            &&& e.counter == d.counter.update(k, r.1.counter)
            &&& e.flag == d.flag.update(k, r.1.flag)
            &&& e.timer_left == d.timer_left.update(k, r.1.timer_left)
        }),
        forall|s: int| 0 <= s < MAX_PORTS ==> #[trigger] knot_ports(d.ports, k)[s] == port_at(d, k, s),
{
    let p = knot_ports(d.ports, k);
    assert forall|s: int| 0 <= s < MAX_PORTS implies #[trigger] p[s] == port_at(d, k, s) by {}
    let e = eval_dyn(t, d, k);
    let r = step(t.tags[k], p, crate::settle::state_in(d, k));
    assert forall|s: int| 0 <= s < MAX_PORTS implies #[trigger] port_at(e, k, s) == r.0[s] by {
        assert(port_index(k, s) - port_index(k, 0) == s);
    }
}

/// `Not` outputs the Bool negation of its input's truthiness and keeps no
/// state.
pub proof fn law_not(t: Tables, d: Dyn, k: int)
    requires
        knot_fits(d, k),
        k < t.tags.len(),
        t.tags[k] == KindTag::Not,
    ensures
        ({
            let e = eval_dyn(t, d, k);
            let o = port_at(e, k, 1);
            &&& truthy(port_at(d, k, 0)) ==> o == ZERO
            &&& !truthy(port_at(d, k, 0)) ==> o == ONE
            &&& port_at(e, k, 0) == port_at(d, k, 0)
            &&& e.prev_in == d.prev_in && e.flag == d.flag && e.counter == d.counter && e.timer_left == d.timer_left
        }),
{
    lemma_pure_eval(t, d, k);
    assert(d.prev_in.update(k, d.prev_in[k]) =~= d.prev_in);
    assert(d.flag.update(k, d.flag[k]) =~= d.flag);
    assert(d.counter.update(k, d.counter[k]) =~= d.counter);
    assert(d.timer_left.update(k, d.timer_left[k]) =~= d.timer_left);
}

/// `And` of arity `n` outputs `ONE` exactly when all of its `n` inputs are
/// truthy, else `ZERO`, on the slot after its inputs.
pub proof fn law_and(t: Tables, d: Dyn, k: int, n: u8)
    requires
        knot_fits(d, k),
        k < t.tags.len(),
        t.tags[k] == (KindTag::And { arity: n }),
        2 <= n <= 4,
    ensures
        ({
            let o = port_at(eval_dyn(t, d, k), k, n as int);
            &&& is_bool(o)
            &&& truthy(o) <==> forall|s: int| 0 <= s < n ==> truthy(#[trigger] port_at(d, k, s))
        }),
{
    lemma_pure_eval(t, d, k);
    let p = knot_ports(d.ports, k);
    if forall|s: int| 0 <= s < n ==> truthy(#[trigger] port_at(d, k, s)) {
        assert forall|s: int| 0 <= s < n implies truthy(#[trigger] p[s]) by {
            assert(truthy(port_at(d, k, s)));
        }
    } else {
        let s = choose|s: int| 0 <= s < n && !truthy(#[trigger] port_at(d, k, s));
        assert(!truthy(p[s]));
    }
}

/// `Or` of arity `n` outputs `ONE` exactly when some of its `n` inputs is
/// truthy, else `ZERO`.
pub proof fn law_or(t: Tables, d: Dyn, k: int, n: u8)
    requires
        knot_fits(d, k),
        k < t.tags.len(),
        t.tags[k] == (KindTag::Or { arity: n }),
        2 <= n <= 4,
    ensures
        ({
            let o = port_at(eval_dyn(t, d, k), k, n as int);
            &&& is_bool(o)
            &&& truthy(o) <==> exists|s: int| 0 <= s < n && truthy(#[trigger] port_at(d, k, s))
        }),
{
    lemma_pure_eval(t, d, k);
    let p = knot_ports(d.ports, k);
    if exists|s: int| 0 <= s < n && truthy(#[trigger] port_at(d, k, s)) {
        let s = choose|s: int| 0 <= s < n && truthy(#[trigger] port_at(d, k, s));
        assert(truthy(p[s]));
    } else {
        assert forall|s: int| 0 <= s < n implies !truthy(#[trigger] p[s]) by {
            assert(!truthy(port_at(d, k, s)));
        }
    }
}

/// `Xor` outputs `ONE` when exactly one of its two inputs is truthy and
/// `ZERO` when both or neither are; it keeps no state.
pub proof fn law_xor(t: Tables, d: Dyn, k: int)
    requires
        knot_fits(d, k),
        k < t.tags.len(),
        t.tags[k] == KindTag::Xor,
    ensures
        ({
            let e = eval_dyn(t, d, k);
            let a = truthy(port_at(d, k, 0));
            let b = truthy(port_at(d, k, 1));
            let o = port_at(e, k, 2);
            &&& a && b ==> o == ZERO
            &&& !a && !b ==> o == ZERO
            &&& a && !b ==> o == ONE
            &&& !a && b ==> o == ONE
            &&& port_at(e, k, 0) == port_at(d, k, 0) && port_at(e, k, 1) == port_at(d, k, 1)
            &&& e.prev_in == d.prev_in && e.flag == d.flag && e.counter == d.counter && e.timer_left == d.timer_left
        }),
{
    lemma_pure_eval(t, d, k);
    assert(d.prev_in.update(k, d.prev_in[k]) =~= d.prev_in);
    assert(d.flag.update(k, d.flag[k]) =~= d.flag);
    assert(d.counter.update(k, d.counter[k]) =~= d.counter);
    assert(d.timer_left.update(k, d.timer_left[k]) =~= d.timer_left);
}

/// `RisingFromZero` outputs `ONE` exactly on a frame whose input is truthy
/// after a falsy one, and remembers the input.
pub proof fn law_rising(t: Tables, d: Dyn, k: int)
    requires
        knot_fits(d, k),
        k < t.tags.len(),
        t.tags[k] == KindTag::RisingFromZero,
    ensures
        ({
            let e = eval_dyn(t, d, k);
            let before = truthy(d.prev_in[k]);
            let now = truthy(port_at(d, k, 0));
            let o = port_at(e, k, 1);
            &&& !before && now ==> o == ONE
            &&& before ==> o == ZERO
            &&& !now ==> o == ZERO
            &&& e.prev_in[k] == port_at(d, k, 0)
        }),
{
    lemma_pure_eval(t, d, k);
}

/// `FallingToZero` outputs `ONE` exactly on a frame whose input is falsy
/// after a truthy one, and remembers the input.
pub proof fn law_falling(t: Tables, d: Dyn, k: int)
    requires
        knot_fits(d, k),
        k < t.tags.len(),
        t.tags[k] == KindTag::FallingToZero,
    ensures
        ({
            let e = eval_dyn(t, d, k);
            let before = truthy(d.prev_in[k]);
            let now = truthy(port_at(d, k, 0));
            let o = port_at(e, k, 1);
            &&& before && !now ==> o == ONE
            &&& !before ==> o == ZERO
            &&& now ==> o == ZERO
            &&& e.prev_in[k] == port_at(d, k, 0)
        }),
{
    lemma_pure_eval(t, d, k);
}

/// `Change` outputs `ONE` whenever its input's truthiness differs from the
/// previous frame's, rising and falling alike, `ZERO` while it holds, and
/// remembers the input.
pub proof fn law_change(t: Tables, d: Dyn, k: int)
    requires
        knot_fits(d, k),
        k < t.tags.len(),
        t.tags[k] == KindTag::Change,
    ensures
        ({
            let e = eval_dyn(t, d, k);
            let before = truthy(d.prev_in[k]);
            let now = truthy(port_at(d, k, 0));
            let o = port_at(e, k, 1);
            &&& !before && now ==> o == ONE
            &&& before && !now ==> o == ONE
            &&& before == now ==> o == ZERO
            &&& e.prev_in[k] == port_at(d, k, 0)
        }),
{
    lemma_pure_eval(t, d, k);
}

/// A `Counter` (inputs inc, dec, reset; output count): a truthy reset
/// restarts from zero, a rising inc adds one and a rising dec takes one
/// away (saturating); a held inc or dec changes nothing; the new count is
/// the output, and the inputs are remembered for the next frame.
pub proof fn law_counter(t: Tables, d: Dyn, k: int)
    requires
        knot_fits(d, k),
        k < t.tags.len(),
        t.tags[k] == KindTag::Counter,
    ensures
        ({
            let e = eval_dyn(t, d, k);
            let inc = port_at(d, k, 0);
            let dec = port_at(d, k, 1);
            let reset = truthy(port_at(d, k, 2));
            let up = !truthy(d.prev_in[k]) && truthy(inc);
            let down = !truthy(d.prev_dec[k]) && truthy(dec);
            let c = d.counter[k];
            let c2 = e.counter[k];
            &&& port_at(e, k, 3) == c2
            &&& e.prev_in[k] == inc
            &&& e.prev_dec[k] == dec
            &&& !up && !down && !reset ==> c2 == c
            &&& !up && !down && reset ==> c2 == 0
            &&& up && !down && !reset && c < i32::MAX ==> c2 == c + 1
            &&& !up && down && !reset && c > i32::MIN ==> c2 == c - 1
            &&& up && down && !reset && c < i32::MAX ==> c2 == c
            &&& truthy(d.prev_dec[k]) && !reset ==> c2 >= c
            &&& truthy(d.prev_in[k]) && !reset ==> c2 <= c
        }),
{
    lemma_pure_eval(t, d, k);
}

/// A `Flag` (inputs set, reset, toggle; output the flag): with reset
/// winning, a truthy reset clears it, else a truthy set raises it; with set
/// winning, the other way round; otherwise a rising toggle (when enabled)
/// flips it and anything else keeps it. The output is the new flag.
pub proof fn law_flag(t: Tables, d: Dyn, k: int, priority: FlagPriority, enable_toggle: bool)
    requires
        knot_fits(d, k),
        k < t.tags.len(),
        t.tags[k] == (KindTag::Flag { priority, enable_toggle }),
    ensures
        ({
            let e = eval_dyn(t, d, k);
            let set = truthy(port_at(d, k, 0));
            let reset = truthy(port_at(d, k, 1));
            let toggled = enable_toggle && !truthy(d.prev_in[k]) && truthy(port_at(d, k, 2));
            let f = e.flag[k];
            &&& port_at(e, k, 3) == (if f { ONE } else { ZERO })
            &&& e.prev_in[k] == port_at(d, k, 2)
            &&& reset && (priority == FlagPriority::ResetWins || !set) ==> !f
            &&& set && (priority == FlagPriority::SetWins || !reset) ==> f
            &&& !set && !reset && toggled ==> f == !d.flag[k]
            &&& !set && !reset && !toggled ==> f == d.flag[k]
        }),
{
    lemma_pure_eval(t, d, k);
}

/// `Clamp` bounds its input: below `min` gives `min`, above `max` gives
/// `max`, and a value in between passes unchanged.
pub proof fn law_clamp(t: Tables, d: Dyn, k: int, min: Signal, max: Signal)
    requires
        knot_fits(d, k),
        k < t.tags.len(),
        t.tags[k] == (KindTag::Clamp { min, max }),
    ensures
        ({
            let i = port_at(d, k, 0);
            let o = port_at(eval_dyn(t, d, k), k, 1);
            &&& i < min ==> o == min
            &&& min <= i <= max ==> o == i
            &&& min <= max && i > max ==> o == max
            &&& min <= max ==> min <= o <= max
        }),
{
    lemma_pure_eval(t, d, k);
}

/// `Select` passes its second input while the selector is truthy and its
/// first otherwise.
pub proof fn law_select(t: Tables, d: Dyn, k: int)
    requires
        knot_fits(d, k),
        k < t.tags.len(),
        t.tags[k] == KindTag::Select,
    ensures
        ({
            let o = port_at(eval_dyn(t, d, k), k, 3);
            &&& truthy(port_at(d, k, 0)) ==> o == port_at(d, k, 2)
            &&& !truthy(port_at(d, k, 0)) ==> o == port_at(d, k, 1)
        }),
{
    lemma_pure_eval(t, d, k);
}

/// A pulse-hold timer of `ticks`: a rising start makes it active for
/// `ticks` frames counting this one; without a new rising start it stays
/// active while ticks are left, one fewer each frame, then goes quiet.
pub proof fn law_pulse_hold(t: Tables, d: Dyn, k: int, ticks: u16)
    requires
        knot_fits(d, k),
        k < t.tags.len(),
        t.tags[k] == (KindTag::TimerPulseHold { ticks }),
    ensures
        ({
            let e = eval_dyn(t, d, k);
            let start = !truthy(d.prev_in[k]) && truthy(port_at(d, k, 0));
            let left = d.timer_left[k];
            let o = port_at(e, k, 1);
            &&& e.prev_in[k] == port_at(d, k, 0)
            &&& start && ticks > 0 ==> o == ONE && e.timer_left[k] == ticks - 1
            &&& start && ticks == 0 ==> o == ZERO && e.timer_left[k] == 0
            &&& !start && left > 0 ==> o == ONE && e.timer_left[k] == left - 1
            &&& !start && left == 0 ==> o == ZERO && e.timer_left[k] == 0
        }),
{
    lemma_pure_eval(t, d, k);
}

/// A fed countdown of `ticks`: a falsy feed resets it and keeps it quiet; a
/// feed that rises restarts the count, and a held feed counts down one per
/// frame; it is active once the count has run out while still fed.
pub proof fn law_fed_countdown(t: Tables, d: Dyn, k: int, ticks: u16)
    requires
        knot_fits(d, k),
        k < t.tags.len(),
        t.tags[k] == (KindTag::TimerFedCountdown { ticks }),
    ensures
        ({
            let e = eval_dyn(t, d, k);
            let fed = truthy(port_at(d, k, 0));
            let was_fed = truthy(d.prev_in[k]);
            let left = e.timer_left[k];
            let o = port_at(e, k, 1);
            &&& e.prev_in[k] == port_at(d, k, 0)
            &&& !fed ==> o == ZERO && left == 0
            &&& fed && !was_fed && ticks > 0 ==> left == ticks - 1
            &&& fed && !was_fed && ticks == 0 ==> left == 0
            &&& fed && was_fed && d.timer_left[k] > 0 ==> left == d.timer_left[k] - 1
            &&& fed && was_fed && d.timer_left[k] == 0 ==> left == 0
            &&& fed ==> (o == ONE <==> left == 0) && is_bool(o)
        }),
{
    lemma_pure_eval(t, d, k);
}

/// A threshold without hysteresis reads its input as pressed from `high`
/// up; with hysteresis, once pressed it stays pressed until the input
/// falls below `low`. It reports the level, and `ONE` on the crossing
/// frame up (slot 2) or down (slot 3).
pub proof fn law_threshold(t: Tables, d: Dyn, k: int, high: Signal, low: Signal, use_hysteresis: bool)
    requires
        knot_fits(d, k),
        k < t.tags.len(),
        t.tags[k] == (KindTag::Threshold { high, low, use_hysteresis }),
    ensures
        ({
            let e = eval_dyn(t, d, k);
            let i = port_at(d, k, 0);
            let was = d.flag[k];
            let now = e.flag[k];
            &&& !use_hysteresis ==> (now <==> i >= high)
            &&& use_hysteresis && !was ==> (now <==> i >= high)
            &&& use_hysteresis && was ==> (now <==> i >= low)
            &&& port_at(e, k, 1) == (if now { ONE } else { ZERO })
            &&& port_at(e, k, 2) == (if !was && now { ONE } else { ZERO })
            &&& port_at(e, k, 3) == (if was && !now { ONE } else { ZERO })
        }),
{
    lemma_pure_eval(t, d, k);
}

/// `Compare` outputs `ONE` exactly when its left input stands in relation
/// `op` to the right-hand side: the constant when there is one, else its
/// second input.
pub proof fn law_compare(t: Tables, d: Dyn, k: int, op: CompareOp, rhs_const: Option<Signal>)
    requires
        knot_fits(d, k),
        k < t.tags.len(),
        t.tags[k] == (KindTag::Compare { op, rhs_const }),
    ensures
        ({
            let a = port_at(d, k, 0);
            let b = match rhs_const {
                Some(c) => c,
                None => port_at(d, k, 1),
            };
            let o = port_at(eval_dyn(t, d, k), k, 2);
            &&& is_bool(o)
            &&& op == CompareOp::Eq ==> (o == ONE <==> a == b)
            &&& op == CompareOp::Ne ==> (o == ONE <==> a != b)
            &&& op == CompareOp::Lt ==> (o == ONE <==> a < b)
            &&& op == CompareOp::Lte ==> (o == ONE <==> a <= b)
            &&& op == CompareOp::Gt ==> (o == ONE <==> a > b)
            &&& op == CompareOp::Gte ==> (o == ONE <==> a >= b)
        }),
{
    lemma_pure_eval(t, d, k);
}

/// The saturating result of an exact value `x`: `x` itself when it fits a
/// signal, else the nearest bound.
pub open spec fn saturates_to(o: Signal, x: int) -> bool {
    &&& i32::MIN <= x <= i32::MAX ==> o == x
    &&& x > i32::MAX ==> o == i32::MAX
    &&& x < i32::MIN ==> o == i32::MIN
}

/// Addition and subtraction knots give the sum or difference of their two
/// inputs, saturated at the signal bounds; count multiplication gives the
/// product, saturated.
pub proof fn law_calc_add_sub_mul(t: Tables, d: Dyn, k: int)
    requires
        knot_fits(d, k),
        k < t.tags.len(),
        t.tags[k] is CalcAdd || t.tags[k] is CalcSub || t.tags[k] is CalcMulCount,
    ensures
        ({
            let a = port_at(d, k, 0) as int;
            let b = port_at(d, k, 1) as int;
            let o = port_at(eval_dyn(t, d, k), k, 2);
            &&& t.tags[k] is CalcAdd ==> saturates_to(o, a + b)
            &&& t.tags[k] is CalcSub ==> saturates_to(o, a - b)
            &&& t.tags[k] is CalcMulCount ==> saturates_to(o, a * b)
        }),
{
    lemma_pure_eval(t, d, k);
}

/// Divisions by zero give zero.
pub proof fn law_divide_by_zero(t: Tables, d: Dyn, k: int)
    requires
        knot_fits(d, k),
        k < t.tags.len(),
        t.tags[k] is CalcDivLevel || t.tags[k] is CalcDivCount,
        port_at(d, k, 1) == 0,
    ensures
        port_at(eval_dyn(t, d, k), k, 2) == 0,
{
    lemma_pure_eval(t, d, k);
}

/// `Abs` gives the magnitude of its input and `Neg` its negation, each
/// saturated (the lowest signal maps to the highest).
pub proof fn law_abs_neg(t: Tables, d: Dyn, k: int)
    requires
        knot_fits(d, k),
        k < t.tags.len(),
        t.tags[k] is Abs || t.tags[k] is Neg,
    ensures
        ({
            let a = port_at(d, k, 0) as int;
            let o = port_at(eval_dyn(t, d, k), k, 1);
            &&& t.tags[k] is Abs ==> saturates_to(o, if a < 0 { -a } else { a }) && o >= 0
            &&& t.tags[k] is Neg ==> saturates_to(o, -a)
        }),
{
    lemma_pure_eval(t, d, k);
}

/// `Convert` keeps the value between like domains, reads a Bool as the
/// count 1 or 0, reads any signal as a Bool by its truthiness, and scales
/// a count to a level by `ONE` (saturated).
pub proof fn law_convert(t: Tables, d: Dyn, k: int, mode: ConvertMode)
    requires
        knot_fits(d, k),
        k < t.tags.len(),
        t.tags[k] == (KindTag::Convert { mode }),
    ensures
        ({
            let a = port_at(d, k, 0);
            let o = port_at(eval_dyn(t, d, k), k, 1);
            &&& mode == ConvertMode::Identity ==> o == a
            &&& mode == ConvertMode::BoolToCount ==> (o == 1 <==> truthy(a)) && (o == 0 <==> !truthy(a))
            &&& mode == ConvertMode::ToBool ==> is_bool(o) && (truthy(o) <==> truthy(a))
            &&& mode == ConvertMode::CountToLevel ==> saturates_to(o, a * ONE)
        }),
{
    lemma_pure_eval(t, d, k);
}

/// A `Delay` of `ticks > 0` frames reads from and writes to its own ring:
/// it outputs the value stored at its head (what it was given `ticks`
/// frames ago), stores this frame's input there, and moves its head on by
/// one round the ring. A `Delay` of zero frames passes its input through.
pub proof fn law_delay(t: Tables, d: Dyn, k: int, ticks: u16)
    requires
        knot_fits(d, k),
        k < t.tags.len(),
        k < t.delay_off.len(),
        k < d.delay_head.len(),
        t.tags[k] == (KindTag::Delay { ticks }),
        ticks > 0 ==> d.delay_head[k] < ticks && t.delay_off[k] + ticks <= d.delay_buf.len(),
    ensures
        ({
            let e = eval_dyn(t, d, k);
            let i = port_at(d, k, 0);
            let slot = t.delay_off[k] + d.delay_head[k];
            &&& ticks == 0 ==> port_at(e, k, 1) == i && e.delay_buf == d.delay_buf
            &&& ticks > 0 ==> port_at(e, k, 1) == d.delay_buf[slot]
            &&& ticks > 0 ==> e.delay_buf == d.delay_buf.update(slot, i)
            &&& ticks > 0 ==> e.delay_head[k] == (d.delay_head[k] + 1) % (ticks as int)
            &&& ticks > 0 ==> e.delay_head[k] < ticks
            &&& e.prev_in == d.prev_in && e.flag == d.flag && e.counter == d.counter
        }),
{
    let p = knot_ports(d.ports, k);
    assert(port_at(d, k, 0) == p[0]);
    assert(port_index(k, 1) - port_index(k, 0) == 1);
}

/// A `SignalOut` appends one sample to the frame's signals: its host path
/// and its input value; nothing else changes.
pub proof fn law_signal_out(t: Tables, d: Dyn, k: int)
    requires
        knot_fits(d, k),
        k < t.tags.len(),
        k < t.knot_path.len(),
        t.tags[k] == KindTag::SignalOut,
    ensures
        ({
            let e = eval_dyn(t, d, k);
            &&& e.out_signals.len() == d.out_signals.len() + 1
            &&& e.out_signals.drop_last() == d.out_signals
            &&& e.out_signals.last().value == port_at(d, k, 0)
            &&& e.out_signals.last().path.spec_owner() == t.owner
            &&& e.out_signals.last().path.spec_index() == t.knot_path[k]
            &&& e.ports == d.ports && e.out_emits == d.out_emits && e.prev_in == d.prev_in
        }),
{
    let p = knot_ports(d.ports, k);
    assert(port_at(d, k, 0) == p[0]);
    assert(eval_dyn(t, d, k).out_signals.drop_last() =~= d.out_signals);
}

/// An `EmitCommand` fires on a frame whose trigger is truthy after a falsy
/// one while enabled (an unwired enable counts as enabled): under the cap
/// it appends one emit of its command with its payload input, at the cap
/// it counts one more dropped emit; otherwise nothing is emitted. The
/// trigger is remembered.
pub proof fn law_emit(t: Tables, d: Dyn, k: int, enable_wired: bool)
    requires
        knot_fits(d, k),
        k < t.tags.len(),
        k < t.knot_cmd.len(),
        t.tags[k] == (KindTag::EmitCommand { enable_wired }),
    ensures
        ({
            let e = eval_dyn(t, d, k);
            let enabled = !enable_wired || truthy(port_at(d, k, 1));
            let fire = !truthy(d.prev_in[k]) && truthy(port_at(d, k, 0)) && enabled;
            &&& e.prev_in[k] == port_at(d, k, 0)
            &&& !fire ==> e.out_emits == d.out_emits && e.dropped == d.dropped
            &&& fire && d.out_emits.len() < t.max_emits ==> {
                &&& e.out_emits.len() == d.out_emits.len() + 1
                &&& e.out_emits.drop_last() == d.out_emits
                &&& e.out_emits.last().cmd.spec_owner() == t.owner
                &&& e.out_emits.last().cmd.spec_index() == t.knot_cmd[k]
                &&& e.out_emits.last().payload == port_at(d, k, 2)
                &&& e.dropped == d.dropped
            }
            &&& fire && d.out_emits.len() >= t.max_emits && d.dropped < usize::MAX ==> e.out_emits == d.out_emits
                && e.dropped == d.dropped + 1
            &&& e.out_signals == d.out_signals
        }),
{
    let p = knot_ports(d.ports, k);
    assert(port_at(d, k, 0) == p[0] && port_at(d, k, 1) == p[1] && port_at(d, k, 2) == p[2]);
    let e = eval_dyn(t, d, k);
    if e.out_emits.len() == d.out_emits.len() + 1 {
        assert(e.out_emits.drop_last() =~= d.out_emits);
    }
}

/// Inbound entries `(source knot, source slot, input slot)` of knot `k`
/// whose sources are other knots and whose input slots are distinct.
pub open spec fn inbound_ok(entries: Seq<(u16, u8, u8)>, k: int) -> bool {
    &&& forall|j: int| 0 <= j < entries.len() ==> (#[trigger] entries[j]).0 != k && entries[j].2 < MAX_PORTS && entries[j].1
        < MAX_PORTS
    &&& forall|a: int, b: int| 0 <= a < b < entries.len() ==> (#[trigger] entries[a]).2 != (#[trigger] entries[b]).2
}

/// Gathering knot `k`'s inputs copies, for each inbound entry, the value of
/// the source port into the entry's input slot; every port of every other
/// knot, and every input slot no entry feeds, is left as it was.
pub proof fn law_gather(ports: Seq<Signal>, entries: Seq<(u16, u8, u8)>, k: int, m: int)
    requires
        inbound_ok(entries, k),
        0 <= m <= entries.len(),
        0 <= k,
        forall|j: int| 0 <= j < entries.len() ==> port_index((#[trigger] entries[j]).0 as int, MAX_PORTS as int) <= ports.len(),
        port_index(k, MAX_PORTS as int) <= ports.len(),
    ensures
        ({
            let g = crate::settle::gather_ports(ports, entries, k, m);
            &&& g.len() == ports.len()
            &&& forall|j: int| 0 <= j < m ==> #[trigger] g[port_index(k, entries[j].2 as int)] == ports[port_index(
                entries[j].0 as int,
                entries[j].1 as int,
            )]
            &&& forall|i: int| 0 <= i < ports.len() && !(port_index(k, 0) <= i < port_index(k, MAX_PORTS as int)) ==> #[trigger] g[i]
                == ports[i]
            &&& forall|s: int| 0 <= s < MAX_PORTS && (forall|j: int| 0 <= j < m ==> (#[trigger] entries[j]).2 != s) ==> #[trigger] g[port_index(k, s)]
                == ports[port_index(k, s)]
        }),
    decreases m,
{
    if m > 0 {
        law_gather(ports, entries, k, m - 1);
        let e = entries[m - 1];
        let prev = crate::settle::gather_ports(ports, entries, k, m - 1);
        let src = port_index(e.0 as int, e.1 as int);
        assert(!(port_index(k, 0) <= src < port_index(k, MAX_PORTS as int))) by {
            if e.0 < k {
                assert(src < port_index(k, 0));
            } else {
                assert(src >= port_index(k, MAX_PORTS as int));
            }
        }
        assert(prev[src] == ports[src]);
        let g = crate::settle::gather_ports(ports, entries, k, m);
        assert forall|j: int| 0 <= j < m implies #[trigger] g[port_index(k, entries[j].2 as int)] == ports[port_index(
            entries[j].0 as int,
            entries[j].1 as int,
        )] by {
            if j < m - 1 {
                assert(entries[j].2 != entries[m - 1].2);
            }
        }
    }
}

/// A product by the divisor, divided back, is the multiplier.
proof fn lemma_trunc_div_cancel(den: int, s: int)
    requires
        den > 0,
    ensures
        trunc_div(den * s, den) == s,
{
    let m = abs_int(s);
    assert(abs_int(den * s) == den * m) by (nonlinear_arith)
        requires
            den > 0,
            m == abs_int(s),
    ;
    assert((den * m) / den == m) by (nonlinear_arith)
        requires
            den > 0,
            m >= 0,
    ;
    assert((den * s >= 0) == (s >= 0)) by (nonlinear_arith)
        requires
            den > 0,
    ;
}

/// A `MapRange` remap with a proper input range sends everything at or
/// below the input minimum to the output minimum, everything at or above
/// the input maximum to the output maximum, and every input between the
/// two output bounds.
#[verifier::rlimit(40)]
pub proof fn law_map_range(i: Signal, in_min: Signal, in_max: Signal, out_min: Signal, out_max: Signal)
    requires
        in_min < in_max,
    ensures
        i <= in_min ==> spec_map(i, in_min, in_max, out_min, out_max) == out_min,
        i >= in_max ==> spec_map(i, in_min, in_max, out_min, out_max) == out_max,
        out_min <= out_max ==> out_min <= spec_map(i, in_min, in_max, out_min, out_max) <= out_max,
        out_max <= out_min ==> out_max <= spec_map(i, in_min, in_max, out_min, out_max) <= out_min,
{
    let den = in_max - in_min;
    let tt = clamp_int(i - in_min, 0, den);
    let span = out_max - out_min;
    lemma_scaled_quotient_bounded(tt, den, span);
    if i >= in_max {
        assert(tt == den);
        lemma_trunc_div_cancel(den, span);
    }
    if i <= in_min {
        assert(tt == 0);
        assert(tt * span == 0) by (nonlinear_arith)
            requires
                tt == 0,
        ;
    }
}

/// A `Digitize` of at least two steps over a proper input range sends
/// everything at or below the input minimum to the output minimum,
/// everything at or above the input maximum to the output maximum, and
/// every input between the two output bounds.
#[verifier::rlimit(40)]
pub proof fn law_digitize(i: Signal, steps: u16, in_min: Signal, in_max: Signal, out_min: Signal, out_max: Signal)
    requires
        in_min < in_max,
        steps >= 2,
    ensures
        i <= in_min ==> spec_digitize(i, steps, in_min, in_max, out_min, out_max) == out_min,
        i >= in_max ==> spec_digitize(i, steps, in_min, in_max, out_min, out_max) == out_max,
        out_min <= out_max ==> out_min <= spec_digitize(i, steps, in_min, in_max, out_min, out_max) <= out_max,
        out_max <= out_min ==> out_max <= spec_digitize(i, steps, in_min, in_max, out_min, out_max) <= out_min,
{
    let den = in_max - in_min;
    let tt = clamp_int(i - in_min, 0, den);
    let raw = (tt * steps) / den;
    assert(raw >= 0) by (nonlinear_arith)
        requires
            tt >= 0,
            steps >= 2,
            den > 0,
            raw == (tt * steps) / den,
    ;
    let last = steps - 1;
    let bin = if raw > last {
        last
    } else {
        raw
    };
    let span = out_max - out_min;
    lemma_scaled_quotient_bounded(bin, last, span);
    if i >= in_max {
        assert(tt == den);
        assert(raw == steps) by (nonlinear_arith)
            requires
                tt == den,
                den > 0,
                raw == (tt * steps) / den,
        ;
        lemma_trunc_div_cancel(last, span);
    }
    if i <= in_min {
        assert(tt == 0);
        assert(raw == 0) by (nonlinear_arith)
            requires
                tt == 0,
                den > 0,
                raw == (tt * steps) / den,
        ;
        assert(bin == 0);
        assert(bin * span == 0) by (nonlinear_arith)
            requires
                bin == 0,
        ;
    }
}

/// Converting a level to a count rounds to the nearest whole count, halves
/// away from zero: the count's level is within half a unit of the input.
pub proof fn law_level_to_count(v: Signal)
    ensures
        ({
            let c = spec_level_to_count(v) as int;
            &&& v >= 0 ==> c * ONE <= v + ONE / 2 < c * ONE + ONE
            &&& v < 0 ==> c * ONE - ONE < v - ONE / 2 && v - ONE / 2 <= c * ONE
        }),
{
}

/// Q16.16 multiplication and division, and whole-number division, treat
/// one as one: multiplying a level by `ONE` (1.0) or dividing it by `ONE`
/// keeps it, multiplying by zero gives zero, dividing a count by 1 keeps
/// it, and a non-zero value divided by itself gives one (`ONE` for levels,
/// 1 for counts).
pub proof fn law_level_and_count_units(t: Tables, d: Dyn, k: int)
    requires
        knot_fits(d, k),
        k < t.tags.len(),
        t.tags[k] is CalcMulLevel || t.tags[k] is CalcDivLevel || t.tags[k] is CalcDivCount,
    ensures
        ({
            let a = port_at(d, k, 0);
            let b = port_at(d, k, 1);
            let o = port_at(eval_dyn(t, d, k), k, 2);
            &&& t.tags[k] is CalcMulLevel ==> (b == ONE ==> o == a) && (a == ONE ==> o == b) && (b == 0 ==> o == 0)
            &&& t.tags[k] is CalcDivLevel ==> (b == ONE ==> o == a) && (b != 0 && a == b ==> o == ONE)
            &&& t.tags[k] is CalcDivCount ==> (b == 1 ==> o == a) && (b != 0 && a == b ==> o == 1)
        }),
{
    lemma_pure_eval(t, d, k);
    let a = port_at(d, k, 0) as int;
    let b = port_at(d, k, 1) as int;
    let o = port_at(eval_dyn(t, d, k), k, 2);
    if t.tags[k] is CalcMulLevel {
        assert(o == crate::signal::spec_level_mul(a as i32, b as i32));
        if b == ONE {
            assert((a * b) / (ONE as int) == a) by (nonlinear_arith)
                requires
                    b == ONE,
            ;
        }
        if a == ONE {
            assert((a * b) / (ONE as int) == b) by (nonlinear_arith)
                requires
                    a == ONE,
            ;
        }
        if b == 0 {
            assert((a * b) / (ONE as int) == 0) by (nonlinear_arith)
                requires
                    b == 0,
            ;
        }
    } else if t.tags[k] is CalcDivLevel {
        assert(o == crate::signal::spec_level_div(a as i32, b as i32));
        if b == ONE {
            assert(abs_int(a * ONE) == abs_int(a) * ONE);
            assert((abs_int(a) * ONE) / (ONE as int) == abs_int(a));
            assert(trunc_div(a * ONE, b) == a);
            assert(o == a);
        }
        if b != 0 && a == b {
            let m = abs_int(b);
            assert(abs_int(a * ONE) == m * ONE);
            assert((m * ONE) / m == ONE as int) by (nonlinear_arith)
                requires
                    m > 0,
            ;
            assert(trunc_div(a * ONE, b) == ONE as int);
            assert(o == ONE);
        }
    } else {
        assert(o == crate::signal::spec_count_div(a as i32, b as i32));
        if b == 1 {
            assert(abs_int(b) == 1);
            assert(abs_int(a) / 1 == abs_int(a));
            assert(trunc_div(a, b) == a);
            assert(o == a);
        }
        if b != 0 && a == b {
            let m = abs_int(b);
            assert(m / m == 1) by (nonlinear_arith)
                requires
                    m > 0,
            ;
            assert(trunc_div(a, b) == 1);
        }
    }
}

/// A `MapRange` remap onto an increasing output range never decreases: a
/// larger input never maps below a smaller one.
#[verifier::rlimit(40)]
pub proof fn law_map_range_monotone(
    i1: Signal,
    i2: Signal,
    in_min: Signal,
    in_max: Signal,
    out_min: Signal,
    out_max: Signal,
)
    requires
        in_min < in_max,
        out_min <= out_max,
        i1 <= i2,
    ensures
        spec_map(i1, in_min, in_max, out_min, out_max) <= spec_map(i2, in_min, in_max, out_min, out_max),
{
    let den = in_max - in_min;
    let t1 = clamp_int(i1 - in_min, 0, den);
    let t2 = clamp_int(i2 - in_min, 0, den);
    let span = out_max - out_min;
    assert(t1 <= t2);
    assert(t1 * span <= t2 * span && 0 <= t1 * span) by (nonlinear_arith)
        requires
            0 <= t1 <= t2,
            span >= 0,
    ;
    assert((t1 * span) / den <= (t2 * span) / den) by (nonlinear_arith)
        requires
            0 <= t1 * span <= t2 * span,
            den > 0,
    ;
    assert(abs_int(t1 * span) == t1 * span && abs_int(t2 * span) == t2 * span);
    lemma_scaled_quotient_bounded(t1, den, span);
    lemma_scaled_quotient_bounded(t2, den, span);
}

} // verus!
