//! Single-pass settle: zero unwired inputs, seed senses, evaluate every other
//! knot in topological order, and append acts to the outbox.

use vstd::prelude::*;

use crate::catalog::{CompareOp, FlagPriority, SignalDomain};
use crate::handles::{CmdId, HostPathId};
use crate::kind_tag::{ConvertMode, KindTag};
use crate::outbox::{Emit, SignalOutSample};
use crate::runtime::{port_index, Runtime, SenseSeed, MAX_PORTS};
use crate::settle::{
    clear_ports, dyn_of, eval_dyn, evaluated, gather_dyn, gather_ports, lemma_count_sqrt_of, lemma_level_sqrt_of, seed_step,
    seeded, settle, tables_of, with_knot_ports, Dyn,
};
use crate::signal::{
    count_abs, count_add, count_div, count_mul, count_neg, count_sqrt, count_sub, count_to_level, from_count,
    is_truthy, level_abs, level_add, level_div, level_mul, level_neg, level_sqrt, level_sub, level_to_count,
    random_count_in_range, random_level_in_range, truthy, Signal, ONE, ZERO,
};

verus! {

/// Result of a comparison operator.
pub open spec fn spec_compare(op: CompareOp, lhs: i32, rhs: i32) -> bool {
    match op {
        CompareOp::Eq => lhs == rhs,
        CompareOp::Ne => lhs != rhs,
        CompareOp::Lt => lhs < rhs,
        CompareOp::Lte => lhs <= rhs,
        CompareOp::Gt => lhs > rhs,
        CompareOp::Gte => lhs >= rhs,
    }
}

/// Apply a comparison operator.
pub fn compare(op: CompareOp, lhs: Signal, rhs: Signal) -> (r: bool)
    ensures
        r == spec_compare(op, lhs, rhs),
{
    match op {
        CompareOp::Eq => lhs == rhs,
        CompareOp::Ne => lhs != rhs,
        CompareOp::Lt => lhs < rhs,
        CompareOp::Lte => lhs <= rhs,
        CompareOp::Gt => lhs > rhs,
        CompareOp::Gte => lhs >= rhs,
    }
}

fn bool_out(b: bool) -> (r: Signal)
    ensures
        r == crate::signal::bool_signal(b),
{
    if b {
        ONE
    } else {
        ZERO
    }
}

impl Runtime {
    /// Only the ports of knot `k`, its per-knot state and the outbox and
    /// random stream may differ between `self` and `other`.
    pub open(crate) spec fn only_knot_changed(&self, other: &Runtime, k: int) -> bool {
        &&& self.same_tables(other)
        &&& self.sense_values@ == other.sense_values@
        &&& self.on_start_done@ == other.on_start_done@
        &&& self.tick == other.tick
        &&& self.phase == other.phase
        &&& self.port_vals@.len() == other.port_vals@.len()
        &&& forall|i: int|
            0 <= i < self.port_vals@.len() && !(port_index(k, 0) <= i < port_index(k, MAX_PORTS as int)) ==> #[trigger] self.port_vals@[i]
                == other.port_vals@[i]
    }

    fn get_port(&self, k: usize, slot: usize) -> (v: Signal)
        requires
            self.wf(),
            k < self.knots@.len(),
            slot < MAX_PORTS,
        ensures
            v == self.port_vals@[port_index(k as int, slot as int)],
    {
        self.port_vals[k * MAX_PORTS + slot]
    }

    fn set_port(&mut self, k: usize, slot: usize, v: Signal)
        requires
            old(self).wf(),
            k < old(self).knots@.len(),
            slot < MAX_PORTS,
        ensures
            final(self).wf(),
            final(self).only_knot_changed(old(self), k as int),
            final(self).port_vals@ == old(self).port_vals@.update(port_index(k as int, slot as int), v),
            final(self).prev_in@ == old(self).prev_in@,
            final(self).prev_dec@ == old(self).prev_dec@,
            final(self).counter@ == old(self).counter@,
            final(self).flag@ == old(self).flag@,
            final(self).timer_left@ == old(self).timer_left@,
            final(self).delay_buf@ == old(self).delay_buf@,
            final(self).delay_head@ == old(self).delay_head@,
            final(self).out_signals@ == old(self).out_signals@,
            final(self).out_emits@ == old(self).out_emits@,
            final(self).dropped_emits == old(self).dropped_emits,
            final(self).rng == old(self).rng,
    {
        self.port_vals.set(k * MAX_PORTS + slot, v);
    }

    /// Append a `SignalOut` sample.
    fn push_signal_out(&mut self, path: HostPathId, value: Signal)
        requires
            old(self).wf(),
        ensures
            final(self).wf(),
            final(self).out_signals@ == old(self).out_signals@.push(SignalOutSample { path, value }),
            final(self).out_emits@ == old(self).out_emits@,
            final(self).dropped_emits == old(self).dropped_emits,
            final(self).same_tables(old(self)),
            final(self).same_state(old(self)),
            final(self).tick == old(self).tick,
            final(self).phase == old(self).phase,
            final(self).rng == old(self).rng,
    {
        self.out_signals.push(SignalOutSample { path, value });
    }

    /// Append an emit unless the per-frame cap is reached; a rejected emit is
    /// counted (saturating).
    pub(crate) fn push_emit(&mut self, cmd: CmdId, payload: Signal)
        requires
            old(self).wf(),
        ensures
            final(self).wf(),
            if old(self).out_emits@.len() >= old(self).max_emits_per_tick {
                &&& final(self).out_emits@ == old(self).out_emits@
                &&& final(self).dropped_emits == if old(self).dropped_emits == usize::MAX {
                    usize::MAX
                } else {
                    (old(self).dropped_emits + 1) as usize
                }
            } else {
                &&& final(self).out_emits@ == old(self).out_emits@.push(Emit { cmd, payload })
                &&& final(self).dropped_emits == old(self).dropped_emits
            },
            final(self).out_signals@ == old(self).out_signals@,
            final(self).same_tables(old(self)),
            final(self).same_state(old(self)),
            final(self).tick == old(self).tick,
            final(self).phase == old(self).phase,
            final(self).rng == old(self).rng,
    {
        if self.out_emits.len() >= self.max_emits_per_tick as usize {
            self.dropped_emits = self.dropped_emits.saturating_add(1);
            return;
        }
        self.out_emits.push(Emit { cmd, payload });
    }

    /// Copy the values feeding knot `k` into its input ports.
    fn gather_inputs(&mut self, k: usize)
        requires
            old(self).wf(),
            k < old(self).knots@.len(),
        ensures
            final(self).wf(),
            final(self).only_knot_changed(old(self), k as int),
            final(self).prev_in@ == old(self).prev_in@,
            final(self).prev_dec@ == old(self).prev_dec@,
            final(self).counter@ == old(self).counter@,
            final(self).flag@ == old(self).flag@,
            final(self).timer_left@ == old(self).timer_left@,
            final(self).delay_buf@ == old(self).delay_buf@,
            final(self).delay_head@ == old(self).delay_head@,
            final(self).out_signals@ == old(self).out_signals@,
            final(self).out_emits@ == old(self).out_emits@,
            final(self).dropped_emits == old(self).dropped_emits,
            final(self).rng == old(self).rng,
            final(self).port_vals@ == gather_ports(
                old(self).port_vals@,
                old(self).inbound@[k as int]@,
                k as int,
                old(self).inbound@[k as int]@.len() as int,
            ),
    {
        let count = self.inbound[k].len();
        let mut j: usize = 0;
        while j < count
            invariant
                self.wf(),
                k < self.knots@.len(),
                count == self.inbound@[k as int]@.len(),
                j <= count,
                self.only_knot_changed(old(self), k as int),
                self.prev_in@ == old(self).prev_in@,
                self.prev_dec@ == old(self).prev_dec@,
                self.counter@ == old(self).counter@,
                self.flag@ == old(self).flag@,
                self.timer_left@ == old(self).timer_left@,
                self.delay_buf@ == old(self).delay_buf@,
                self.delay_head@ == old(self).delay_head@,
                self.out_signals@ == old(self).out_signals@,
                self.out_emits@ == old(self).out_emits@,
                self.dropped_emits == old(self).dropped_emits,
                self.rng == old(self).rng,
                self.port_vals@ == gather_ports(old(self).port_vals@, old(self).inbound@[k as int]@, k as int, j as int),
            decreases count - j,
        {
            let (f, fs, ts) = self.inbound[k][j];
            proof {
                assert(self.inbound@[k as int]@[j as int] == (f, fs, ts));
            }
            let v = self.get_port(f as usize, fs as usize);
            self.set_port(k, ts as usize, v);
            j = j + 1;
        }
    }
}


/// Per-knot state of the stateful knots.
pub struct KnotState {
    pub prev_in: Signal,
    pub prev_dec: Signal,
    pub counter: i32,
    pub flag: bool,
    pub timer_left: u16,
}

/// The eight ports of knot `k`.
pub open spec fn knot_ports(ports: Seq<Signal>, k: int) -> Seq<Signal> {
    ports.subrange(port_index(k, 0), port_index(k, MAX_PORTS as int))
}

/// All of the first `arity` inputs are truthy.
pub open spec fn all_truthy(p: Seq<Signal>, arity: int) -> bool {
    forall|s: int| 0 <= s < arity ==> truthy(#[trigger] p[s])
}

/// Some of the first `arity` inputs is truthy.
pub open spec fn any_truthy(p: Seq<Signal>, arity: int) -> bool {
    exists|s: int| 0 <= s < arity && truthy(#[trigger] p[s])
}

pub open spec fn flag_next(priority: FlagPriority, set: bool, reset: bool, toggle: bool, s0: bool) -> bool {
    match priority {
        FlagPriority::ResetWins => if reset {
            false
        } else if set {
            true
        } else if toggle {
            !s0
        } else {
            s0
        },
        FlagPriority::SetWins => if set {
            true
        } else if reset {
            false
        } else if toggle {
            !s0
        } else {
            s0
        },
    }
}

/// What a state-free or per-knot-stateful knot computes: its eight ports
/// after evaluation (from its ports after inputs were gathered) and its new
/// state. Seeded knots, delays, random sources and acts are described
/// separately.
pub open spec fn step(tag: KindTag, p: Seq<Signal>, st: KnotState) -> (Seq<Signal>, KnotState) {
    let b = |x: bool| crate::signal::bool_signal(x);
    match tag {
        KindTag::Not => (p.update(1, b(!truthy(p[0]))), st),
        KindTag::And { arity } => (p.update(arity as int, b(all_truthy(p, arity as int))), st),
        KindTag::Or { arity } => (p.update(arity as int, b(any_truthy(p, arity as int))), st),
        KindTag::RisingFromZero => (
            p.update(1, b(!truthy(st.prev_in) && truthy(p[0]))),
            KnotState { prev_in: p[0], ..st },
        ),
        KindTag::FallingToZero => (
            p.update(1, b(truthy(st.prev_in) && !truthy(p[0]))),
            KnotState { prev_in: p[0], ..st },
        ),
        KindTag::Change => (p.update(1, b(truthy(st.prev_in) != truthy(p[0]))), KnotState { prev_in: p[0], ..st }),
        KindTag::Compare { op, rhs_const } => {
            let rhs = match rhs_const {
                Some(c) => c,
                None => p[1],
            };
            (p.update(2, b(spec_compare(op, p[0], rhs))), st)
        },
        KindTag::Flag { priority, enable_toggle } => {
            let toggle = enable_toggle && !truthy(st.prev_in) && truthy(p[2]);
            let s1 = flag_next(priority, truthy(p[0]), truthy(p[1]), toggle, st.flag);
            (p.update(3, b(s1)), KnotState { prev_in: p[2], flag: s1, ..st })
        },
        KindTag::Counter => {
            let c0 = if truthy(p[2]) {
                0i32
            } else {
                st.counter
            };
            let c1 = if !truthy(st.prev_in) && truthy(p[0]) {
                crate::signal::sat(c0 + 1)
            } else {
                c0
            };
            let c2 = if !truthy(st.prev_dec) && truthy(p[1]) {
                crate::signal::sat(c1 - 1)
            } else {
                c1
            };
            (p.update(3, c2), KnotState { prev_in: p[0], prev_dec: p[1], counter: c2, ..st })
        },
        KindTag::TimerPulseHold { ticks } => {
            let left = if !truthy(st.prev_in) && truthy(p[0]) {
                ticks
            } else {
                st.timer_left
            };
            if left > 0 {
                (p.update(1, ONE), KnotState { prev_in: p[0], timer_left: (left - 1) as u16, ..st })
            } else {
                (p.update(1, ZERO), KnotState { prev_in: p[0], timer_left: left, ..st })
            }
        },
        KindTag::TimerFedCountdown { ticks } => if truthy(p[0]) {
            let l0 = if !truthy(st.prev_in) {
                ticks
            } else {
                st.timer_left
            };
            let l1 = if l0 > 0 {
                (l0 - 1) as u16
            } else {
                0u16
            };
            (p.update(1, b(l1 == 0)), KnotState { prev_in: p[0], timer_left: l1, ..st })
        } else {
            (p.update(1, ZERO), KnotState { prev_in: p[0], timer_left: 0, ..st })
        },
        KindTag::CalcAdd { .. } => (p.update(2, crate::signal::sat(p[0] + p[1])), st),
        KindTag::CalcSub { .. } => (p.update(2, crate::signal::sat(p[0] - p[1])), st),
        KindTag::CalcMulLevel => (p.update(2, crate::signal::spec_level_mul(p[0], p[1])), st),
        KindTag::CalcMulCount => (p.update(2, crate::signal::sat(p[0] * p[1])), st),
        KindTag::CalcDivLevel => (p.update(2, crate::signal::spec_level_div(p[0], p[1])), st),
        KindTag::CalcDivCount => (p.update(2, crate::signal::spec_count_div(p[0], p[1])), st),
        KindTag::CalcDivLevelConst { divisor } => (p.update(2, crate::signal::spec_level_div(p[0], divisor)), st),
        KindTag::CalcDivCountConst { divisor } => (p.update(2, crate::signal::spec_count_div(p[0], divisor)), st),
        KindTag::Abs { .. } => (p.update(1, crate::signal::spec_saturating_abs(p[0])), st),
        KindTag::Neg { .. } => (p.update(1, crate::signal::spec_saturating_neg(p[0])), st),
        KindTag::MapRange { plan } => (p.update(1, plan.spec_apply(p[0]) as i32), st),
        KindTag::Select => (p.update(3, if truthy(p[0]) {
            p[2]
        } else {
            p[1]
        }), st),
        KindTag::Digitize { plan } => (p.update(1, plan.spec_apply(p[0])), st),
        KindTag::Threshold { high, low, use_hysteresis } => {
            let prev = st.flag;
            let latched = if use_hysteresis {
                if prev {
                    !(p[0] < low)
                } else {
                    p[0] >= high
                }
            } else {
                p[0] >= high
            };
            (
                p.update(1, b(latched)).update(2, b(!prev && latched)).update(3, b(prev && !latched)),
                KnotState { flag: latched, ..st },
            )
        },
        KindTag::Convert { mode } => (p.update(1, match mode {
            ConvertMode::Identity => p[0],
            ConvertMode::BoolToCount => if truthy(p[0]) {
                1i32
            } else {
                0i32
            },
            ConvertMode::ToBool => b(truthy(p[0])),
            ConvertMode::LevelToCount => crate::signal::spec_level_to_count(p[0]),
            ConvertMode::CountToLevel => crate::signal::sat(p[0] * ONE),
        }), st),
        KindTag::Xor => (p.update(2, b(truthy(p[0]) != truthy(p[1]))), st),
        KindTag::Clamp { min, max } => (p.update(1, if p[0] < min {
            min
        } else if p[0] > max {
            max
        } else {
            p[0]
        }), st),
        _ => (p, st),
    }
}


/// The per-knot state of knot `k`.
pub open(crate) spec fn state_of(rt: Runtime, k: int) -> KnotState {
    KnotState {
        prev_in: rt.prev_in@[k],
        prev_dec: rt.prev_dec@[k],
        counter: rt.counter@[k],
        flag: rt.flag@[k],
        timer_left: rt.timer_left@[k],
    }
}

/// The per-knot state of every knot but `k` is unchanged.
pub open(crate) spec fn other_states_same(a: Runtime, b: Runtime, k: int) -> bool {
    &&& a.prev_in@.len() == b.prev_in@.len()
    &&& a.prev_dec@.len() == b.prev_dec@.len()
    &&& a.counter@.len() == b.counter@.len()
    &&& a.flag@.len() == b.flag@.len()
    &&& a.timer_left@.len() == b.timer_left@.len()
    &&& forall|i: int| 0 <= i < a.prev_in@.len() && i != k ==> #[trigger] a.prev_in@[i] == b.prev_in@[i]
    &&& forall|i: int| 0 <= i < a.prev_dec@.len() && i != k ==> #[trigger] a.prev_dec@[i] == b.prev_dec@[i]
    &&& forall|i: int| 0 <= i < a.counter@.len() && i != k ==> #[trigger] a.counter@[i] == b.counter@[i]
    &&& forall|i: int| 0 <= i < a.flag@.len() && i != k ==> #[trigger] a.flag@[i] == b.flag@[i]
    &&& forall|i: int| 0 <= i < a.timer_left@.len() && i != k ==> #[trigger] a.timer_left@[i] == b.timer_left@[i]
}

pub proof fn lemma_knot_ports_update(ports: Seq<Signal>, k: int, s: int, v: Signal)
    requires
        0 <= s < MAX_PORTS,
        0 <= port_index(k, 0),
        port_index(k, MAX_PORTS as int) <= ports.len(),
    ensures
        knot_ports(ports.update(port_index(k, s), v), k) == knot_ports(ports, k).update(s, v),
{
    assert(knot_ports(ports.update(port_index(k, s), v), k) =~= knot_ports(ports, k).update(s, v));
}


impl Runtime {
    /// Write output `slot` of knot `k`.
    fn set_out(&mut self, k: usize, slot: usize, v: Signal)
        requires
            old(self).wf(),
            k < old(self).knots@.len(),
            slot < MAX_PORTS,
        ensures
            final(self).wf(),
            final(self).only_knot_changed(old(self), k as int),
            knot_ports(final(self).port_vals@, k as int) == knot_ports(old(self).port_vals@, k as int).update(slot as int, v),
            final(self).prev_in@ == old(self).prev_in@,
            final(self).prev_dec@ == old(self).prev_dec@,
            final(self).counter@ == old(self).counter@,
            final(self).flag@ == old(self).flag@,
            final(self).timer_left@ == old(self).timer_left@,
            final(self).delay_buf@ == old(self).delay_buf@,
            final(self).delay_head@ == old(self).delay_head@,
            final(self).out_signals@ == old(self).out_signals@,
            final(self).out_emits@ == old(self).out_emits@,
            final(self).dropped_emits == old(self).dropped_emits,
            final(self).rng == old(self).rng,
    {
        proof {
            lemma_knot_ports_update(self.port_vals@, k as int, slot as int, v);
        }
        self.set_port(k, slot, v);
    }

    /// Replace the per-knot state of knot `k`.
    fn set_state(&mut self, k: usize, st: KnotState)
        requires
            old(self).wf(),
            k < old(self).knots@.len(),
            crate::runtime::timer_ok(old(self).tags@[k as int], st.timer_left),
        ensures
            final(self).wf(),
            final(self).only_knot_changed(old(self), k as int),
            final(self).port_vals@ == old(self).port_vals@,
            state_of(*final(self), k as int) == st,
            other_states_same(*final(self), *old(self), k as int),
            final(self).delay_buf@ == old(self).delay_buf@,
            final(self).delay_head@ == old(self).delay_head@,
            final(self).out_signals@ == old(self).out_signals@,
            final(self).out_emits@ == old(self).out_emits@,
            final(self).dropped_emits == old(self).dropped_emits,
            final(self).rng == old(self).rng,
    {
        self.prev_in.set(k, st.prev_in);
        self.prev_dec.set(k, st.prev_dec);
        self.counter.set(k, st.counter);
        self.flag.set(k, st.flag);
        self.timer_left.set(k, st.timer_left);
    }

    fn get_state(&self, k: usize) -> (st: KnotState)
        requires
            self.wf(),
            k < self.knots@.len(),
        ensures
            st == state_of(*self, k as int),
    {
        KnotState {
            prev_in: self.prev_in[k],
            prev_dec: self.prev_dec[k],
            counter: self.counter[k],
            flag: self.flag[k],
            timer_left: self.timer_left[k],
        }
    }
}


/// Tags whose whole effect is described by [`step`].
pub open spec fn is_pure(tag: KindTag) -> bool {
    !(tag is Sense || tag is Delay || tag is RandomLevel || tag is RandomCount || tag is SqrtLevel || tag is SqrtCount
        || tag is SignalOut || tag is EmitCommand)
}

impl Runtime {
    /// Evaluate a knot whose effect is described by [`step`].
    #[verifier::rlimit(60)]
    fn eval_pure(&mut self, k: usize)
        requires
            old(self).wf(),
            k < old(self).knots@.len(),
            is_pure(old(self).tags@[k as int]),
        ensures
            final(self).wf(),
            final(self).only_knot_changed(old(self), k as int),
            other_states_same(*final(self), *old(self), k as int),
            (knot_ports(final(self).port_vals@, k as int), state_of(*final(self), k as int)) == step(
                old(self).tags@[k as int],
                knot_ports(old(self).port_vals@, k as int),
                state_of(*old(self), k as int),
            ),
            final(self).delay_buf@ == old(self).delay_buf@,
            final(self).delay_head@ == old(self).delay_head@,
            final(self).out_signals@ == old(self).out_signals@,
            final(self).out_emits@ == old(self).out_emits@,
            final(self).dropped_emits == old(self).dropped_emits,
            final(self).rng == old(self).rng,
    {
        let ghost p = knot_ports(self.port_vals@, k as int);
        let tag = self.tags[k];
        let st = self.get_state(k);
        proof {
            assert forall|s: int| 0 <= s < MAX_PORTS implies #[trigger] p[s] == self.port_vals@[port_index(k as int, s)] by {}
        }
        match tag {
            KindTag::Not => {
                let i = self.get_port(k, 0);
                self.set_out(k, 1, bool_out(!is_truthy(i)));
            },
            KindTag::And { arity } => {
                let mut ok = true;
                let mut s: u8 = 0;
                while s < arity
                    invariant
                        self.wf(),
                        k < self.knots@.len(),
                        2 <= arity <= 4,
                        s <= arity,
                        p == knot_ports(self.port_vals@, k as int),
                        forall|q: int| 0 <= q < MAX_PORTS ==> #[trigger] p[q] == self.port_vals@[port_index(k as int, q)],
                        ok == all_truthy(p, s as int),
                    decreases arity - s,
                {
                    let v = self.get_port(k, s as usize);
                    ok = ok && is_truthy(v);
                    proof {
                        if !ok {
                            assert(!all_truthy(p, s + 1)) by {
                                if !truthy(p[s as int]) {
                                } else {
                                    let q = choose|q: int| 0 <= q < s && !truthy(#[trigger] p[q]);
                                }
                            }
                        }
                    }
                    s = s + 1;
                }
                self.set_out(k, arity as usize, bool_out(ok));
            },
            KindTag::Or { arity } => {
                let mut ok = false;
                let mut s: u8 = 0;
                while s < arity
                    invariant
                        self.wf(),
                        k < self.knots@.len(),
                        2 <= arity <= 4,
                        s <= arity,
                        p == knot_ports(self.port_vals@, k as int),
                        forall|q: int| 0 <= q < MAX_PORTS ==> #[trigger] p[q] == self.port_vals@[port_index(k as int, q)],
                        ok == any_truthy(p, s as int),
                    decreases arity - s,
                {
                    let v = self.get_port(k, s as usize);
                    ok = ok || is_truthy(v);
                    proof {
                        if ok {
                            if truthy(p[s as int]) {
                                assert(any_truthy(p, s + 1));
                            } else {
                                let q = choose|q: int| 0 <= q < s && truthy(#[trigger] p[q]);
                                assert(any_truthy(p, s + 1));
                            }
                        }
                    }
                    s = s + 1;
                }
                self.set_out(k, arity as usize, bool_out(ok));
            },
            KindTag::RisingFromZero => {
                let i = self.get_port(k, 0);
                self.set_out(k, 1, bool_out(!is_truthy(st.prev_in) && is_truthy(i)));
                self.set_state(k, KnotState { prev_in: i, ..st });
            },
            KindTag::FallingToZero => {
                let i = self.get_port(k, 0);
                self.set_out(k, 1, bool_out(is_truthy(st.prev_in) && !is_truthy(i)));
                self.set_state(k, KnotState { prev_in: i, ..st });
            },
            KindTag::Change => {
                let i = self.get_port(k, 0);
                self.set_out(k, 1, bool_out(is_truthy(st.prev_in) != is_truthy(i)));
                self.set_state(k, KnotState { prev_in: i, ..st });
            },
            KindTag::Compare { op, rhs_const } => {
                let lhs = self.get_port(k, 0);
                let rhs = match rhs_const {
                    Some(c) => c,
                    None => self.get_port(k, 1),
                };
                self.set_out(k, 2, bool_out(compare(op, lhs, rhs)));
            },
            KindTag::Flag { priority, enable_toggle } => {
                let set = is_truthy(self.get_port(k, 0));
                let reset = is_truthy(self.get_port(k, 1));
                let toggle_v = self.get_port(k, 2);
                let toggle = enable_toggle && !is_truthy(st.prev_in) && is_truthy(toggle_v);
                let s0 = st.flag;
                let s1 = match priority {
                    FlagPriority::ResetWins => if reset {
                        false
                    } else if set {
                        true
                    } else if toggle {
                        !s0
                    } else {
                        s0
                    },
                    FlagPriority::SetWins => if set {
                        true
                    } else if reset {
                        false
                    } else if toggle {
                        !s0
                    } else {
                        s0
                    },
                };
                self.set_out(k, 3, bool_out(s1));
                self.set_state(k, KnotState { prev_in: toggle_v, flag: s1, ..st });
            },
            KindTag::Counter => {
                let inc = self.get_port(k, 0);
                let dec = self.get_port(k, 1);
                let reset = self.get_port(k, 2);
                let c0: i32 = if is_truthy(reset) {
                    0
                } else {
                    st.counter
                };
                let c1: i32 = if !is_truthy(st.prev_in) && is_truthy(inc) {
                    count_add(c0, 1)
                } else {
                    c0
                };
                let c2: i32 = if !is_truthy(st.prev_dec) && is_truthy(dec) {
                    count_sub(c1, 1)
                } else {
                    c1
                };
                self.set_out(k, 3, from_count(c2));
                self.set_state(k, KnotState { prev_in: inc, prev_dec: dec, counter: c2, ..st });
            },
            KindTag::TimerPulseHold { ticks } => {
                let start = self.get_port(k, 0);
                let left: u16 = if !is_truthy(st.prev_in) && is_truthy(start) {
                    ticks
                } else {
                    st.timer_left
                };
                if left > 0 {
                    self.set_out(k, 1, ONE);
                    self.set_state(k, KnotState { prev_in: start, timer_left: left - 1, ..st });
                } else {
                    self.set_out(k, 1, ZERO);
                    self.set_state(k, KnotState { prev_in: start, timer_left: left, ..st });
                }
            },
            KindTag::TimerFedCountdown { ticks } => {
                let feed = self.get_port(k, 0);
                if is_truthy(feed) {
                    let l0: u16 = if !is_truthy(st.prev_in) {
                        ticks
                    } else {
                        st.timer_left
                    };
                    let l1: u16 = if l0 > 0 {
                        l0 - 1
                    } else {
                        0
                    };
                    self.set_out(k, 1, bool_out(l1 == 0));
                    self.set_state(k, KnotState { prev_in: feed, timer_left: l1, ..st });
                } else {
                    self.set_out(k, 1, ZERO);
                    self.set_state(k, KnotState { prev_in: feed, timer_left: 0, ..st });
                }
            },
            KindTag::CalcAdd { domain } => {
                let a = self.get_port(k, 0);
                let b = self.get_port(k, 1);
                let o = match domain {
                    SignalDomain::Count => count_add(a, b),
                    _ => level_add(a, b),
                };
                self.set_out(k, 2, o);
            },
            KindTag::CalcSub { domain } => {
                let a = self.get_port(k, 0);
                let b = self.get_port(k, 1);
                let o = match domain {
                    SignalDomain::Count => count_sub(a, b),
                    _ => level_sub(a, b),
                };
                self.set_out(k, 2, o);
            },
            KindTag::CalcMulLevel => {
                let a = self.get_port(k, 0);
                let b = self.get_port(k, 1);
                self.set_out(k, 2, level_mul(a, b));
            },
            KindTag::CalcMulCount => {
                let a = self.get_port(k, 0);
                let b = self.get_port(k, 1);
                self.set_out(k, 2, count_mul(a, b));
            },
            KindTag::CalcDivLevel => {
                let a = self.get_port(k, 0);
                let b = self.get_port(k, 1);
                self.set_out(k, 2, level_div(a, b));
            },
            KindTag::CalcDivCount => {
                let a = self.get_port(k, 0);
                let b = self.get_port(k, 1);
                self.set_out(k, 2, count_div(a, b));
            },
            KindTag::CalcDivLevelConst { divisor } => {
                let a = self.get_port(k, 0);
                self.set_out(k, 2, level_div(a, divisor));
            },
            KindTag::CalcDivCountConst { divisor } => {
                let a = self.get_port(k, 0);
                self.set_out(k, 2, count_div(a, divisor));
            },
            KindTag::Abs { domain } => {
                let i = self.get_port(k, 0);
                let o = match domain {
                    SignalDomain::Count => count_abs(i),
                    _ => level_abs(i),
                };
                self.set_out(k, 1, o);
            },
            KindTag::Neg { domain } => {
                let i = self.get_port(k, 0);
                let o = match domain {
                    SignalDomain::Count => count_neg(i),
                    _ => level_neg(i),
                };
                self.set_out(k, 1, o);
            },
            KindTag::MapRange { plan } => {
                let i = self.get_port(k, 0);
                self.set_out(k, 1, plan.apply(i));
            },
            KindTag::Select => {
                let sel = self.get_port(k, 0);
                let a = self.get_port(k, 1);
                let b = self.get_port(k, 2);
                self.set_out(k, 3, if is_truthy(sel) {
                    b
                } else {
                    a
                });
            },
            KindTag::Digitize { plan } => {
                let i = self.get_port(k, 0);
                self.set_out(k, 1, plan.apply(i));
            },
            KindTag::Threshold { high, low, use_hysteresis } => {
                let x = self.get_port(k, 0);
                let prev = st.flag;
                let latched = if use_hysteresis {
                    if prev {
                        !(x < low)
                    } else {
                        x >= high
                    }
                } else {
                    x >= high
                };
                self.set_out(k, 1, bool_out(latched));
                self.set_out(k, 2, bool_out(!prev && latched));
                self.set_out(k, 3, bool_out(prev && !latched));
                self.set_state(k, KnotState { flag: latched, ..st });
            },
            KindTag::Convert { mode } => {
                let i = self.get_port(k, 0);
                let o = match mode {
                    ConvertMode::Identity => i,
                    ConvertMode::BoolToCount => if is_truthy(i) {
                        1
                    } else {
                        0
                    },
                    ConvertMode::ToBool => bool_out(is_truthy(i)),
                    ConvertMode::LevelToCount => level_to_count(i),
                    ConvertMode::CountToLevel => count_to_level(i),
                };
                self.set_out(k, 1, o);
            },
            KindTag::Xor => {
                let a = is_truthy(self.get_port(k, 0));
                let b = is_truthy(self.get_port(k, 1));
                self.set_out(k, 2, bool_out(a != b));
            },
            KindTag::Clamp { min, max } => {
                let i = self.get_port(k, 0);
                let o = if i < min {
                    min
                } else if i > max {
                    max
                } else {
                    i
                };
                self.set_out(k, 1, o);
            },
            _ => {},
        }
    }
}


/// The effect of evaluating knot `k` of `old`, giving `new`: [`step`] for
/// the knots it describes, and the ring, random-stream, sqrt and act
/// semantics for the others. Seeded knots are not evaluated.
pub open(crate) spec fn eval_effect(old: Runtime, new: Runtime, k: int) -> bool {
    let tag = old.tags@[k];
    let p = knot_ports(old.port_vals@, k);
    let q = knot_ports(new.port_vals@, k);
    let st = state_of(old, k);
    let ring_same = new.delay_buf@ == old.delay_buf@ && new.delay_head@ == old.delay_head@;
    let acts_same = new.out_signals@ == old.out_signals@ && new.out_emits@ == old.out_emits@ && new.dropped_emits
        == old.dropped_emits;
    if is_pure(tag) {
        &&& (q, state_of(new, k)) == step(tag, p, st)
        &&& ring_same && acts_same && new.rng == old.rng
    } else {
        match tag {
            KindTag::Sense => q == p && state_of(new, k) == st && ring_same && acts_same && new.rng == old.rng,
            KindTag::Delay { ticks } => {
                &&& state_of(new, k) == st
                &&& acts_same && new.rng == old.rng
                &&& if ticks == 0 {
                    q == p.update(1, p[0]) && ring_same
                } else {
                    let off = old.delay_off@[k];
                    let head = old.delay_head@[k];
                    &&& q == p.update(1, old.delay_buf@[off + head])
                    &&& new.delay_buf@ == old.delay_buf@.update(off + head, p[0])
                    &&& new.delay_head@ == old.delay_head@.update(k, ((head + 1) % (ticks as int)) as u16)
                }
            },
            KindTag::SqrtLevel => q == p.update(1, q[1]) && crate::signal::spec_level_sqrt(p[0], q[1]) && state_of(new, k)
                == st && ring_same && acts_same && new.rng == old.rng,
            KindTag::SqrtCount => q == p.update(1, q[1]) && crate::signal::spec_count_sqrt(p[0], q[1]) && state_of(new, k)
                == st && ring_same && acts_same && new.rng == old.rng,
            KindTag::RandomLevel { require_gate, min_wired, max_wired } | KindTag::RandomCount {
                require_gate,
                min_wired,
                max_wired,
            } => {
                let lo = if min_wired {
                    p[0]
                } else {
                    ZERO
                };
                let hi = if max_wired {
                    p[1]
                } else if tag is RandomCount {
                    1i32
                } else {
                    ONE
                };
                let sample = !require_gate || (!truthy(st.prev_in) && truthy(p[2]));
                &&& ring_same && acts_same
                &&& if sample {
                    let v = crate::signal::spec_random_in_range(xorshift_u32(old.rng), lo, hi);
                    &&& new.rng == crate::runtime::xorshift(old.rng)
                    &&& q == p.update(3, v)
                    &&& state_of(new, k) == KnotState { prev_in: p[2], counter: v, ..st }
                } else {
                    &&& new.rng == old.rng
                    &&& q == p.update(3, st.counter)
                    &&& state_of(new, k) == KnotState { prev_in: p[2], ..st }
                }
            },
            KindTag::SignalOut => {
                &&& q == p && state_of(new, k) == st && ring_same && new.rng == old.rng
                &&& new.out_signals@ == old.out_signals@.push(
                    SignalOutSample { path: HostPathId { owner: old.owner, index: old.knot_path@[k] }, value: p[0] },
                )
                &&& new.out_emits@ == old.out_emits@ && new.dropped_emits == old.dropped_emits
            },
            KindTag::EmitCommand { enable_wired } => {
                let enable = if enable_wired {
                    p[1]
                } else {
                    ONE
                };
                let fire = !truthy(st.prev_in) && truthy(p[0]) && truthy(enable);
                &&& q == p && ring_same && new.rng == old.rng
                &&& state_of(new, k) == KnotState { prev_in: p[0], ..st }
                &&& new.out_signals@ == old.out_signals@
                &&& if !fire {
                    new.out_emits@ == old.out_emits@ && new.dropped_emits == old.dropped_emits
                } else if old.out_emits@.len() >= old.max_emits_per_tick {
                    &&& new.out_emits@ == old.out_emits@
                    &&& new.dropped_emits == if old.dropped_emits == usize::MAX {
                        usize::MAX
                    } else {
                        (old.dropped_emits + 1) as usize
                    }
                } else {
                    &&& new.out_emits@ == old.out_emits@.push(
                        Emit { cmd: CmdId { owner: old.owner, index: old.knot_cmd@[k] }, payload: p[2] },
                    )
                    &&& new.dropped_emits == old.dropped_emits
                }
            },
            _ => true,
        }
    }
}

/// A port store that differs from `old` only in knot `k`'s eight ports,
/// which read `q`, is `old` with those ports replaced.
pub(crate) proof fn lemma_ports_frame(old: Seq<Signal>, new: Seq<Signal>, k: int, q: Seq<Signal>)
    requires
        new.len() == old.len(),
        0 <= port_index(k, 0),
        port_index(k, MAX_PORTS as int) <= old.len(),
        forall|i: int|
            0 <= i < new.len() && !(port_index(k, 0) <= i < port_index(k, MAX_PORTS as int)) ==> #[trigger] new[i]
                == old[i],
        knot_ports(new, k) == q,
    ensures
        new == with_knot_ports(old, k, q),
{
    assert forall|i: int| 0 <= i < new.len() implies #[trigger] new[i] == with_knot_ports(old, k, q)[i] by {
        if port_index(k, 0) <= i < port_index(k, MAX_PORTS as int) {
            assert(q[i - port_index(k, 0)] == new[i]);
        }
    }
    assert(new =~= with_knot_ports(old, k, q));
}

/// Evaluating knot `k` is a function of the tables and the state:
/// [`eval_dyn`].
pub(crate) proof fn lemma_eval_dyn(old: Runtime, new: Runtime, k: int)
    requires
        old.wf(),
        0 <= k < old.knots@.len(),
        new.only_knot_changed(&old, k),
        other_states_same(new, old, k),
        eval_effect(old, new, k),
    ensures
        dyn_of(new) == eval_dyn(tables_of(old), dyn_of(old), k),
{
    let t = tables_of(old);
    let d = dyn_of(old);
    let e = eval_dyn(t, d, k);
    let tag = old.tags@[k];
    let p = knot_ports(old.port_vals@, k);
    let q = knot_ports(new.port_vals@, k);
    assert(port_index(k, MAX_PORTS as int) <= old.port_vals@.len()) by (nonlinear_arith)
        requires
            0 <= k < old.knots@.len(),
            old.port_vals@.len() == old.knots@.len() * MAX_PORTS,
    ;
    assert(0 <= port_index(k, 0)) by (nonlinear_arith)
        requires
            0 <= k,
    ;
    lemma_ports_frame(old.port_vals@, new.port_vals@, k, q);
    let sn = state_of(new, k);
    assert(new.prev_in@ =~= old.prev_in@.update(k, sn.prev_in));
    assert(new.prev_dec@ =~= old.prev_dec@.update(k, sn.prev_dec));
    assert(new.counter@ =~= old.counter@.update(k, sn.counter));
    assert(new.flag@ =~= old.flag@.update(k, sn.flag));
    assert(new.timer_left@ =~= old.timer_left@.update(k, sn.timer_left));
    let so = state_of(old, k);
    assert(so == crate::settle::state_in(d, k));
    assert(p == knot_ports(d.ports, k));
    if is_pure(tag) {
        let r = step(tag, p, so);
        assert(q == r.0 && sn == r.1);
        assert(e.ports == with_knot_ports(d.ports, k, r.0));
        assert(e.prev_in == d.prev_in.update(k, r.1.prev_in));
        assert(e.ports == new.port_vals@);
        assert(e.prev_in == new.prev_in@);
        assert(e.prev_dec == new.prev_dec@);
        assert(e.counter == new.counter@);
        assert(e.flag == new.flag@);
        assert(e.timer_left == new.timer_left@);
        assert(e.on_start_done == new.on_start_done@);
        assert(e.delay_buf == new.delay_buf@);
        assert(e.delay_head == new.delay_head@);
        assert(e.out_signals == new.out_signals@);
        assert(e.out_emits == new.out_emits@);
        assert(e.dropped == new.dropped_emits);
        assert(e.rng == new.rng);
    }
    if !is_pure(tag) {
        match tag {
            KindTag::Sense | KindTag::SignalOut | KindTag::Delay { .. } => {
                assert(old.prev_in@ =~= old.prev_in@.update(k, so.prev_in));
                assert(old.prev_dec@ =~= old.prev_dec@.update(k, so.prev_dec));
                assert(old.counter@ =~= old.counter@.update(k, so.counter));
                assert(old.flag@ =~= old.flag@.update(k, so.flag));
                assert(old.timer_left@ =~= old.timer_left@.update(k, so.timer_left));
                assert(old.port_vals@ =~= with_knot_ports(old.port_vals@, k, p)) by {
                    lemma_ports_frame(old.port_vals@, old.port_vals@, k, p);
                }
            },
            KindTag::SqrtLevel => {
                lemma_level_sqrt_of(p[0], q[1]);
                assert(old.prev_in@ =~= old.prev_in@.update(k, so.prev_in));
                assert(old.prev_dec@ =~= old.prev_dec@.update(k, so.prev_dec));
                assert(old.counter@ =~= old.counter@.update(k, so.counter));
                assert(old.flag@ =~= old.flag@.update(k, so.flag));
                assert(old.timer_left@ =~= old.timer_left@.update(k, so.timer_left));
            },
            KindTag::SqrtCount => {
                lemma_count_sqrt_of(p[0], q[1]);
                assert(old.prev_in@ =~= old.prev_in@.update(k, so.prev_in));
                assert(old.prev_dec@ =~= old.prev_dec@.update(k, so.prev_dec));
                assert(old.counter@ =~= old.counter@.update(k, so.counter));
                assert(old.flag@ =~= old.flag@.update(k, so.flag));
                assert(old.timer_left@ =~= old.timer_left@.update(k, so.timer_left));
            },
            _ => {},
        }
    }
    assert(e.ports == new.port_vals@);
    assert(e.prev_in == new.prev_in@);
    assert(e.prev_dec == new.prev_dec@);
    assert(e.counter == new.counter@);
    assert(e.flag == new.flag@);
    assert(e.timer_left == new.timer_left@);
    assert(e.on_start_done == new.on_start_done@);
    assert(e.delay_buf == new.delay_buf@);
    assert(e.delay_head == new.delay_head@);
    assert(e.out_signals == new.out_signals@);
    assert(e.out_emits == new.out_emits@);
    assert(e.dropped == new.dropped_emits);
    assert(e.rng == new.rng);
    assert(dyn_of(new) == e);
}

/// The low 32 bits of the next stream state.
pub open spec fn xorshift_u32(x: u64) -> u32 {
    crate::runtime::xorshift(x) as u32
}

impl Runtime {
    /// Evaluate knot `k` (its inputs already gathered).
    #[verifier::rlimit(40)]
    fn eval_knot(&mut self, k: usize)
        requires
            old(self).wf(),
            k < old(self).knots@.len(),
        ensures
            final(self).wf(),
            final(self).only_knot_changed(old(self), k as int),
            other_states_same(*final(self), *old(self), k as int),
            eval_effect(*old(self), *final(self), k as int),
    {
        let ghost p = knot_ports(self.port_vals@, k as int);
        let tag = self.tags[k];
        let st = self.get_state(k);
        proof {
            assert forall|s: int| 0 <= s < MAX_PORTS implies #[trigger] p[s] == self.port_vals@[port_index(k as int, s)] by {}
        }
        match tag {
            KindTag::Sense => {},
            KindTag::Delay { ticks } => {
                let i = self.get_port(k, 0);
                if ticks == 0 {
                    self.set_out(k, 1, i);
                } else {
                    let off = self.delay_off[k] as usize;
                    let head = self.delay_head[k] as usize;
                    let o = self.delay_buf[off + head];
                    self.delay_buf.set(off + head, i);
                    let next = head + 1;
                    let new_head: u16 = if next >= ticks as usize {
                        0
                    } else {
                        next as u16
                    };
                    self.delay_head.set(k, new_head);
                    proof {
                        assert(self.tags@[k as int] == tag);
                        if next >= ticks as usize {
                            assert(next == ticks);
                            vstd::arithmetic::div_mod::lemma_mod_self_0(ticks as int);
                        } else {
                            vstd::arithmetic::div_mod::lemma_small_mod(next as nat, ticks as nat);
                        }
                        assert(new_head as int == (head + 1) % (ticks as int));
                    }
                    self.set_out(k, 1, o);
                }
            },
            KindTag::SqrtLevel => {
                let i = self.get_port(k, 0);
                self.set_out(k, 1, level_sqrt(i));
            },
            KindTag::SqrtCount => {
                let i = self.get_port(k, 0);
                self.set_out(k, 1, count_sqrt(i));
            },
            KindTag::RandomLevel { require_gate, min_wired, max_wired } | KindTag::RandomCount {
                require_gate,
                min_wired,
                max_wired,
            } => {
                let is_count = match tag {
                    KindTag::RandomCount { .. } => true,
                    _ => false,
                };
                let lo = if min_wired {
                    self.get_port(k, 0)
                } else {
                    ZERO
                };
                let hi = if max_wired {
                    self.get_port(k, 1)
                } else if is_count {
                    1
                } else {
                    ONE
                };
                let gate = self.get_port(k, 2);
                let sample = !require_gate || (!is_truthy(st.prev_in) && is_truthy(gate));
                if sample {
                    let u = self.next_rng_u32();
                    let v = if is_count {
                        random_count_in_range(u, lo, hi)
                    } else {
                        random_level_in_range(u, lo, hi)
                    };
                    self.set_out(k, 3, v);
                    self.set_state(k, KnotState { prev_in: gate, counter: v, ..st });
                } else {
                    self.set_out(k, 3, st.counter);
                    self.set_state(k, KnotState { prev_in: gate, ..st });
                }
            },
            KindTag::SignalOut => {
                let v = self.get_port(k, 0);
                let path = HostPathId { owner: self.owner, index: self.knot_path[k] };
                self.push_signal_out(path, v);
            },
            KindTag::EmitCommand { enable_wired } => {
                let trig = self.get_port(k, 0);
                let enable = if enable_wired {
                    self.get_port(k, 1)
                } else {
                    ONE
                };
                let payload = self.get_port(k, 2);
                if !is_truthy(st.prev_in) && is_truthy(trig) && is_truthy(enable) {
                    let cmd = CmdId { owner: self.owner, index: self.knot_cmd[k] };
                    self.push_emit(cmd, payload);
                }
                self.set_state(k, KnotState { prev_in: trig, ..st });
            },
            _ => {
                self.eval_pure(k);
            },
        }
    }
}


/// The value a seed writes to its knot's output, given whether an `OnStart`
/// knot already fired.
pub open spec fn seed_value(seed: SenseSeed, sense_values: Seq<Signal>, done: Seq<bool>) -> Signal {
    match seed {
        SenseSeed::Constant { value, .. } => value,
        SenseSeed::SignalIn { kid } => sense_values[kid as int],
        SenseSeed::OnStart { kid } => if done[kid as int] {
            ZERO
        } else {
            ONE
        },
    }
}

impl Runtime {
    /// One settle pass: zero the unwired inputs, seed `Constant`, `SignalIn`
    /// and `OnStart` knots, then evaluate every other knot in topological
    /// order, appending acts to the outbox.
    pub fn loom(&mut self)
        requires
            old(self).wf(),
        ensures
            final(self).wf(),
            final(self).same_tables(old(self)),
            final(self).spec_phase() == 2,
            final(self).spec_tick() == old(self).spec_tick(),
            final(self).spec_sense_values() == old(self).spec_sense_values(),
            forall|j: int| 0 <= j < old(self).spec_seeds().len() ==> final(self).spec_port(#[trigger] old(self).spec_seeds()[j].kid() as int, 0)
                == seed_value(old(self).spec_seeds()[j], old(self).spec_sense_values(), old(self).spec_on_start_done()),
            forall|j: int| 0 <= j < old(self).spec_seeds().len() && old(self).spec_seeds()[j] is OnStart ==> final(self).spec_on_start_done()[
                #[trigger] old(self).spec_seeds()[j].kid() as int],
            final(self).spec_on_start_done().len() == old(self).spec_on_start_done().len(),
            forall|i: int| 0 <= i < old(self).spec_on_start_done().len() && old(self).spec_on_start_done()[i] ==> #[trigger] final(self).spec_on_start_done()[i],
            final(self).spec_outbox().1.len() <= final(self).spec_max_emits(),
            final(self).spec_outbox().2 >= old(self).spec_outbox().2,
            dyn_of(*final(self)) == settle(tables_of(*old(self)), old(self).spec_sense_values(), dyn_of(*old(self))),
    {
        let ghost t = tables_of(*self);
        let ghost d0 = dyn_of(*self);
        let n = self.knots.len();
        // Zero the inputs no thread feeds.
        let total = self.clear_mask.len();
        assert(clear_ports(d0.ports, t.clear_mask, 0) =~= d0.ports);
        let mut idx: usize = 0;
        while idx < total
            invariant
                self.wf(),
                total == self.clear_mask@.len(),
                idx <= total,
                self.same_tables(old(self)),
                self.sense_values@ == old(self).sense_values@,
                self.on_start_done@ == old(self).on_start_done@,
                self.tick == old(self).tick,
                self.dropped_emits == old(self).dropped_emits,
                self.port_vals@.len() == total,
                t == tables_of(*old(self)),
                d0 == dyn_of(*old(self)),
                dyn_of(*self) == (Dyn { ports: clear_ports(d0.ports, t.clear_mask, idx as int), ..d0 }),
            decreases total - idx,
        {
            let ghost before = self.port_vals@;
            if self.clear_mask[idx] {
                self.port_vals.set(idx, ZERO);
            }
            assert(self.port_vals@ =~= clear_ports(d0.ports, t.clear_mask, idx + 1));
            idx = idx + 1;
        }
        let ghost cleared = dyn_of(*self);
        assert(cleared == (Dyn { ports: clear_ports(d0.ports, t.clear_mask, t.clear_mask.len() as int), ..d0 }));
        // Seed the sense knots.
        let ghost done0 = self.on_start_done@;
        let seed_n = self.sense_seeds.len();
        let mut si: usize = 0;
        while si < seed_n
            invariant
                self.wf(),
                seed_n == self.sense_seeds@.len(),
                si <= seed_n,
                self.same_tables(old(self)),
                self.sense_values@ == old(self).sense_values@,
                done0 == old(self).on_start_done@,
                self.tick == old(self).tick,
                self.dropped_emits == old(self).dropped_emits,
                self.on_start_done@.len() == done0.len(),
                forall|i: int| 0 <= i < done0.len() && done0[i] ==> #[trigger] self.on_start_done@[i],
                forall|j: int| 0 <= j < si ==> self.spec_port(#[trigger] self.sense_seeds@[j].kid() as int, 0) == seed_value(
                    self.sense_seeds@[j],
                    self.sense_values@,
                    done0,
                ),
                forall|j: int| 0 <= j < si && self.sense_seeds@[j] is OnStart ==> self.on_start_done@[#[trigger] self.sense_seeds@[j].kid() as int],
                forall|j: int| si <= j < seed_n ==> self.on_start_done@[#[trigger] self.sense_seeds@[j].kid() as int] == done0[self.sense_seeds@[j].kid() as int],
                forall|a: int, b: int| 0 <= a < b < seed_n ==> #[trigger] self.sense_seeds@[a].kid() < #[trigger] self.sense_seeds@[b].kid(),
                t == tables_of(*old(self)),
                cleared.on_start_done == done0,
                dyn_of(*self) == seeded(t, old(self).sense_values@, cleared, si as int),
            decreases seed_n - si,
        {
            let seed = self.sense_seeds[si];
            let ghost before = *self;
            match seed {
                SenseSeed::Constant { kid, value } => {
                    self.set_port(kid as usize, 0, value);
                },
                SenseSeed::SignalIn { kid } => {
                    let v = self.sense_values[kid as usize];
                    self.set_port(kid as usize, 0, v);
                },
                SenseSeed::OnStart { kid } => {
                    let ki = kid as usize;
                    let v = if !self.on_start_done[ki] {
                        self.on_start_done.set(ki, true);
                        ONE
                    } else {
                        ZERO
                    };
                    self.set_port(ki, 0, v);
                },
            }
            proof {
                let prev = seeded(t, old(self).sense_values@, cleared, si as int);
                assert(t.sense_seeds[si as int] == seed);
                assert(self.on_start_done@ =~= seed_step(prev, seed, old(self).sense_values@, done0).on_start_done);
                assert(dyn_of(*self) == seed_step(prev, seed, old(self).sense_values@, done0));
                assert forall|j: int| 0 <= j < si + 1 implies self.spec_port(#[trigger] self.sense_seeds@[j].kid() as int, 0)
                    == seed_value(self.sense_seeds@[j], self.sense_values@, done0) by {
                    if j < si {
                        assert(self.sense_seeds@[j].kid() != seed.kid());
                        assert(port_index(self.sense_seeds@[j].kid() as int, 0) != port_index(seed.kid() as int, 0));
                    }
                }
            }
            si = si + 1;
        }
        // Evaluate in topological order.
        let ghost seeded = *self;
        let mut ti: usize = 0;
        while ti < n
            invariant
                self.wf(),
                n == self.knots@.len(),
                ti <= n,
                self.same_tables(old(self)),
                self.sense_values@ == old(self).sense_values@,
                self.on_start_done@ == seeded.on_start_done@,
                self.tick == old(self).tick,
                self.dropped_emits >= old(self).dropped_emits,
                self.port_vals@.len() == seeded.port_vals@.len(),
                forall|j: int| 0 <= j < self.sense_seeds@.len() ==> self.spec_port(#[trigger] self.sense_seeds@[j].kid() as int, 0)
                    == seeded.spec_port(self.sense_seeds@[j].kid() as int, 0),
                t == tables_of(*old(self)),
                dyn_of(*self) == evaluated(t, dyn_of(seeded), ti as int),
            decreases n - ti,
        {
            let k = self.topo[ti] as usize;
            let is_sense = match self.tags[k] {
                KindTag::Sense => true,
                _ => false,
            };
            if !is_sense {
                let ghost before = *self;
                self.gather_inputs(k);
                let ghost mid = *self;
                assert(dyn_of(mid) == gather_dyn(t, dyn_of(before), k as int));
                self.eval_knot(k);
                proof {
                    lemma_eval_dyn(mid, *self, k as int);
                    assert(tables_of(mid) == t);
                    assert forall|j: int| 0 <= j < self.sense_seeds@.len() implies self.spec_port(
                        #[trigger] self.sense_seeds@[j].kid() as int,
                        0,
                    ) == seeded.spec_port(self.sense_seeds@[j].kid() as int, 0) by {
                        let kid = self.sense_seeds@[j].kid() as int;
                        assert(self.tags@[kid] is Sense);
                        assert(kid != k);
                        assert(!(port_index(k as int, 0) <= port_index(kid, 0) < port_index(k as int, MAX_PORTS as int)));
                        assert(before.port_vals@[port_index(kid, 0)] == seeded.port_vals@[port_index(kid, 0)]);
                    }
                }
            }
            ti = ti + 1;
        }
        self.phase = 2;
    }
}

} // verus!
