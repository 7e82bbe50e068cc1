//! One frame's settle as a function: the runtime's state after `loom`,
//! computed from its tables, its held senses and its state before.

use vstd::prelude::*;

use crate::handles::{CmdId, HostPathId};
use crate::kind_tag::KindTag;
use crate::loom::{is_pure, knot_ports, seed_value, step, xorshift_u32, KnotState};
use crate::outbox::{Emit, SignalOutSample};
use crate::runtime::{port_index, xorshift, Runtime, SenseSeed, MAX_PORTS};
use crate::runtime_state::{holds_state_of, snapshot_of, RuntimeState};
use crate::signal::{is_floor_sqrt, spec_count_sqrt, spec_level_sqrt, spec_random_in_range, truthy, Signal, ONE, ZERO};

verus! {

/// The tables a settle reads; bind builds them and frames never change them.
pub struct Tables {
    pub tags: Seq<KindTag>,
    pub inbound: Seq<Vec<(u16, u8, u8)>>,
    pub topo: Seq<u16>,
    pub clear_mask: Seq<bool>,
    pub sense_seeds: Seq<SenseSeed>,
    pub delay_off: Seq<u16>,
    pub knot_path: Seq<u16>,
    pub knot_cmd: Seq<u16>,
    pub owner: u64,
    pub max_emits: u16,
}

/// Everything a settle may change: ports, per-knot state, `OnStart`
/// marks, delay rings, the outbox and the random stream.
pub struct Dyn {
    pub ports: Seq<Signal>,
    pub prev_in: Seq<Signal>,
    pub prev_dec: Seq<Signal>,
    pub counter: Seq<i32>,
    pub flag: Seq<bool>,
    pub timer_left: Seq<u16>,
    pub on_start_done: Seq<bool>,
    pub delay_buf: Seq<Signal>,
    pub delay_head: Seq<u16>,
    pub out_signals: Seq<SignalOutSample>,
    pub out_emits: Seq<Emit>,
    pub dropped: usize,
    pub rng: u64,
}

pub open(crate) spec fn tables_of(rt: Runtime) -> Tables {
    Tables {
        tags: rt.tags@,
        inbound: rt.inbound@,
        topo: rt.topo@,
        clear_mask: rt.clear_mask@,
        sense_seeds: rt.sense_seeds@,
        delay_off: rt.delay_off@,
        knot_path: rt.knot_path@,
        knot_cmd: rt.knot_cmd@,
        owner: rt.owner,
        max_emits: rt.max_emits_per_tick,
    }
}

pub open(crate) spec fn dyn_of(rt: Runtime) -> Dyn {
    Dyn {
        ports: rt.port_vals@,
        prev_in: rt.prev_in@,
        prev_dec: rt.prev_dec@,
        counter: rt.counter@,
        flag: rt.flag@,
        timer_left: rt.timer_left@,
        on_start_done: rt.on_start_done@,
        delay_buf: rt.delay_buf@,
        delay_head: rt.delay_head@,
        out_signals: rt.out_signals@,
        out_emits: rt.out_emits@,
        dropped: rt.dropped_emits,
        rng: rt.rng,
    }
}

/// The per-knot state of knot `k`.
pub open(crate) spec fn state_in(d: Dyn, k: int) -> KnotState {
    KnotState {
        prev_in: d.prev_in[k],
        prev_dec: d.prev_dec[k],
        counter: d.counter[k],
        flag: d.flag[k],
        timer_left: d.timer_left[k],
    }
}

/// `d` with the per-knot state of knot `k` replaced by `st`.
pub open(crate) spec fn with_state(d: Dyn, k: int, st: KnotState) -> Dyn {
    Dyn {
        prev_in: d.prev_in.update(k, st.prev_in),
        prev_dec: d.prev_dec.update(k, st.prev_dec),
        counter: d.counter.update(k, st.counter),
        flag: d.flag.update(k, st.flag),
        timer_left: d.timer_left.update(k, st.timer_left),
        ..d
    }
}

/// `s` with the eight ports of knot `k` replaced by `q`.
pub open(crate) spec fn with_knot_ports(s: Seq<Signal>, k: int, q: Seq<Signal>) -> Seq<Signal> {
    Seq::new(
        s.len(),
        |i: int|
            if port_index(k, 0) <= i < port_index(k, MAX_PORTS as int) {
                q[i - port_index(k, 0)]
            } else {
                s[i]
            },
    )
}

/// The floor square root of a Level signal, in Q16.16 (zero for `i <= 0`).
pub open(crate) spec fn level_sqrt_of(i: i32) -> i32 {
    choose|r: i32| spec_level_sqrt(i, r)
}

/// The floor square root of a Count signal (zero for `i <= 0`).
pub open(crate) spec fn count_sqrt_of(i: i32) -> i32 {
    choose|r: i32| spec_count_sqrt(i, r)
}

/// There is one floor square root.
pub proof fn lemma_floor_sqrt_unique(n: int, a: int, b: int)
    requires
        is_floor_sqrt(n, a),
        is_floor_sqrt(n, b),
    ensures
        a == b,
{
    if a < b {
        assert((a + 1) * (a + 1) <= b * b) by (nonlinear_arith)
            requires
                0 <= a,
                a + 1 <= b,
        ;
    } else if b < a {
        assert((b + 1) * (b + 1) <= a * a) by (nonlinear_arith)
            requires
                0 <= b,
                b + 1 <= a,
        ;
    }
}

/// A result of `spec_level_sqrt` is the function's value.
pub proof fn lemma_level_sqrt_of(i: i32, r: i32)
    requires
        spec_level_sqrt(i, r),
    ensures
        level_sqrt_of(i) == r,
{
    let c = level_sqrt_of(i);
    assert(spec_level_sqrt(i, c));
    if i > 0 {
        lemma_floor_sqrt_unique(i * ONE, r as int, c as int);
    }
}

/// A result of `spec_count_sqrt` is the function's value.
pub proof fn lemma_count_sqrt_of(i: i32, r: i32)
    requires
        spec_count_sqrt(i, r),
    ensures
        count_sqrt_of(i) == r,
{
    let c = count_sqrt_of(i);
    assert(spec_count_sqrt(i, c));
    if i > 0 {
        lemma_floor_sqrt_unique(i as int, r as int, c as int);
    }
}

/// What evaluating knot `k` does to `d` (its inputs already gathered):
/// [`step`] for the knots it describes; the ring, random stream, square
/// root and acts for the others; nothing for seeded knots.
pub open(crate) spec fn eval_dyn(t: Tables, d: Dyn, k: int) -> Dyn {
    let tag = t.tags[k];
    let p = knot_ports(d.ports, k);
    let st = state_in(d, k);
    if is_pure(tag) {
        let (q, st2) = step(tag, p, st);
        Dyn { ports: with_knot_ports(d.ports, k, q), ..with_state(d, k, st2) }
    } else {
        match tag {
            KindTag::Delay { ticks } => if ticks == 0 {
                Dyn { ports: with_knot_ports(d.ports, k, p.update(1, p[0])), ..d }
            } else {
                let off = t.delay_off[k] as int;
                let head = d.delay_head[k] as int;
                Dyn {
                    ports: with_knot_ports(d.ports, k, p.update(1, d.delay_buf[off + head])),
                    delay_buf: d.delay_buf.update(off + head, p[0]),
                    delay_head: d.delay_head.update(k, ((head + 1) % (ticks as int)) as u16),
                    ..d
                }
            },
            KindTag::SqrtLevel => Dyn { ports: with_knot_ports(d.ports, k, p.update(1, level_sqrt_of(p[0]))), ..d },
            KindTag::SqrtCount => Dyn { ports: with_knot_ports(d.ports, k, p.update(1, count_sqrt_of(p[0]))), ..d },
            KindTag::RandomLevel { require_gate, min_wired, max_wired } | KindTag::RandomCount {
                require_gate,
                min_wired,
                max_wired,
            } => {
                let lo = if min_wired {
                    p[0]
                } else {
                    ZERO
                };
                let hi = if max_wired {
                    p[1]
                } else if tag is RandomCount {
                    1i32
                } else {
                    ONE
                };
                let sample = !require_gate || (!truthy(st.prev_in) && truthy(p[2]));
                if sample {
                    let v = spec_random_in_range(xorshift_u32(d.rng), lo, hi);
                    Dyn {
                        ports: with_knot_ports(d.ports, k, p.update(3, v)),
                        rng: xorshift(d.rng),
                        ..with_state(d, k, KnotState { prev_in: p[2], counter: v, ..st })
                    }
                } else {
                    Dyn {
                        ports: with_knot_ports(d.ports, k, p.update(3, st.counter)),
                        ..with_state(d, k, KnotState { prev_in: p[2], ..st })
                    }
                }
            },
            KindTag::SignalOut => Dyn {
                out_signals: d.out_signals.push(
                    SignalOutSample { path: HostPathId { owner: t.owner, index: t.knot_path[k] }, value: p[0] },
                ),
                ..d
            },
            KindTag::EmitCommand { enable_wired } => {
                let enable = if enable_wired {
                    p[1]
                } else {
                    ONE
                };
                let fire = !truthy(st.prev_in) && truthy(p[0]) && truthy(enable);
                let d1 = with_state(d, k, KnotState { prev_in: p[0], ..st });
                if !fire {
                    d1
                } else if d.out_emits.len() >= t.max_emits {
                    Dyn {
                        dropped: if d.dropped == usize::MAX {
                            usize::MAX
                        } else {
                            (d.dropped + 1) as usize
                        },
                        ..d1
                    }
                } else {
                    Dyn {
                        out_emits: d.out_emits.push(
                            Emit { cmd: CmdId { owner: t.owner, index: t.knot_cmd[k] }, payload: p[2] },
                        ),
                        ..d1
                    }
                }
            },
            _ => d,
        }
    }
}

/// The ports after copying the first `m` inbound entries of knot `k`, in
/// order, from their source ports.
pub open(crate) spec fn gather_ports(ports: Seq<Signal>, entries: Seq<(u16, u8, u8)>, k: int, m: int) -> Seq<Signal>
    decreases m,
{
    if m <= 0 {
        ports
    } else {
        let prev = gather_ports(ports, entries, k, m - 1);
        let e = entries[m - 1];
        prev.update(port_index(k, e.2 as int), prev[port_index(e.0 as int, e.1 as int)])
    }
}

/// `d` with the inputs of knot `k` gathered.
pub open(crate) spec fn gather_dyn(t: Tables, d: Dyn, k: int) -> Dyn {
    Dyn { ports: gather_ports(d.ports, t.inbound[k]@, k, t.inbound[k]@.len() as int), ..d }
}

/// The ports with every masked input among the first `m` zeroed.
pub open(crate) spec fn clear_ports(ports: Seq<Signal>, mask: Seq<bool>, m: int) -> Seq<Signal> {
    Seq::new(ports.len(), |i: int| if i < m && mask[i] { ZERO } else { ports[i] })
}

/// One seed written: its value to port 0 of its knot, and an `OnStart`
/// knot marked as fired.
pub open(crate) spec fn seed_step(d: Dyn, seed: SenseSeed, senses: Seq<Signal>, done0: Seq<bool>) -> Dyn {
    Dyn {
        ports: d.ports.update(port_index(seed.kid() as int, 0), seed_value(seed, senses, done0)),
        on_start_done: if seed is OnStart {
            d.on_start_done.update(seed.kid() as int, true)
        } else {
            d.on_start_done
        },
        ..d
    }
}

/// `d` with the first `m` seeds written.
pub open(crate) spec fn seeded(t: Tables, senses: Seq<Signal>, d: Dyn, m: int) -> Dyn
    decreases m,
{
    if m <= 0 {
        d
    } else {
        seed_step(seeded(t, senses, d, m - 1), t.sense_seeds[m - 1], senses, d.on_start_done)
    }
}

/// `d` after the first `m` knots of the topological order: each evaluated
/// knot's inputs gathered, then the knot evaluated; seeded knots skipped.
pub open(crate) spec fn evaluated(t: Tables, d: Dyn, m: int) -> Dyn
    decreases m,
{
    if m <= 0 {
        d
    } else {
        let prev = evaluated(t, d, m - 1);
        let k = t.topo[m - 1] as int;
        if t.tags[k] is Sense {
            prev
        } else {
            eval_dyn(t, gather_dyn(t, prev, k), k)
        }
    }
}

/// One settle: unwired inputs zeroed, seeds written, then every knot
/// evaluated in topological order.
pub open(crate) spec fn settle(t: Tables, senses: Seq<Signal>, d: Dyn) -> Dyn {
    let cleared = Dyn { ports: clear_ports(d.ports, t.clear_mask, t.clear_mask.len() as int), ..d };
    evaluated(t, seeded(t, senses, cleared, t.sense_seeds.len() as int), t.topo.len() as int)
}

/// `d` at the start of a frame: the outbox emptied.
pub open(crate) spec fn frame_start(d: Dyn) -> Dyn {
    Dyn { out_signals: Seq::empty(), out_emits: Seq::empty(), dropped: 0, ..d }
}

/// The state after a frame of `rt` whose writes leave the held senses
/// `senses`: the outbox emptied, then one settle.
pub open(crate) spec fn frame_result(rt: Runtime, senses: Seq<Signal>) -> Dyn {
    settle(tables_of(rt), senses, frame_start(dyn_of(rt)))
}

/// Settling is a function of the tables, the held senses and the state:
/// two runtimes with the same tables, senses and state settle to the same
/// state, outbox included.
pub proof fn lemma_settle_is_determined(a: Runtime, b: Runtime)
    requires
        a.same_tables(&b),
        a.same_state(&b),
        a.spec_outbox() == b.spec_outbox(),
        a.spec_rng() == b.spec_rng(),
    ensures
        settle(tables_of(a), a.spec_sense_values(), dyn_of(a)) == settle(
            tables_of(b),
            b.spec_sense_values(),
            dyn_of(b),
        ),
{
    assert(tables_of(a) == tables_of(b));
    assert(dyn_of(a) == dyn_of(b));
}

/// A runtime restored from a checkpoint runs every next frame exactly as
/// the checkpointed runtime would: for the same held senses after the
/// frame's writes, the same ports, per-knot state, rings, random stream and
/// outbox.
pub proof fn lemma_restored_frames_settle_alike(rt: Runtime, st: RuntimeState, restored: Runtime, senses: Seq<Signal>)
    requires
        snapshot_of(st, rt),
        holds_state_of(st.data, restored),
        restored.same_tables(&rt),
    ensures
        frame_result(restored, senses) == frame_result(rt, senses),
{
    assert(tables_of(restored) == tables_of(rt));
    assert(frame_start(dyn_of(restored)) == frame_start(dyn_of(rt)));
}

/// Number of `SignalOut` knots among the first `m` entries of the
/// topological order.
pub open(crate) spec fn topo_signal_outs(t: Tables, m: int) -> nat
    decreases m,
{
    if m <= 0 {
        0
    } else {
        topo_signal_outs(t, m - 1) + if t.tags[t.topo[m - 1] as int] is SignalOut {
            1nat
        } else {
            0nat
        }
    }
}

/// Evaluating a knot appends a sample exactly when it is a `SignalOut`.
proof fn lemma_eval_dyn_signals(t: Tables, d: Dyn, k: int)
    ensures
        eval_dyn(t, d, k).out_signals.len() == d.out_signals.len() + if t.tags[k] is SignalOut {
            1nat
        } else {
            0nat
        },
{
}

/// The samples after evaluating the first `m` knots of the order.
proof fn lemma_evaluated_signals(t: Tables, d: Dyn, m: int)
    requires
        0 <= m,
    ensures
        evaluated(t, d, m).out_signals.len() == d.out_signals.len() + topo_signal_outs(t, m),
    decreases m,
{
    if m > 0 {
        lemma_evaluated_signals(t, d, m - 1);
        let k = t.topo[m - 1] as int;
        if !(t.tags[k] is Sense) {
            lemma_eval_dyn_signals(t, gather_dyn(t, evaluated(t, d, m - 1), k), k);
        }
    }
}

/// Indices below `m` satisfying `p`.
pub open spec fn below_where(p: spec_fn(int) -> bool, m: int) -> Set<int> {
    Set::new(|i: int| 0 <= i < m && p(i))
}

proof fn lemma_below_where_finite(p: spec_fn(int) -> bool, m: int)
    requires
        0 <= m,
    ensures
        below_where(p, m).finite(),
        below_where(p, m).len() <= m,
{
    vstd::set_lib::lemma_int_range(0, m);
    vstd::set_lib::lemma_len_subset(below_where(p, m), vstd::set_lib::set_int_range(0, m));
}

proof fn lemma_topo_count_set(t: Tables, m: int)
    requires
        0 <= m,
    ensures
        topo_signal_outs(t, m) == below_where(|i: int| t.tags[t.topo[i] as int] is SignalOut, m).len(),
    decreases m,
{
    let p = |i: int| t.tags[t.topo[i] as int] is SignalOut;
    if m == 0 {
        assert(below_where(p, 0) =~= Set::empty());
    } else {
        lemma_topo_count_set(t, m - 1);
        lemma_below_where_finite(p, m - 1);
        if p(m - 1) {
            assert(below_where(p, m) =~= below_where(p, m - 1).insert(m - 1));
        } else {
            assert(below_where(p, m) =~= below_where(p, m - 1));
        }
    }
}

proof fn lemma_tag_count_set(tags: Seq<KindTag>, m: int)
    requires
        0 <= m,
    ensures
        crate::runtime::count_signal_outs(tags, m) == below_where(|k: int| tags[k] is SignalOut, m).len(),
    decreases m,
{
    let p = |k: int| tags[k] is SignalOut;
    if m == 0 {
        assert(below_where(p, 0) =~= Set::empty());
    } else {
        lemma_tag_count_set(tags, m - 1);
        lemma_below_where_finite(p, m - 1);
        if p(m - 1) {
            assert(below_where(p, m) =~= below_where(p, m - 1).insert(m - 1));
        } else {
            assert(below_where(p, m) =~= below_where(p, m - 1));
        }
    }
}

/// The order is a permutation of the knots.
pub open(crate) spec fn topo_is_permutation(t: Tables) -> bool {
    let n = t.tags.len();
    &&& t.topo.len() == n
    &&& forall|i: int| 0 <= i < n ==> (#[trigger] t.topo[i]) < n
    &&& forall|a: int, b: int| 0 <= a < b < n ==> #[trigger] t.topo[a] != #[trigger] t.topo[b]
}

/// Counting `SignalOut` knots along a permutation counts them all.
proof fn lemma_topo_signal_outs_all(t: Tables)
    requires
        topo_is_permutation(t),
    ensures
        topo_signal_outs(t, t.tags.len() as int) == crate::runtime::count_signal_outs(t.tags, t.tags.len() as int),
{
    let n = t.tags.len() as int;
    let f = |i: int| t.topo[i] as int;
    let pa = |i: int| t.tags[t.topo[i] as int] is SignalOut;
    let pb = |k: int| t.tags[k] is SignalOut;
    let all = |i: int| true;
    lemma_topo_count_set(t, n);
    lemma_tag_count_set(t.tags, n);
    lemma_below_where_finite(pa, n);
    lemma_below_where_finite(all, n);
    vstd::set_lib::lemma_int_range(0, n);
    // The order reaches every knot.
    let range = vstd::set_lib::set_int_range(0, n);
    assert(vstd::relations::injective_on(f, below_where(all, n))) by {
        assert forall|a: int, b: int| below_where(all, n).contains(a) && below_where(all, n).contains(b) && #[trigger] f(a)
            == #[trigger] f(b) implies a == b by {
            if a < b {
                assert(t.topo[a] != t.topo[b]);
            } else if b < a {
                assert(t.topo[b] != t.topo[a]);
            }
        }
    }
    vstd::set_lib::lemma_map_size(below_where(all, n), below_where(all, n).map(f), f);
    assert(below_where(all, n) =~= range);
    assert(below_where(all, n).map(f).subset_of(range)) by {
        assert forall|k: int| below_where(all, n).map(f).contains(k) implies range.contains(k) by {
            let i = choose|i: int| below_where(all, n).contains(i) && f(i) == k;
            assert(t.topo[i] < n);
        }
    }
    vstd::set_lib::lemma_subset_equality(below_where(all, n).map(f), range);
    // Hence the `SignalOut` positions map onto the `SignalOut` knots.
    assert(below_where(pa, n).map(f) =~= below_where(pb, n)) by {
        assert forall|k: int| below_where(pb, n).contains(k) implies below_where(pa, n).map(f).contains(k) by {
            assert(range.contains(k));
            assert(below_where(all, n).map(f).contains(k));
            let i = choose|i: int| below_where(all, n).contains(i) && f(i) == k;
            assert(below_where(pa, n).contains(i));
        }
        assert forall|k: int| below_where(pa, n).map(f).contains(k) implies below_where(pb, n).contains(k) by {
            let i = choose|i: int| below_where(pa, n).contains(i) && f(i) == k;
            assert(t.topo[i] < n);
        }
    }
    assert(vstd::relations::injective_on(f, below_where(pa, n))) by {
        assert forall|a: int, b: int| below_where(pa, n).contains(a) && below_where(pa, n).contains(b) && #[trigger] f(a)
            == #[trigger] f(b) implies a == b by {
            if a < b {
                assert(t.topo[a] != t.topo[b]);
            } else if b < a {
                assert(t.topo[b] != t.topo[a]);
            }
        }
    }
    vstd::set_lib::lemma_map_size(below_where(pa, n), below_where(pb, n), f);
}

/// Every frame writes exactly one sample per `SignalOut` knot: the outbox
/// after a frame holds as many samples as the runtime has `SignalOut` tags
/// (the weave's `SignalOut` knots, by `lemma_signal_capacity_is_signal_out_knots`),
/// whatever the held senses.
pub proof fn lemma_one_sample_per_signal_out(rt: Runtime, senses: Seq<Signal>)
    requires
        rt.wf(),
        topo_is_permutation(tables_of(rt)),
    ensures
        frame_result(rt, senses).out_signals.len() == crate::runtime::count_signal_outs(
            rt.spec_tags(),
            rt.spec_tags().len() as int,
        ),
{
    let t = tables_of(rt);
    let d = frame_start(dyn_of(rt));
    let cleared = Dyn { ports: clear_ports(d.ports, t.clear_mask, t.clear_mask.len() as int), ..d };
    let s0 = seeded(t, senses, cleared, t.sense_seeds.len() as int);
    lemma_seeded_signals(t, senses, cleared, t.sense_seeds.len() as int);
    lemma_evaluated_signals(t, s0, t.topo.len() as int);
    lemma_topo_signal_outs_all(t);
}

proof fn lemma_seeded_signals(t: Tables, senses: Seq<Signal>, d: Dyn, m: int)
    ensures
        seeded(t, senses, d, m).out_signals == d.out_signals,
    decreases m,
{
    if m > 0 {
        lemma_seeded_signals(t, senses, d, m - 1);
    }
}

/// A bound runtime, and every runtime with its tables, orders its knots by a
/// permutation.
pub proof fn lemma_bound_topo_is_permutation(rt0: Runtime, rt: Runtime, weave: crate::weave::Weave, opts: crate::runtime::BindOpts)
    requires
        crate::runtime::bound_from(rt0, weave, opts),
        rt.same_tables(&rt0),
    ensures
        topo_is_permutation(tables_of(rt)),
{
}

/// Whether the `EmitCommand` knot `k` fires when evaluated in `d`: its
/// trigger rises while its enable (ONE when unwired) is truthy.
pub open(crate) spec fn emit_fires(t: Tables, d: Dyn, k: int) -> bool {
    match t.tags[k] {
        KindTag::EmitCommand { enable_wired } => {
            let p = knot_ports(d.ports, k);
            let enable = if enable_wired {
                p[1]
            } else {
                ONE
            };
            !truthy(state_in(d, k).prev_in) && truthy(p[0]) && truthy(enable)
        },
        _ => false,
    }
}

/// How many `EmitCommand` knots fire among the first `m` knots of the order.
pub open(crate) spec fn topo_fires(t: Tables, d: Dyn, m: int) -> nat
    decreases m,
{
    if m <= 0 {
        0
    } else {
        let k = t.topo[m - 1] as int;
        topo_fires(t, d, m - 1) + if !(t.tags[k] is Sense) && emit_fires(t, gather_dyn(t, evaluated(t, d, m - 1), k), k) {
            1nat
        } else {
            0nat
        }
    }
}

proof fn lemma_eval_dyn_emits(t: Tables, d: Dyn, k: int)
    ensures
        ({
            let e = eval_dyn(t, d, k);
            if emit_fires(t, d, k) {
                if d.out_emits.len() < t.max_emits {
                    e.out_emits.len() == d.out_emits.len() + 1 && e.dropped == d.dropped
                } else {
                    e.out_emits.len() == d.out_emits.len() && e.dropped == (if d.dropped == usize::MAX {
                        usize::MAX as int
                    } else {
                        d.dropped + 1
                    })
                }
            } else {
                e.out_emits.len() == d.out_emits.len() && e.dropped == d.dropped
            }
        }),
{
}

proof fn lemma_evaluated_emits(t: Tables, d: Dyn, m: int)
    requires
        0 <= m <= 65536,
        d.out_emits.len() == 0,
        d.dropped == 0,
    ensures
        topo_fires(t, d, m) <= m,
        evaluated(t, d, m).out_emits.len() == if topo_fires(t, d, m) < t.max_emits {
            topo_fires(t, d, m) as int
        } else {
            t.max_emits as int
        },
        evaluated(t, d, m).dropped == if topo_fires(t, d, m) < t.max_emits {
            0
        } else {
            topo_fires(t, d, m) - t.max_emits
        },
    decreases m,
{
    if m > 0 {
        lemma_evaluated_emits(t, d, m - 1);
        let k = t.topo[m - 1] as int;
        if !(t.tags[k] is Sense) {
            let g = gather_dyn(t, evaluated(t, d, m - 1), k);
            lemma_eval_dyn_emits(t, g, k);
        }
    }
}

/// Every frame keeps at most `max_emits_per_tick` emits and counts the
/// rest as dropped: with `E` the number of commands that fire in the frame,
/// the outbox holds `min(E, cap)` emits and `E - min(E, cap)` drops.
pub proof fn lemma_emits_capped(rt: Runtime, senses: Seq<Signal>)
    requires
        rt.wf(),
    ensures
        ({
            let t = tables_of(rt);
            let d = frame_start(dyn_of(rt));
            let cleared = Dyn { ports: clear_ports(d.ports, t.clear_mask, t.clear_mask.len() as int), ..d };
            let s0 = seeded(t, senses, cleared, t.sense_seeds.len() as int);
            let fires = topo_fires(t, s0, t.topo.len() as int);
            let r = frame_result(rt, senses);
            &&& r.out_emits.len() == if fires < rt.spec_max_emits() {
                fires as int
            } else {
                rt.spec_max_emits() as int
            }
            &&& r.dropped == if fires < rt.spec_max_emits() {
                0
            } else {
                fires - rt.spec_max_emits()
            }
        }),
{
    let t = tables_of(rt);
    let d = frame_start(dyn_of(rt));
    let cleared = Dyn { ports: clear_ports(d.ports, t.clear_mask, t.clear_mask.len() as int), ..d };
    lemma_seeded_outbox(t, senses, cleared, t.sense_seeds.len() as int);
    let s0 = seeded(t, senses, cleared, t.sense_seeds.len() as int);
    lemma_evaluated_emits(t, s0, t.topo.len() as int);
}

proof fn lemma_seeded_outbox(t: Tables, senses: Seq<Signal>, d: Dyn, m: int)
    ensures
        seeded(t, senses, d, m).out_emits == d.out_emits,
        seeded(t, senses, d, m).dropped == d.dropped,
    decreases m,
{
    if m > 0 {
        lemma_seeded_outbox(t, senses, d, m - 1);
    }
}

} // verus!
