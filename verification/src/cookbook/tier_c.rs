//! Tier C: latches, timers, remapping and one-shot commands.

use vstd::prelude::*;

use crate::builder::BuildError;
use crate::catalog::{CompareOp, FlagPriority, KnotKind, SignalDomain, TimerMode};
use crate::signal::{bool_signal, truthy};
use crate::loom::flag_next;
use crate::cookbook::helpers::{bind_default, build_weave, expect_emits, expect_truthy, expect_value, knot_def, knot_shapes, sense, thread_names, tick_senses, weave_built, KnotShape};
use crate::cookbook::tier_b::handle_step;
use crate::host::ScriptedHost;
use crate::runtime_error::CookbookError;
use crate::signal::{from_count, ONE, ZERO};
use crate::weave::{KnotDef, ThreadDef, Weave};
use crate::catalog::NumericPath;
use crate::cookbook::helpers::{add_fault, assembly_fault, find_shape_from, scan_adds, scan_wires, shape_of, threads_named, wire_fault};
use crate::cookbook::tier_b::{lemma_chain3_depth, lemma_chain3_path};
use crate::handles::{CmdId, HostPathId, SenseId};
use crate::kind_tag::KindTag;
use crate::loom::knot_ports;
use crate::outbox::SignalOutSample;
use crate::runtime::{Runtime, SenseSeed};
use crate::runtime_error::HandleError;
use crate::settle::{clear_ports, eval_dyn, evaluated, gather_dyn, gather_ports, seeded, settle, Dyn, Tables};
use crate::signal::{spec_map, I32MapPlan, Signal};
use crate::kind_tag::{spec_digitize, DigitizePlan};
use crate::validate::{find_knot, find_knot_from, structural_fault};

verus! {

/// Knots of C01.
pub open spec fn c01_knots() -> Seq<(Seq<char>, KnotShape)> {
    seq![
        ("a"@, KnotShape::Plain(KnotKind::SignalIn { domain: SignalDomain::Bool })),
        ("b"@, KnotShape::Plain(KnotKind::SignalIn { domain: SignalDomain::Bool })),
        ("both"@, KnotShape::Plain(KnotKind::And { arity: 2 })),
        ("edge"@, KnotShape::Plain(KnotKind::RisingFromZero)),
        ("rst"@, KnotShape::Plain(KnotKind::SignalIn { domain: SignalDomain::Bool })),
        ("flag"@, KnotShape::Plain(KnotKind::Flag { priority: FlagPriority::ResetWins, enable_toggle: false })),
        ("out"@, KnotShape::Out { path: "door.open"@, domain: SignalDomain::Bool }),
    ]
}

/// Threads of C01.
pub open spec fn c01_threads() -> Seq<(Seq<char>, Seq<char>, Seq<char>, Seq<char>)> {
    seq![("a"@, "out"@, "both"@, "in_0"@), ("b"@, "out"@, "both"@, "in_1"@), ("both"@, "out"@, "edge"@, "in"@), ("edge"@, "out"@, "flag"@, "set"@), ("rst"@, "out"@, "flag"@, "reset"@), ("flag"@, "out"@, "out"@, "in"@)]
}

/// Topology of C01: two switches latch the door open until reset.
pub fn c01_multi_switch_latch_weave() -> (r: Result<Weave, BuildError>)
    ensures
        weave_built(r, "c01"@, c01_knots(), c01_threads()),
{
    let knots = vec![
        knot_def("a", KnotKind::signal_in(SignalDomain::Bool)),
        knot_def("b", KnotKind::signal_in(SignalDomain::Bool)),
        knot_def("both", KnotKind::and2()),
        knot_def("edge", KnotKind::rising_from_zero()),
        knot_def("rst", KnotKind::signal_in(SignalDomain::Bool)),
        knot_def("flag", KnotKind::flag(FlagPriority::ResetWins, false)),
        knot_def("out", KnotKind::signal_out("door.open", SignalDomain::Bool)),
    ];
    let threads: &[(&str, &str, &str, &str)] = &[("a", "out", "both", "in_0"), ("b", "out", "both", "in_1"), ("both", "out", "edge", "in"), ("edge", "out", "flag", "set"), ("rst", "out", "flag", "reset"), ("flag", "out", "out", "in")];
    proof {
        assert(knot_shapes(knots@) =~= c01_knots());
        assert(thread_names(threads@) =~= c01_threads());
    }
    build_weave("c01", knots, threads)
}

/// C01: both switches latch the door; releasing keeps it; reset clears it.
pub fn run_c01_multi_switch_latch() -> (r: Result<(), CookbookError>) {
    let weave = c01_multi_switch_latch_weave()?;
    let mut rt = bind_default(&weave)?;
    let a = sense(&rt, "a")?;
    let b = sense(&rt, "b")?;
    let r = sense(&rt, "rst")?;
    let mut h = ScriptedHost::new();
    handle_step(tick_senses(&mut h, &mut rt, &[(a, ONE), (b, ZERO), (r, ZERO)]))?;
    expect_truthy(&rt, "door.open", false)?;
    handle_step(tick_senses(&mut h, &mut rt, &[(a, ONE), (b, ONE), (r, ZERO)]))?;
    expect_truthy(&rt, "door.open", true)?;
    handle_step(tick_senses(&mut h, &mut rt, &[(a, ZERO), (b, ZERO), (r, ZERO)]))?;
    expect_truthy(&rt, "door.open", true)?;
    handle_step(tick_senses(&mut h, &mut rt, &[(a, ZERO), (b, ZERO), (r, ONE)]))?;
    expect_truthy(&rt, "door.open", false)
}

/// Knots of C02.
pub open spec fn c02_knots() -> Seq<(Seq<char>, KnotShape)> {
    seq![
        ("plate"@, KnotShape::Plain(KnotKind::SignalIn { domain: SignalDomain::Bool })),
        ("t"@, KnotShape::Plain(KnotKind::Timer { mode: TimerMode::FedCountdown, ticks: 2 })),
        ("out"@, KnotShape::Out { path: "unlocked"@, domain: SignalDomain::Bool }),
    ]
}

/// Threads of C02.
pub open spec fn c02_threads() -> Seq<(Seq<char>, Seq<char>, Seq<char>, Seq<char>)> {
    seq![("plate"@, "out"@, "t"@, "feed"@), ("t"@, "active"@, "out"@, "in"@)]
}

/// C02's graph is within the default budget.
proof fn lemma_c02_budget(ks: Seq<KnotDef>, ts: Seq<ThreadDef>)
    requires
        knot_shapes(ks) == c02_knots(),
        threads_named(ts, c02_threads()),
    ensures
        crate::validate::budget_fault(ks, ts, crate::validate::spec_default_budget()) is None,
        crate::runtime::delay_prefix(ks, 3) <= crate::validate::MAX_DENSE,
{
    lemma_c02_valid(ks, ts);
    lemma_c02_knots(ks);
    reveal_with_fuel(crate::validate::scan_fan_out, 3);
    reveal_with_fuel(crate::validate::out_count, 3);
    reveal_with_fuel(crate::validate::scan_depth, 4);
    reveal_with_fuel(crate::runtime::delay_prefix, 4);
    let e = crate::validate::knot_edges(ks, ts);
    let w = crate::validate::delay_weights(ks);
    reveal_strlit("in");
    reveal_strlit("t");
    reveal_strlit("plate");
    reveal_strlit("feed");
    reveal_strlit("active");
    reveal_strlit("out");
    reveal_with_fuel(find_knot_from, 4);
    assert("t"@[0] != "out"@[0] && "feed"@[0] != "active"@[0]);
    assert(ts.len() == 2);
    assert(find_knot(ks, "plate"@) == Some(0int));
    assert(find_knot(ks, "t"@) == Some(1int));
    assert(find_knot(ks, "out"@) == Some(2int));
    assert(e =~= seq![(0usize, 1usize), (1usize, 2usize)]);
    assert(w =~= seq![0u16, 0, 0]);
    lemma_chain3_depth(e, w, 0, 0);
    lemma_chain3_depth(e, w, 1, 0);
    lemma_chain3_depth(e, w, 2, 0);
    assert(crate::validate::scan_depth(e, w, crate::validate::spec_default_budget(), 0) is None);
}

/// The knots of any weave with C02's shapes, as the kinds they must be.
proof fn lemma_c02_knots(ks: Seq<KnotDef>)
    requires
        knot_shapes(ks) == c02_knots(),
    ensures
        ks.len() == 3,
        ks[0].id@ == "plate"@ && ks[1].id@ == "t"@ && ks[2].id@ == "out"@,
        ks[0].kind == (KnotKind::SignalIn { domain: SignalDomain::Bool }),
        ks[1].kind == (KnotKind::Timer { mode: TimerMode::FedCountdown, ticks: 2 }),
        ks[2].kind matches KnotKind::SignalOut { path, domain } && path@ == "unlocked"@ && domain == SignalDomain::Bool,
{
    assert(knot_shapes(ks).len() == ks.len());
    assert(knot_shapes(ks)[0] == (ks[0].id@, shape_of(ks[0].kind)));
    assert(knot_shapes(ks)[1] == (ks[1].id@, shape_of(ks[1].kind)));
    assert(knot_shapes(ks)[2] == (ks[2].id@, shape_of(ks[2].kind)));
}

/// C02's knots and threads assemble: ids distinct, every thread names
/// known knots and ports of the right direction.
proof fn lemma_c02_assembled()
    ensures
        assembly_fault("c02"@, c02_knots(), c02_threads()) is None,
{
    reveal_strlit("c02");
    reveal_strlit("in");
    reveal_strlit("t");
    reveal_strlit("plate");
    reveal_strlit("feed");
    reveal_strlit("active");
    reveal_strlit("out");
    reveal_with_fuel(find_shape_from, 4);
    reveal_with_fuel(crate::catalog::find_port, 3);
    reveal_with_fuel(scan_adds, 4);
    reveal_with_fuel(scan_wires, 3);
    assert("t"@[0] != "out"@[0] && "feed"@[0] != "active"@[0]);
    let d = c02_knots();
    assert(d.subrange(0, 1) =~= seq![d[0]]);
    assert(d.subrange(0, 2) =~= seq![d[0], d[1]]);
    assert(d.subrange(0, 0) =~= Seq::<(Seq<char>, KnotShape)>::empty());
    assert(add_fault(d, 0) is None);
    assert(add_fault(d, 1) is None);
    assert(add_fault(d, 2) is None);
    assert(scan_adds(d, 0) is None);
    let names = c02_threads();
    assert(wire_fault(d, names[0]) is None);
    assert(wire_fault(d, names[1]) is None);
    assert(scan_wires(d, names, 0) is None);
}

/// C02's graph is authored and validates: ids distinct, every thread
/// resolves Out to In without fan-in, required inputs fed, no loop, acyclic.
proof fn lemma_c02_valid(ks: Seq<KnotDef>, ts: Seq<ThreadDef>)
    requires
        knot_shapes(ks) == c02_knots(),
        threads_named(ts, c02_threads()),
    ensures
        assembly_fault("c02"@, c02_knots(), c02_threads()) is None,
        structural_fault("c02"@, NumericPath::spec_compiled(), ks, ts) is None,
{
    reveal_strlit("c02");
    reveal_strlit("in");
    reveal_strlit("t");
    reveal_strlit("plate");
    reveal_strlit("feed");
    reveal_strlit("active");
    reveal_strlit("out");
    reveal_with_fuel(find_shape_from, 4);
    reveal_with_fuel(find_knot_from, 4);
    reveal_with_fuel(crate::catalog::find_port, 3);
    reveal_with_fuel(crate::validate::scan_knots, 4);
    reveal_with_fuel(crate::validate::scan_threads, 3);
    reveal_with_fuel(crate::validate::scan_required, 4);
    reveal_with_fuel(crate::validate::scan_ports, 3);
    reveal_with_fuel(crate::validate::scan_self, 3);
    reveal_with_fuel(scan_adds, 4);
    reveal_with_fuel(scan_wires, 3);
    lemma_c02_knots(ks);
    assert("t"@[0] != "out"@[0] && "feed"@[0] != "active"@[0]);
    let d = c02_knots();
    assert(d.subrange(0, 1) =~= seq![d[0]]);
    assert(d.subrange(0, 2) =~= seq![d[0], d[1]]);
    assert(d.subrange(0, 0) =~= Seq::<(Seq<char>, KnotShape)>::empty());
    assert(add_fault(d, 0) is None);
    assert(add_fault(d, 1) is None);
    assert(add_fault(d, 2) is None);
    assert(scan_adds(d, 0) is None);
    let names = c02_threads();
    assert(wire_fault(d, names[0]) is None);
    assert(wire_fault(d, names[1]) is None);
    assert(scan_wires(d, names, 0) is None);
    assert(ts.len() == 2);
    assert(ts[0].from.knot@ == "plate"@ && ts[0].from.port@ == "out"@ && ts[0].to.knot@ == "t"@ && ts[0].to.port@ == "feed"@);
    assert(ts[1].from.knot@ == "t"@ && ts[1].from.port@ == "active"@ && ts[1].to.knot@ == "out"@ && ts[1].to.port@ == "in"@);
    assert(find_knot(ks, "plate"@) == Some(0int));
    assert(find_knot(ks, "t"@) == Some(1int));
    assert(find_knot(ks, "out"@) == Some(2int));
    assert(crate::validate::knot_fault(ks, 0) is None);
    assert(crate::validate::knot_fault(ks, 1) is None);
    assert(crate::validate::knot_fault(ks, 2) is None);
    assert(crate::validate::scan_knots(ks, 0) is None);
    assert(crate::validate::target_of(ks, ts[0]) == Some((1int, 0int)));
    assert(crate::validate::target_of(ks, ts[1]) == Some((2int, 0int)));
    assert(!crate::validate::earlier_same_target(ks, ts, 0));
    assert(!crate::validate::earlier_same_target(ks, ts, 1));
    assert(crate::validate::thread_fault(ks, ts, 0) is None);
    assert(crate::validate::thread_fault(ks, ts, 1) is None);
    assert(crate::validate::scan_threads(ks, ts, 0) is None);
    assert(crate::validate::wired(ks, ts, 1, 0));
    assert(crate::validate::wired(ks, ts, 2, 0));
    assert(crate::validate::scan_ports(ks, ts, Seq::empty(), 0, 0) is None);
    assert(crate::validate::scan_ports(ks, ts, Seq::empty(), 1, 0) is None);
    assert(crate::validate::scan_ports(ks, ts, Seq::empty(), 2, 0) is None);
    assert(crate::validate::scan_required(ks, ts, Seq::empty(), 0) is None);
    assert(crate::validate::scan_self(ks, ts, 0) is None);
    let e = crate::validate::knot_edges(ks, ts);
    assert(e[0] == (0usize, 1usize) && e[1] == (1usize, 2usize));
    assert(crate::graph::is_rank(3, e, seq![0int, 1, 2]));
}

/// The output of C02's fed countdown after a frame sensing `v`, from the
/// previous input `prev` and the ticks `left` still to run.
spec fn c02_active(v: Signal, prev: Signal, left: u16) -> Signal {
    if truthy(v) {
        let l0 = if !truthy(prev) { 2 } else { left };
        bool_signal(l0 <= 1)
    } else {
        ZERO
    }
}

/// The ticks C02's fed countdown still has to run after a frame sensing `v`.
spec fn c02_left(v: Signal, prev: Signal, left: u16) -> u16 {
    if truthy(v) {
        let l0 = if !truthy(prev) { 2 } else { left };
        if l0 > 0 { (l0 - 1) as u16 } else { 0 }
    } else {
        0
    }
}

/// One settle of C02's tables: the fed countdown steps on the sensed value
/// and its output is sampled on `unlocked`.
proof fn lemma_c02_settle(t: Tables, senses: Seq<Signal>, d: Dyn)
    requires
        t.tags.len() == 3,
        t.tags[0] is Sense,
        t.tags[1] == (KindTag::TimerFedCountdown { ticks: 2 }),
        t.tags[2] is SignalOut,
        t.topo == seq![0u16, 1, 2],
        t.inbound.len() == 3,
        t.inbound[1]@ == seq![(0u16, 0u8, 0u8)],
        t.inbound[2]@ == seq![(1u16, 1u8, 0u8)],
        t.clear_mask.len() == 24,
        forall|i: int| 0 <= i < 24 ==> !#[trigger] t.clear_mask[i],
        t.sense_seeds == seq![SenseSeed::SignalIn { kid: 0 }],
        t.knot_path.len() == 3,
        t.knot_path[2] == 0,
        d.ports.len() == 24,
        d.prev_in.len() == 3,
        d.timer_left.len() == 3,
        senses.len() == 3,
    ensures
        ({
            let r = settle(t, senses, d);
            let v = senses[0];
            &&& r.out_signals == d.out_signals.push(
                SignalOutSample { path: HostPathId { owner: t.owner, index: 0 }, value: c02_active(v, d.prev_in[1], d.timer_left[1]) },
            )
            &&& r.prev_in == d.prev_in.update(1, v)
            &&& r.timer_left == d.timer_left.update(1, c02_left(v, d.prev_in[1], d.timer_left[1]))
        }),
{
    let v = senses[0];
    let cleared = Dyn { ports: clear_ports(d.ports, t.clear_mask, t.clear_mask.len() as int), ..d };
    assert(cleared.ports =~= d.ports);
    reveal_with_fuel(seeded, 2);
    let s0 = seeded(t, senses, cleared, 1);
    assert(s0.ports == d.ports.update(0, v));
    assert(s0.out_signals == d.out_signals && s0.prev_in == d.prev_in && s0.timer_left == d.timer_left);
    reveal_with_fuel(evaluated, 4);
    let e1 = evaluated(t, s0, 1);
    assert(e1 == s0);
    let g1 = gather_dyn(t, e1, 1);
    reveal_with_fuel(gather_ports, 2);
    assert(g1.ports == s0.ports.update(8, s0.ports[0]));
    let e2 = evaluated(t, s0, 2);
    assert(e2 == eval_dyn(t, g1, 1));
    let p1 = knot_ports(g1.ports, 1);
    assert(p1[0] == v);
    let out = c02_active(v, d.prev_in[1], d.timer_left[1]);
    assert(e2.ports[9] == out);
    assert(e2.ports.len() == 24);
    assert(e2.out_signals == d.out_signals);
    assert(e2.prev_in == d.prev_in.update(1, v));
    assert(e2.timer_left == d.timer_left.update(1, c02_left(v, d.prev_in[1], d.timer_left[1])));
    let g2 = gather_dyn(t, e2, 2);
    assert(g2.ports == e2.ports.update(16, e2.ports[9]));
    let e3 = evaluated(t, s0, 3);
    assert(e3 == eval_dyn(t, g2, 2));
    assert(knot_ports(g2.ports, 2)[0] == out);
}

/// A runtime of C02: its tables, its one host path `unlocked` and its sense
/// `plate`.
spec fn c02_shaped(rt: Runtime) -> bool {
    let t = crate::settle::tables_of(rt);
    &&& rt.wf()
    &&& t.tags.len() == 3
    &&& t.tags[0] is Sense
    &&& t.tags[1] == (KindTag::TimerFedCountdown { ticks: 2 })
    &&& t.tags[2] is SignalOut
    &&& t.topo == seq![0u16, 1, 2]
    &&& t.inbound.len() == 3
    &&& t.inbound[1]@ == seq![(0u16, 0u8, 0u8)]
    &&& t.inbound[2]@ == seq![(1u16, 1u8, 0u8)]
    &&& t.clear_mask.len() == 24
    &&& forall|i: int| 0 <= i < 24 ==> !#[trigger] t.clear_mask[i]
    &&& t.sense_seeds == seq![SenseSeed::SignalIn { kid: 0 }]
    &&& t.knot_path.len() == 3
    &&& t.knot_path[2] == 0
    &&& t.owner == rt.spec_owner()
    &&& crate::validate::names_view(rt.spec_path_names()) == seq!["unlocked"@]
    &&& rt.spec_knots().len() == 3
    &&& find_knot(rt.spec_knots(), "plate"@) == Some(0int)
    &&& rt.spec_knots()[0].kind == (KnotKind::SignalIn { domain: SignalDomain::Bool })
}

/// The tables of every bind of a weave with C02's knots and threads.
proof fn lemma_c02_tables(rt: Runtime, w: Weave, opts: crate::runtime::BindOpts)
    requires
        crate::runtime::bound_from(rt, w, opts),
        knot_shapes(w.spec_knots()) == c02_knots(),
        threads_named(w.spec_threads(), c02_threads()),
    ensures
        c02_shaped(rt),
{
    let ks = w.spec_knots();
    let ts = w.spec_threads();
    lemma_c02_knots(ks);
    lemma_c02_valid(ks, ts);
    reveal_strlit("in");
    reveal_strlit("t");
    reveal_strlit("plate");
    reveal_strlit("feed");
    reveal_strlit("active");
    reveal_strlit("out");
    reveal_strlit("unlocked");
    reveal_with_fuel(find_knot_from, 4);
    assert("t"@[0] != "out"@[0] && "feed"@[0] != "active"@[0]);
    assert(find_knot(ks, "plate"@) == Some(0int));
    assert(find_knot(ks, "t"@) == Some(1int));
    assert(find_knot(ks, "out"@) == Some(2int));
    let th = rt.spec_threads();
    assert(ts.len() == 2);
    reveal_with_fuel(crate::catalog::find_port, 3);
    assert("in"@[0] != "out"@[0] && "feed"@[0] != "active"@[0]);
    assert(crate::catalog::find_port(crate::catalog::port_table(ks[1].kind), "active"@) == Some(1int));
    assert(crate::catalog::find_port(crate::catalog::port_table(ks[1].kind), "feed"@) == Some(0int));
    assert(crate::catalog::find_port(crate::catalog::port_table(ks[2].kind), "in"@) == Some(0int));
    assert(crate::runtime::thread_resolved(ks, ts[0], th[0]));
    assert(crate::runtime::thread_resolved(ks, ts[1], th[1]));
    assert(th[0] == (0u16, 0u8, 1u16, 0u8));
    assert(th[1] == (1u16, 1u8, 2u16, 0u8));
    reveal_with_fuel(crate::runtime::into_prefix, 3);
    assert(rt.inbound@[1]@ =~= seq![(0u16, 0u8, 0u8)]);
    assert(rt.inbound@[2]@ =~= seq![(1u16, 1u8, 0u8)]);
    assert(rt.inbound@[0]@ =~= Seq::<(u16, u8, u8)>::empty());
    // Tags.
    assert(crate::runtime::tag_refines(rt.tags@[1], ks[1].kind, rt.inbound@[1]@));
    assert(rt.tags@[0] is Sense);
    assert(rt.tags@[2] is SignalOut);
    // The order: three distinct knots, each thread forward.
    let tp = rt.topo@;
    assert(tp.len() == 3);
    assert(tp[0] < 3 && tp[1] < 3 && tp[2] < 3);
    assert(tp[0] != tp[1] && tp[0] != tp[2] && tp[1] != tp[2]);
    assert(th[0].0 != th[0].2 && th[1].0 != th[1].2);
    assert(tp =~= seq![0u16, 1, 2]);
    // Seeds: only knot 0 is seeded.
    let sd = rt.sense_seeds@;
    assert(crate::runtime::seeds_match(sd, ks));
    assert forall|j: int| 0 <= j < sd.len() implies (#[trigger] sd[j]).kid() == 0 by {
        assert(sd[j].kid() < 3);
    }
    let j0 = choose|j: int| 0 <= j < sd.len() && #[trigger] sd[j].kid() == 0;
    if sd.len() > 1 {
        assert(sd[0].kid() < sd[1].kid());
    }
    assert(sd.len() == 1);
    assert(sd[0] == SenseSeed::SignalIn { kid: 0 });
    assert(sd =~= seq![SenseSeed::SignalIn { kid: 0 }]);
    // No input is left unwired.
    let iv = rt.inbound@.map_values(|v: Vec<(u16, u8, u8)>| v@);
    assert(iv[1] == seq![(0u16, 0u8, 0u8)]);
    assert(iv[2] == seq![(1u16, 1u8, 0u8)]);
    assert(iv[1][0].2 == 0 && iv[2][0].2 == 0);
    assert(crate::runtime::wired_slot(iv[1], 0));
    assert(crate::runtime::wired_slot(iv[2], 0));
    assert forall|i: int| 0 <= i < 24 implies !#[trigger] rt.clear_mask@[i] by {
        let k = i / 8;
        let q = i % 8;
        assert(i == crate::runtime::port_index(k, q));
        assert(!crate::runtime::clear_slot(ks, iv, k, q));
    }
    // Paths: only "unlocked".
    reveal_with_fuel(crate::runtime::paths_seen, 4);
    assert(crate::runtime::paths_seen(ks, 3) =~= seq!["unlocked"@]);
    assert(rt.knot_path@[2] < rt.path_names@.len());
}

/// One C02 frame writing the Bool `v` to the sense `plate`: it is accepted,
/// the countdown steps, and its output is sampled on `unlocked`.
proof fn lemma_c02_frame(before: Runtime, after: Runtime, id: SenseId, v: Signal, r: Result<(), HandleError>)
    requires
        c02_shaped(before),
        after.wf(),
        after.same_tables(&before),
        id.spec_owner() == before.spec_owner(),
        id.spec_index() == 0,
        v == ZERO || v == ONE,
        crate::host::frame_ran(before, seq![(id, v)], r, after),
    ensures
        r is Ok,
        c02_shaped(after),
        after.prev_in@[1] == v,
        after.timer_left@[1] == c02_left(v, before.prev_in@[1], before.timer_left@[1]),
        crate::cookbook::helpers::signal_out_of(after, "unlocked"@) == Some(c02_active(v, before.prev_in@[1], before.timer_left@[1])),
{
    let senses = seq![(id, v)];
    assert(crate::host::write_ok(before, senses[0].0, senses[0].1));
    assert(crate::settle::tables_of(after) == crate::settle::tables_of(before));
    assert(after.spec_path_names() == before.spec_path_names());
    assert(after.spec_knots() == before.spec_knots());
    let sv = after.spec_sense_values();
    assert(sv == crate::host::senses_after(before.spec_sense_values(), senses, 1));
    reveal_with_fuel(crate::host::senses_after, 2);
    assert(sv == before.spec_sense_values().update(0, v));
    assert(sv[0] == v && sv.len() == 3);
    let d = crate::settle::frame_start(crate::settle::dyn_of(before));
    lemma_c02_settle(crate::settle::tables_of(before), sv, d);
    let out = c02_active(v, before.prev_in@[1], before.timer_left@[1]);
    assert(after.out_signals@ == seq![SignalOutSample { path: HostPathId { owner: before.spec_owner(), index: 0 }, value: out }]);
    let names = after.spec_path_names();
    assert(crate::validate::names_view(names).len() == 1);
    assert(names.len() == 1);
    assert(names[0]@ == crate::validate::names_view(names)[0]);
    reveal_with_fuel(crate::runtime::find_name_from, 2);
    assert(crate::runtime::find_name(names, "unlocked"@) == Some(0int));
    assert(crate::cookbook::helpers::path_handle(after, "unlocked"@) == Some(HostPathId { owner: before.spec_owner(), index: 0 }));
    reveal_with_fuel(crate::cookbook::helpers::sample_of, 2);
}

/// Topology of C02: a plate feeds a two-tick countdown.
pub fn c02_timed_hold_weave() -> (r: Result<Weave, BuildError>)
    ensures
        weave_built(r, "c02"@, c02_knots(), c02_threads()),
{
    let knots = vec![
        knot_def("plate", KnotKind::signal_in(SignalDomain::Bool)),
        knot_def("t", KnotKind::timer(TimerMode::FedCountdown, 2)),
        knot_def("out", KnotKind::signal_out("unlocked", SignalDomain::Bool)),
    ];
    let threads: &[(&str, &str, &str, &str)] = &[("plate", "out", "t", "feed"), ("t", "active", "out", "in")];
    proof {
        assert(knot_shapes(knots@) =~= c02_knots());
        assert(thread_names(threads@) =~= c02_threads());
    }
    build_weave("c02", knots, threads)
}

/// C02: unlocked after the plate is held two frames; released, it locks.
#[verifier::rlimit(50)]
pub fn run_c02_timed_hold() -> (r: Result<(), CookbookError>)
    ensures
        r is Ok,
{
    let w = match c02_timed_hold_weave() {
        Ok(w) => w,
        Err(e) => {
            proof {
                let (ks, ts) = choose|ks: Seq<KnotDef>, ts: Seq<ThreadDef>|
                    #![trigger knot_shapes(ks), threads_named(ts, c02_threads())]
                    knot_shapes(ks) == c02_knots() && threads_named(ts, c02_threads()) && structural_fault(
                        "c02"@,
                        NumericPath::spec_compiled(),
                        ks,
                        ts,
                    ) is Some;
                lemma_c02_assembled();
                lemma_c02_valid(ks, ts);
            }
            return Err(CookbookError::Build(e));
        },
    };
    proof {
        lemma_c02_budget(w.spec_knots(), w.spec_threads());
        lemma_c02_knots(w.spec_knots());
    }
    let mut rt = match bind_default(&w) {
        Ok(rt) => rt,
        Err(e) => {
            return Err(CookbookError::Bind(e));
        },
    };
    proof {
        lemma_c02_tables(rt, w, crate::runtime::spec_default_bind_opts());
        assert(rt.prev_in@[1] == ZERO && rt.timer_left@[1] == 0);
    }
    let ghost rt0 = rt;
    let p = sense(&rt, "plate")?;
    let mut h = ScriptedHost::new();
    let f1 = [(p, ONE)];
    assert(h.pending().push(f1@)[0] == f1@);
    assert(f1@ == seq![(p, ONE)]);
    let r1 = tick_senses(&mut h, &mut rt, &f1);
    let ghost rt1 = rt;
    proof {
        lemma_c02_frame(rt0, rt1, p, ONE, r1);
        assert(h.pending() =~= Seq::<Seq<(SenseId, Signal)>>::empty());
    }
    handle_step(r1)?;
    expect_truthy(&rt, "unlocked", false)?;
    assert(h.pending().push(f1@)[0] == f1@);
    let r2 = tick_senses(&mut h, &mut rt, &f1);
    let ghost rt2 = rt;
    proof {
        lemma_c02_frame(rt1, rt2, p, ONE, r2);
        assert(h.pending() =~= Seq::<Seq<(SenseId, Signal)>>::empty());
    }
    handle_step(r2)?;
    expect_truthy(&rt, "unlocked", true)?;
    let f3 = [(p, ZERO)];
    assert(h.pending().push(f3@)[0] == f3@);
    assert(f3@ == seq![(p, ZERO)]);
    let r3 = tick_senses(&mut h, &mut rt, &f3);
    proof {
        lemma_c02_frame(rt2, rt, p, ZERO, r3);
    }
    handle_step(r3)?;
    expect_truthy(&rt, "unlocked", false)
}

/// Knots of C03.
pub open spec fn c03_knots() -> Seq<(Seq<char>, KnotShape)> {
    seq![
        ("inc"@, KnotShape::Plain(KnotKind::SignalIn { domain: SignalDomain::Bool })),
        ("cnt"@, KnotShape::Plain(KnotKind::Counter)),
        ("cmp"@, KnotShape::Plain(KnotKind::Compare { domain: SignalDomain::Count, op: CompareOp::Gte, rhs_const: Some(2) })),
        ("rise"@, KnotShape::Plain(KnotKind::RisingFromZero)),
        ("hold"@, KnotShape::Plain(KnotKind::Timer { mode: TimerMode::PulseHold, ticks: 2 })),
        ("out"@, KnotShape::Out { path: "reward"@, domain: SignalDomain::Bool }),
    ]
}

/// Threads of C03.
pub open spec fn c03_threads() -> Seq<(Seq<char>, Seq<char>, Seq<char>, Seq<char>)> {
    seq![("inc"@, "out"@, "cnt"@, "inc"@), ("cnt"@, "count"@, "cmp"@, "lhs"@), ("cmp"@, "out"@, "rise"@, "in"@), ("rise"@, "out"@, "hold"@, "start"@), ("hold"@, "active"@, "out"@, "in"@)]
}

/// Topology of C03: two presses open a two-tick reward window.
pub fn c03_press_n_then_window_weave() -> (r: Result<Weave, BuildError>)
    ensures
        weave_built(r, "c03"@, c03_knots(), c03_threads()),
{
    let knots = vec![
        knot_def("inc", KnotKind::signal_in(SignalDomain::Bool)),
        knot_def("cnt", KnotKind::counter()),
        knot_def("cmp", KnotKind::compare(CompareOp::Gte, Some(from_count(2)), SignalDomain::Count)),
        knot_def("rise", KnotKind::rising_from_zero()),
        knot_def("hold", KnotKind::timer(TimerMode::PulseHold, 2)),
        knot_def("out", KnotKind::signal_out("reward", SignalDomain::Bool)),
    ];
    let threads: &[(&str, &str, &str, &str)] = &[("inc", "out", "cnt", "inc"), ("cnt", "count", "cmp", "lhs"), ("cmp", "out", "rise", "in"), ("rise", "out", "hold", "start"), ("hold", "active", "out", "in")];
    proof {
        assert(knot_shapes(knots@) =~= c03_knots());
        assert(thread_names(threads@) =~= c03_threads());
    }
    build_weave("c03", knots, threads)
}

/// C03: the second press opens the reward for two frames.
pub fn run_c03_press_n_then_window() -> (r: Result<(), CookbookError>) {
    let w = c03_press_n_then_window_weave()?;
    let mut rt = bind_default(&w)?;
    let i = sense(&rt, "inc")?;
    let mut h = ScriptedHost::new();
    handle_step(tick_senses(&mut h, &mut rt, &[(i, ONE)]))?;
    expect_truthy(&rt, "reward", false)?;
    handle_step(tick_senses(&mut h, &mut rt, &[(i, ZERO)]))?;
    handle_step(tick_senses(&mut h, &mut rt, &[(i, ONE)]))?;
    expect_truthy(&rt, "reward", true)?;
    handle_step(tick_senses(&mut h, &mut rt, &[(i, ZERO)]))?;
    expect_truthy(&rt, "reward", true)?;
    handle_step(tick_senses(&mut h, &mut rt, &[(i, ZERO)]))?;
    expect_truthy(&rt, "reward", false)
}

/// Knots of C04.
pub open spec fn c04_knots() -> Seq<(Seq<char>, KnotShape)> {
    seq![
        ("btn"@, KnotShape::Plain(KnotKind::SignalIn { domain: SignalDomain::Bool })),
        ("edge"@, KnotShape::Plain(KnotKind::RisingFromZero)),
        ("hold"@, KnotShape::Plain(KnotKind::Timer { mode: TimerMode::PulseHold, ticks: 2 })),
        ("shot"@, KnotShape::Out { path: "shot"@, domain: SignalDomain::Bool }),
        ("cool"@, KnotShape::Out { path: "cooling"@, domain: SignalDomain::Bool }),
    ]
}

/// Threads of C04.
pub open spec fn c04_threads() -> Seq<(Seq<char>, Seq<char>, Seq<char>, Seq<char>)> {
    seq![("btn"@, "out"@, "edge"@, "in"@), ("edge"@, "out"@, "hold"@, "start"@), ("edge"@, "out"@, "shot"@, "in"@), ("hold"@, "active"@, "cool"@, "in"@)]
}

/// A node's rank in C04's graph `0 → 1`, `1 → 2`, `1 → 3`, `2 → 4`.
spec fn c04_rank(v: usize) -> nat {
    if v == 0 {
        0
    } else if v == 1 {
        1
    } else if v <= 3 {
        2
    } else {
        3
    }
}

/// Along C04's graph a path climbs one rank per step, and visits only its
/// five knots.
proof fn lemma_c04_path(e: crate::graph::Edges, p: Seq<usize>)
    requires
        e == seq![(0usize, 1usize), (1usize, 2usize), (1usize, 3usize), (2usize, 4usize)],
        crate::graph::is_path(e, p),
        p.last() < 5,
    ensures
        p.len() - 1 <= c04_rank(p.last()),
        forall|i: int| 0 <= i < p.len() ==> #[trigger] p[i] < 5,
    decreases p.len(),
{
    if p.len() >= 2 {
        let q = p.drop_last();
        assert(crate::graph::is_path(e, q)) by {
            assert forall|i: int| 0 <= i < q.len() - 1 implies crate::graph::has_edge(e, #[trigger] q[i], q[i + 1]) by {
                assert(crate::graph::has_edge(e, p[i], p[i + 1]));
            }
        }
        let i = p.len() - 2;
        assert(crate::graph::has_edge(e, p[i], p[i + 1]));
        let k = choose|k: int| 0 <= k < e.len() && #[trigger] e[k] == (p[i], p[i + 1]);
        assert(q.last() == p[i]);
        lemma_c04_path(e, q);
        assert forall|j: int| 0 <= j < p.len() implies #[trigger] p[j] < 5 by {
            if j < p.len() - 1 {
                assert(p[j] == q[j]);
            }
        }
    }
}

/// A path over C04's knots carries no delay.
proof fn lemma_c04_weight(w: Seq<u16>, p: Seq<usize>)
    requires
        w == seq![0u16, 0, 0, 0, 0],
        forall|i: int| 0 <= i < p.len() ==> #[trigger] p[i] < 5,
    ensures
        crate::graph::path_weight(w, p) == 0,
    decreases p.len(),
{
    if p.len() > 0 {
        let q = p.drop_last();
        assert forall|i: int| 0 <= i < q.len() implies #[trigger] q[i] < 5 by {
            assert(q[i] == p[i]);
        }
        lemma_c04_weight(w, q);
        assert(p[p.len() - 1] < 5);
    }
}

/// The longest path and the heaviest delay sum into knot `v` of C04.
proof fn lemma_c04_depth(e: crate::graph::Edges, w: Seq<u16>, v: usize)
    requires
        e == seq![(0usize, 1usize), (1usize, 2usize), (1usize, 3usize), (2usize, 4usize)],
        w == seq![0u16, 0, 0, 0, 0],
        v < 5,
    ensures
        crate::validate::longest(e, v) == c04_rank(v),
        crate::validate::heaviest(e, w, v) == 0,
{
    let full: Seq<usize> = if v == 0 {
        seq![0usize]
    } else if v == 1 {
        seq![0usize, 1]
    } else if v <= 3 {
        seq![0usize, 1, v]
    } else {
        seq![0usize, 1, 2, 4]
    };
    assert(e[0] == (0usize, 1usize) && e[1] == (1usize, 2usize) && e[2] == (1usize, 3usize) && e[3] == (2usize, 4usize));
    assert(crate::graph::is_path(e, full)) by {
        assert forall|i: int| 0 <= i < full.len() - 1 implies crate::graph::has_edge(e, #[trigger] full[i], full[i + 1]) by {
            if i == 0 {
                assert(e[0] == (full[0], full[1]));
            } else if i == 2 {
                assert(e[3] == (full[2], full[3]));
            } else if full[2] == 2 {
                assert(e[1] == (full[1], full[2]));
            } else {
                assert(e[2] == (full[1], full[2]));
            }
        }
    }
    assert forall|i: int| 0 <= i < full.len() implies #[trigger] full[i] < 5 by {}
    lemma_c04_weight(w, full);
    assert forall|p: Seq<usize>| #[trigger] crate::graph::is_path(e, p) && p.last() == v implies p.len() - 1 <= c04_rank(v)
        && crate::graph::path_weight(w, p) <= 0 by {
        lemma_c04_path(e, p);
        lemma_c04_weight(w, p);
    }
    assert(crate::graph::longest_path_to(e, v, c04_rank(v)));
    assert(crate::graph::heaviest_path_to(e, w, v, 0));
    crate::validate::lemma_longest_is(e, v, c04_rank(v));
    crate::validate::lemma_heaviest_is(e, w, v, 0);
}

/// The knots of any weave with C04's shapes, as the kinds they must be.
proof fn lemma_c04_knots(ks: Seq<KnotDef>)
    requires
        knot_shapes(ks) == c04_knots(),
    ensures
        ks.len() == 5,
        ks[0].id@ == "btn"@ && ks[1].id@ == "edge"@ && ks[2].id@ == "hold"@ && ks[3].id@ == "shot"@ && ks[4].id@ == "cool"@,
        ks[0].kind == (KnotKind::SignalIn { domain: SignalDomain::Bool }),
        ks[1].kind == KnotKind::RisingFromZero,
        ks[2].kind == (KnotKind::Timer { mode: TimerMode::PulseHold, ticks: 2 }),
        ks[3].kind matches KnotKind::SignalOut { path, domain } && path@ == "shot"@ && domain == SignalDomain::Bool,
        ks[4].kind matches KnotKind::SignalOut { path, domain } && path@ == "cooling"@ && domain == SignalDomain::Bool,
{
    assert(knot_shapes(ks).len() == ks.len());
    assert(knot_shapes(ks)[0] == (ks[0].id@, shape_of(ks[0].kind)));
    assert(knot_shapes(ks)[1] == (ks[1].id@, shape_of(ks[1].kind)));
    assert(knot_shapes(ks)[2] == (ks[2].id@, shape_of(ks[2].kind)));
    assert(knot_shapes(ks)[3] == (ks[3].id@, shape_of(ks[3].kind)));
    assert(knot_shapes(ks)[4] == (ks[4].id@, shape_of(ks[4].kind)));
}

/// C04's knots and threads assemble: ids distinct, every thread names
/// known knots and ports of the right direction.
proof fn lemma_c04_assembled()
    ensures
        assembly_fault("c04"@, c04_knots(), c04_threads()) is None,
{
    reveal_strlit("c04");
    reveal_strlit("btn");
    reveal_strlit("edge");
    reveal_strlit("hold");
    reveal_strlit("shot");
    reveal_strlit("cool");
    reveal_strlit("out");
    reveal_strlit("in");
    reveal_strlit("start");
    reveal_strlit("active");
    reveal_with_fuel(find_shape_from, 6);
    reveal_with_fuel(crate::catalog::find_port, 3);
    reveal_with_fuel(scan_adds, 6);
    reveal_with_fuel(scan_wires, 5);
    assert("btn"@.len() != "edge"@.len() && "edge"@[0] != "hold"@[0] && "edge"@[0] != "shot"@[0] && "edge"@[0] != "cool"@[0]
        && "hold"@[0] != "shot"@[0] && "hold"@[0] != "cool"@[0] && "shot"@[0] != "cool"@[0] && "in"@[0] != "out"@[0]
        && "start"@[0] != "active"@[0]);
    let d = c04_knots();
    assert(d.subrange(0, 0) =~= Seq::<(Seq<char>, KnotShape)>::empty());
    assert(d.subrange(0, 1) =~= seq![d[0]]);
    assert(d.subrange(0, 2) =~= seq![d[0], d[1]]);
    assert(d.subrange(0, 3) =~= seq![d[0], d[1], d[2]]);
    assert(d.subrange(0, 4) =~= seq![d[0], d[1], d[2], d[3]]);
    assert(add_fault(d, 0) is None);
    assert(add_fault(d, 1) is None);
    assert(add_fault(d, 2) is None);
    assert(add_fault(d, 3) is None);
    assert(add_fault(d, 4) is None);
    assert(scan_adds(d, 0) is None);
    let names = c04_threads();
    assert(wire_fault(d, names[0]) is None);
    assert(wire_fault(d, names[1]) is None);
    assert(wire_fault(d, names[2]) is None);
    assert(wire_fault(d, names[3]) is None);
    assert(scan_wires(d, names, 0) is None);
}

/// C04's graph validates: ids distinct, every thread resolves Out to In
/// without fan-in, required inputs fed, no loop, acyclic.
proof fn lemma_c04_valid(ks: Seq<KnotDef>, ts: Seq<ThreadDef>)
    requires
        knot_shapes(ks) == c04_knots(),
        threads_named(ts, c04_threads()),
    ensures
        structural_fault("c04"@, NumericPath::spec_compiled(), ks, ts) is None,
{
    reveal_strlit("c04");
    reveal_strlit("btn");
    reveal_strlit("edge");
    reveal_strlit("hold");
    reveal_strlit("shot");
    reveal_strlit("cool");
    reveal_strlit("out");
    reveal_strlit("in");
    reveal_strlit("start");
    reveal_strlit("active");
    reveal_with_fuel(find_knot_from, 6);
    reveal_with_fuel(crate::catalog::find_port, 3);
    reveal_with_fuel(crate::validate::scan_knots, 6);
    reveal_with_fuel(crate::validate::scan_threads, 5);
    reveal_with_fuel(crate::validate::scan_required, 6);
    reveal_with_fuel(crate::validate::scan_ports, 3);
    reveal_with_fuel(crate::validate::scan_self, 5);
    lemma_c04_knots(ks);
    assert("btn"@.len() != "edge"@.len() && "edge"@[0] != "hold"@[0] && "edge"@[0] != "shot"@[0] && "edge"@[0] != "cool"@[0]
        && "hold"@[0] != "shot"@[0] && "hold"@[0] != "cool"@[0] && "shot"@[0] != "cool"@[0] && "in"@[0] != "out"@[0]
        && "start"@[0] != "active"@[0]);
    assert(ts.len() == 4);
    assert(ts[0].from.knot@ == "btn"@ && ts[0].from.port@ == "out"@ && ts[0].to.knot@ == "edge"@ && ts[0].to.port@ == "in"@);
    assert(ts[1].from.knot@ == "edge"@ && ts[1].from.port@ == "out"@ && ts[1].to.knot@ == "hold"@ && ts[1].to.port@ == "start"@);
    assert(ts[2].from.knot@ == "edge"@ && ts[2].from.port@ == "out"@ && ts[2].to.knot@ == "shot"@ && ts[2].to.port@ == "in"@);
    assert(ts[3].from.knot@ == "hold"@ && ts[3].from.port@ == "active"@ && ts[3].to.knot@ == "cool"@ && ts[3].to.port@ == "in"@);
    assert(find_knot(ks, "btn"@) == Some(0int));
    assert(find_knot(ks, "edge"@) == Some(1int));
    assert(find_knot(ks, "hold"@) == Some(2int));
    assert(find_knot(ks, "shot"@) == Some(3int));
    assert(find_knot(ks, "cool"@) == Some(4int));
    assert(crate::validate::knot_fault(ks, 0) is None);
    assert(crate::validate::knot_fault(ks, 1) is None);
    assert(crate::validate::knot_fault(ks, 2) is None);
    assert(crate::validate::knot_fault(ks, 3) is None);
    assert(crate::validate::knot_fault(ks, 4) is None);
    assert(crate::validate::scan_knots(ks, 0) is None);
    assert(crate::validate::target_of(ks, ts[0]) == Some((1int, 0int)));
    assert(crate::validate::target_of(ks, ts[1]) == Some((2int, 0int)));
    assert(crate::validate::target_of(ks, ts[2]) == Some((3int, 0int)));
    assert(crate::validate::target_of(ks, ts[3]) == Some((4int, 0int)));
    assert(!crate::validate::earlier_same_target(ks, ts, 0));
    assert(!crate::validate::earlier_same_target(ks, ts, 1));
    assert(!crate::validate::earlier_same_target(ks, ts, 2));
    assert(!crate::validate::earlier_same_target(ks, ts, 3));
    assert(crate::validate::thread_fault(ks, ts, 0) is None);
    assert(crate::validate::thread_fault(ks, ts, 1) is None);
    assert(crate::validate::thread_fault(ks, ts, 2) is None);
    assert(crate::validate::thread_fault(ks, ts, 3) is None);
    assert(crate::validate::scan_threads(ks, ts, 0) is None);
    assert(crate::validate::wired(ks, ts, 1, 0));
    assert(crate::validate::wired(ks, ts, 2, 0));
    assert(crate::validate::wired(ks, ts, 3, 0));
    assert(crate::validate::wired(ks, ts, 4, 0));
    assert(crate::validate::scan_ports(ks, ts, Seq::empty(), 0, 0) is None);
    assert(crate::validate::scan_ports(ks, ts, Seq::empty(), 1, 0) is None);
    assert(crate::validate::scan_ports(ks, ts, Seq::empty(), 2, 0) is None);
    assert(crate::validate::scan_ports(ks, ts, Seq::empty(), 3, 0) is None);
    assert(crate::validate::scan_ports(ks, ts, Seq::empty(), 4, 0) is None);
    assert(crate::validate::scan_required(ks, ts, Seq::empty(), 0) is None);
    assert(crate::validate::scan_self(ks, ts, 0) is None);
    let e = crate::validate::knot_edges(ks, ts);
    assert(e[0] == (0usize, 1usize) && e[1] == (1usize, 2usize) && e[2] == (1usize, 3usize) && e[3] == (2usize, 4usize));
    assert(crate::graph::is_rank(5, e, seq![0int, 1, 2, 3, 4]));
}

/// C04's graph is within the default budget.
proof fn lemma_c04_budget(ks: Seq<KnotDef>, ts: Seq<ThreadDef>)
    requires
        knot_shapes(ks) == c04_knots(),
        threads_named(ts, c04_threads()),
    ensures
        crate::validate::budget_fault(ks, ts, crate::validate::spec_default_budget()) is None,
        crate::runtime::delay_prefix(ks, 5) <= crate::validate::MAX_DENSE,
{
    lemma_c04_valid(ks, ts);
    lemma_c04_knots(ks);
    reveal_with_fuel(crate::validate::scan_fan_out, 6);
    reveal_with_fuel(crate::validate::out_count, 5);
    reveal_with_fuel(crate::validate::scan_depth, 6);
    reveal_with_fuel(crate::runtime::delay_prefix, 6);
    let e = crate::validate::knot_edges(ks, ts);
    let w = crate::validate::delay_weights(ks);
    reveal_strlit("btn");
    reveal_strlit("edge");
    reveal_strlit("hold");
    reveal_strlit("shot");
    reveal_strlit("cool");
    reveal_with_fuel(find_knot_from, 6);
    assert("btn"@.len() != "edge"@.len() && "edge"@[0] != "hold"@[0] && "edge"@[0] != "shot"@[0] && "edge"@[0] != "cool"@[0]
        && "hold"@[0] != "shot"@[0] && "hold"@[0] != "cool"@[0] && "shot"@[0] != "cool"@[0]);
    assert(ts.len() == 4);
    assert(find_knot(ks, "btn"@) == Some(0int));
    assert(find_knot(ks, "edge"@) == Some(1int));
    assert(find_knot(ks, "hold"@) == Some(2int));
    assert(find_knot(ks, "shot"@) == Some(3int));
    assert(find_knot(ks, "cool"@) == Some(4int));
    assert(e =~= seq![(0usize, 1usize), (1usize, 2usize), (1usize, 3usize), (2usize, 4usize)]);
    assert(w =~= seq![0u16, 0, 0, 0, 0]);
    lemma_c04_depth(e, w, 0);
    lemma_c04_depth(e, w, 1);
    lemma_c04_depth(e, w, 2);
    lemma_c04_depth(e, w, 3);
    lemma_c04_depth(e, w, 4);
    assert(crate::validate::scan_depth(e, w, crate::validate::spec_default_budget(), 0) is None);
}

/// The rising edge C04 reads from `btn` sensing `v` after `prev`.
spec fn c04_rise(v: Signal, prev: Signal) -> Signal {
    bool_signal(!truthy(prev) && truthy(v))
}

/// The ticks C04's hold has left before its step: restarted by a rising
/// start input.
spec fn c04_left0(rise: Signal, prev: Signal, left: u16) -> u16 {
    if !truthy(prev) && truthy(rise) {
        2
    } else {
        left
    }
}

/// One settle of C04's tables: the rising edge is sampled on `shot` and the
/// hold it starts on `cooling`, in whichever order the outputs run.
#[verifier::rlimit(40)]
proof fn lemma_c04_settle(t: Tables, senses: Seq<Signal>, d: Dyn)
    requires
        t.tags.len() == 5,
        t.tags[0] is Sense,
        t.tags[1] == KindTag::RisingFromZero,
        t.tags[2] == (KindTag::TimerPulseHold { ticks: 2 }),
        t.tags[3] is SignalOut,
        t.tags[4] is SignalOut,
        t.topo == seq![0u16, 1, 2, 3, 4] || t.topo == seq![0u16, 1, 2, 4, 3] || t.topo == seq![0u16, 1, 3, 2, 4],
        t.inbound.len() == 5,
        t.inbound[1]@ == seq![(0u16, 0u8, 0u8)],
        t.inbound[2]@ == seq![(1u16, 1u8, 0u8)],
        t.inbound[3]@ == seq![(1u16, 1u8, 0u8)],
        t.inbound[4]@ == seq![(2u16, 1u8, 0u8)],
        t.clear_mask.len() == 40,
        t.sense_seeds == seq![SenseSeed::SignalIn { kid: 0 }],
        t.knot_path.len() == 5,
        t.knot_path[3] == 0,
        t.knot_path[4] == 1,
        d.ports.len() == 40,
        d.prev_in.len() == 5,
        d.timer_left.len() == 5,
        senses.len() == 5,
    ensures
        ({
            let r = settle(t, senses, d);
            let rise = c04_rise(senses[0], d.prev_in[1]);
            let l0 = c04_left0(rise, d.prev_in[2], d.timer_left[2]);
            let ss = SignalOutSample { path: HostPathId { owner: t.owner, index: 0 }, value: rise };
            let sc = SignalOutSample { path: HostPathId { owner: t.owner, index: 1 }, value: bool_signal(l0 > 0) };
            &&& (r.out_signals == d.out_signals.push(ss).push(sc) || r.out_signals == d.out_signals.push(sc).push(ss))
            &&& r.prev_in == d.prev_in.update(1, senses[0]).update(2, rise)
            &&& r.timer_left == d.timer_left.update(2, if l0 > 0 { (l0 - 1) as u16 } else { l0 })
        }),
{
    let v = senses[0];
    let cleared = Dyn { ports: clear_ports(d.ports, t.clear_mask, t.clear_mask.len() as int), ..d };
    assert(cleared.ports.len() == 40);
    reveal_with_fuel(seeded, 2);
    let s0 = seeded(t, senses, cleared, 1);
    assert(s0.ports == cleared.ports.update(0, v));
    assert(s0.out_signals == d.out_signals && s0.prev_in == d.prev_in && s0.timer_left == d.timer_left);
    reveal_with_fuel(evaluated, 6);
    assert(evaluated(t, s0, 1) == s0);
    let g1 = gather_dyn(t, s0, 1);
    reveal_with_fuel(gather_ports, 2);
    assert(g1.ports == s0.ports.update(8, s0.ports[0]));
    let e2 = evaluated(t, s0, 2);
    assert(e2 == eval_dyn(t, g1, 1));
    assert(knot_ports(g1.ports, 1)[0] == v);
    let rise = c04_rise(v, d.prev_in[1]);
    let l0 = c04_left0(rise, d.prev_in[2], d.timer_left[2]);
    let act = bool_signal(l0 > 0);
    assert(e2.ports[9] == rise);
    assert(e2.ports.len() == 40);
    assert(e2.out_signals == d.out_signals);
    assert(e2.prev_in == d.prev_in.update(1, v));
    assert(e2.timer_left == d.timer_left);
    if t.topo[2] == 2 {
        let g2 = gather_dyn(t, e2, 2);
        assert(g2.ports == e2.ports.update(16, e2.ports[9]));
        let e3 = evaluated(t, s0, 3);
        assert(e3 == eval_dyn(t, g2, 2));
        assert(knot_ports(g2.ports, 2)[0] == rise);
        assert(e3.ports[17] == act && e3.ports[9] == rise && e3.ports.len() == 40);
        assert(e3.out_signals == d.out_signals);
        if t.topo[3] == 3 {
            let g3 = gather_dyn(t, e3, 3);
            assert(g3.ports == e3.ports.update(24, e3.ports[9]));
            let e4 = evaluated(t, s0, 4);
            assert(e4 == eval_dyn(t, g3, 3));
            assert(knot_ports(g3.ports, 3)[0] == rise);
            assert(e4.ports[17] == act && e4.ports.len() == 40);
            let g4 = gather_dyn(t, e4, 4);
            assert(g4.ports == e4.ports.update(32, e4.ports[17]));
            let e5 = evaluated(t, s0, 5);
            assert(e5 == eval_dyn(t, g4, 4));
            assert(knot_ports(g4.ports, 4)[0] == act);
        } else {
            let g3 = gather_dyn(t, e3, 4);
            assert(g3.ports == e3.ports.update(32, e3.ports[17]));
            let e4 = evaluated(t, s0, 4);
            assert(e4 == eval_dyn(t, g3, 4));
            assert(knot_ports(g3.ports, 4)[0] == act);
            assert(e4.ports[9] == rise && e4.ports.len() == 40);
            let g4 = gather_dyn(t, e4, 3);
            assert(g4.ports == e4.ports.update(24, e4.ports[9]));
            let e5 = evaluated(t, s0, 5);
            assert(e5 == eval_dyn(t, g4, 3));
            assert(knot_ports(g4.ports, 3)[0] == rise);
        }
    } else {
        let g2 = gather_dyn(t, e2, 3);
        assert(g2.ports == e2.ports.update(24, e2.ports[9]));
        let e3 = evaluated(t, s0, 3);
        assert(e3 == eval_dyn(t, g2, 3));
        assert(knot_ports(g2.ports, 3)[0] == rise);
        assert(e3.ports[9] == rise && e3.ports.len() == 40);
        assert(e3.prev_in == e2.prev_in && e3.timer_left == e2.timer_left);
        let g3 = gather_dyn(t, e3, 2);
        assert(g3.ports == e3.ports.update(16, e3.ports[9]));
        let e4 = evaluated(t, s0, 4);
        assert(e4 == eval_dyn(t, g3, 2));
        assert(knot_ports(g3.ports, 2)[0] == rise);
        assert(e4.ports[17] == act && e4.ports.len() == 40);
        let g4 = gather_dyn(t, e4, 4);
        assert(g4.ports == e4.ports.update(32, e4.ports[17]));
        let e5 = evaluated(t, s0, 5);
        assert(e5 == eval_dyn(t, g4, 4));
        assert(knot_ports(g4.ports, 4)[0] == act);
    }
}

/// A runtime of C04: its tables, its host paths `shot` and `cooling`, and
/// its sense `btn`.
spec fn c04_shaped(rt: Runtime) -> bool {
    let t = crate::settle::tables_of(rt);
    &&& rt.wf()
    &&& t.tags.len() == 5
    &&& t.tags[0] is Sense
    &&& t.tags[1] == KindTag::RisingFromZero
    &&& t.tags[2] == (KindTag::TimerPulseHold { ticks: 2 })
    &&& t.tags[3] is SignalOut
    &&& t.tags[4] is SignalOut
    &&& (t.topo == seq![0u16, 1, 2, 3, 4] || t.topo == seq![0u16, 1, 2, 4, 3] || t.topo == seq![0u16, 1, 3, 2, 4])
    &&& t.inbound.len() == 5
    &&& t.inbound[1]@ == seq![(0u16, 0u8, 0u8)]
    &&& t.inbound[2]@ == seq![(1u16, 1u8, 0u8)]
    &&& t.inbound[3]@ == seq![(1u16, 1u8, 0u8)]
    &&& t.inbound[4]@ == seq![(2u16, 1u8, 0u8)]
    &&& t.clear_mask.len() == 40
    &&& t.sense_seeds == seq![SenseSeed::SignalIn { kid: 0 }]
    &&& t.knot_path.len() == 5
    &&& t.knot_path[3] == 0
    &&& t.knot_path[4] == 1
    &&& t.owner == rt.spec_owner()
    &&& crate::validate::names_view(rt.spec_path_names()) == seq!["shot"@, "cooling"@]
    &&& rt.spec_knots().len() == 5
    &&& find_knot(rt.spec_knots(), "btn"@) == Some(0int)
    &&& rt.spec_knots()[0].kind == (KnotKind::SignalIn { domain: SignalDomain::Bool })
}

/// The tables of every bind of a weave with C04's knots and threads.
proof fn lemma_c04_tables(rt: Runtime, w: Weave, opts: crate::runtime::BindOpts)
    requires
        crate::runtime::bound_from(rt, w, opts),
        knot_shapes(w.spec_knots()) == c04_knots(),
        threads_named(w.spec_threads(), c04_threads()),
    ensures
        c04_shaped(rt),
{
    let ks = w.spec_knots();
    let ts = w.spec_threads();
    lemma_c04_knots(ks);
    lemma_c04_valid(ks, ts);
    reveal_strlit("btn");
    reveal_strlit("edge");
    reveal_strlit("hold");
    reveal_strlit("shot");
    reveal_strlit("cool");
    reveal_strlit("cooling");
    reveal_strlit("out");
    reveal_strlit("in");
    reveal_strlit("start");
    reveal_strlit("active");
    reveal_with_fuel(find_knot_from, 6);
    assert("btn"@.len() != "edge"@.len() && "edge"@[0] != "hold"@[0] && "edge"@[0] != "shot"@[0] && "edge"@[0] != "cool"@[0]
        && "hold"@[0] != "shot"@[0] && "hold"@[0] != "cool"@[0] && "shot"@[0] != "cool"@[0] && "in"@[0] != "out"@[0]
        && "start"@[0] != "active"@[0]);
    assert(find_knot(ks, "btn"@) == Some(0int));
    assert(find_knot(ks, "edge"@) == Some(1int));
    assert(find_knot(ks, "hold"@) == Some(2int));
    assert(find_knot(ks, "shot"@) == Some(3int));
    assert(find_knot(ks, "cool"@) == Some(4int));
    let th = rt.spec_threads();
    assert(ts.len() == 4);
    reveal_with_fuel(crate::catalog::find_port, 3);
    assert(crate::catalog::find_port(crate::catalog::port_table(ks[1].kind), "in"@) == Some(0int));
    assert(crate::catalog::find_port(crate::catalog::port_table(ks[1].kind), "out"@) == Some(1int));
    assert(crate::catalog::find_port(crate::catalog::port_table(ks[2].kind), "start"@) == Some(0int));
    assert(crate::catalog::find_port(crate::catalog::port_table(ks[2].kind), "active"@) == Some(1int));
    assert(crate::catalog::find_port(crate::catalog::port_table(ks[3].kind), "in"@) == Some(0int));
    assert(crate::catalog::find_port(crate::catalog::port_table(ks[4].kind), "in"@) == Some(0int));
    assert(crate::runtime::thread_resolved(ks, ts[0], th[0]));
    assert(crate::runtime::thread_resolved(ks, ts[1], th[1]));
    assert(crate::runtime::thread_resolved(ks, ts[2], th[2]));
    assert(crate::runtime::thread_resolved(ks, ts[3], th[3]));
    assert(th[0] == (0u16, 0u8, 1u16, 0u8));
    assert(th[1] == (1u16, 1u8, 2u16, 0u8));
    assert(th[2] == (1u16, 1u8, 3u16, 0u8));
    assert(th[3] == (2u16, 1u8, 4u16, 0u8));
    reveal_with_fuel(crate::runtime::into_prefix, 5);
    assert(rt.inbound@[1]@ =~= seq![(0u16, 0u8, 0u8)]);
    assert(rt.inbound@[2]@ =~= seq![(1u16, 1u8, 0u8)]);
    assert(rt.inbound@[3]@ =~= seq![(1u16, 1u8, 0u8)]);
    assert(rt.inbound@[4]@ =~= seq![(2u16, 1u8, 0u8)]);
    // Tags.
    assert(crate::runtime::tag_refines(rt.tags@[1], ks[1].kind, rt.inbound@[1]@));
    assert(crate::runtime::tag_refines(rt.tags@[2], ks[2].kind, rt.inbound@[2]@));
    assert(rt.tags@[0] is Sense);
    assert(rt.tags@[3] is SignalOut);
    assert(rt.tags@[4] is SignalOut);
    // The order: the button, the edge, then the hold before its output.
    let tp = rt.topo@;
    assert(tp.len() == 5);
    assert(tp[0] < 5 && tp[1] < 5 && tp[2] < 5 && tp[3] < 5 && tp[4] < 5);
    assert(tp[0] != tp[1] && tp[0] != tp[2] && tp[0] != tp[3] && tp[0] != tp[4] && tp[1] != tp[2] && tp[1] != tp[3]
        && tp[1] != tp[4] && tp[2] != tp[3] && tp[2] != tp[4] && tp[3] != tp[4]);
    assert(th[0].0 != th[0].2 && th[1].0 != th[1].2 && th[2].0 != th[2].2 && th[3].0 != th[3].2);
    assert(tp =~= seq![0u16, 1, 2, 3, 4] || tp =~= seq![0u16, 1, 2, 4, 3] || tp =~= seq![0u16, 1, 3, 2, 4]);
    // Seeds: only knot 0 is seeded.
    let sd = rt.sense_seeds@;
    assert(crate::runtime::seeds_match(sd, ks));
    assert forall|j: int| 0 <= j < sd.len() implies (#[trigger] sd[j]).kid() == 0 by {
        assert(sd[j].kid() < 5);
    }
    let j0 = choose|j: int| 0 <= j < sd.len() && #[trigger] sd[j].kid() == 0;
    if sd.len() > 1 {
        assert(sd[0].kid() < sd[1].kid());
    }
    assert(sd.len() == 1);
    assert(sd[0] == SenseSeed::SignalIn { kid: 0 });
    assert(sd =~= seq![SenseSeed::SignalIn { kid: 0 }]);
    // Paths: `shot`, then `cooling`.
    reveal_with_fuel(crate::runtime::paths_seen, 6);
    assert("shot"@[0] != "cooling"@[0]);
    assert(crate::runtime::paths_seen(ks, 5) =~= seq!["shot"@, "cooling"@]);
    let nv = crate::validate::names_view(rt.path_names@);
    assert(nv.len() == 2 && rt.path_names@.len() == 2);
    assert(rt.path_names@[0]@ == nv[0] && rt.path_names@[1]@ == nv[1]);
    assert(rt.knot_path@[3] < 2 && rt.path_names@[rt.knot_path@[3] as int]@ == "shot"@);
    assert(rt.knot_path@[4] < 2 && rt.path_names@[rt.knot_path@[4] as int]@ == "cooling"@);
}

/// One C04 frame writing the Bool `v` to `btn`: it is accepted, the rising
/// edge is sampled on `shot` and the hold it drives on `cooling`.
proof fn lemma_c04_frame(before: Runtime, after: Runtime, id: SenseId, v: Signal, r: Result<(), HandleError>)
    requires
        c04_shaped(before),
        after.wf(),
        after.same_tables(&before),
        id.spec_owner() == before.spec_owner(),
        id.spec_index() == 0,
        v == ZERO || v == ONE,
        crate::host::frame_ran(before, seq![(id, v)], r, after),
    ensures
        r is Ok,
        c04_shaped(after),
        after.prev_in@[1] == v,
        after.prev_in@[2] == c04_rise(v, before.prev_in@[1]),
        after.timer_left@[2] == ({
            let l0 = c04_left0(c04_rise(v, before.prev_in@[1]), before.prev_in@[2], before.timer_left@[2]);
            if l0 > 0 { (l0 - 1) as u16 } else { l0 }
        }),
        crate::cookbook::helpers::signal_out_of(after, "shot"@) == Some(c04_rise(v, before.prev_in@[1])),
        crate::cookbook::helpers::signal_out_of(after, "cooling"@) == Some(
            bool_signal(c04_left0(c04_rise(v, before.prev_in@[1]), before.prev_in@[2], before.timer_left@[2]) > 0),
        ),
{
    let senses = seq![(id, v)];
    assert(crate::host::write_ok(before, senses[0].0, senses[0].1));
    assert(crate::settle::tables_of(after) == crate::settle::tables_of(before));
    assert(after.spec_path_names() == before.spec_path_names());
    assert(after.spec_knots() == before.spec_knots());
    let sv = after.spec_sense_values();
    assert(sv == crate::host::senses_after(before.spec_sense_values(), senses, 1));
    reveal_with_fuel(crate::host::senses_after, 2);
    assert(sv == before.spec_sense_values().update(0, v));
    assert(sv[0] == v && sv.len() == 5);
    let d = crate::settle::frame_start(crate::settle::dyn_of(before));
    lemma_c04_settle(crate::settle::tables_of(before), sv, d);
    let hs = HostPathId { owner: before.spec_owner(), index: 0 };
    let hc = HostPathId { owner: before.spec_owner(), index: 1 };
    let names = after.spec_path_names();
    assert(crate::validate::names_view(names).len() == 2);
    assert(names.len() == 2);
    assert(names[0]@ == crate::validate::names_view(names)[0]);
    assert(names[1]@ == crate::validate::names_view(names)[1]);
    reveal_strlit("shot");
    reveal_strlit("cooling");
    assert("shot"@[0] != "cooling"@[0]);
    reveal_with_fuel(crate::runtime::find_name_from, 3);
    assert(crate::runtime::find_name(names, "shot"@) == Some(0int));
    assert(crate::runtime::find_name(names, "cooling"@) == Some(1int));
    assert(crate::cookbook::helpers::path_handle(after, "shot"@) == Some(hs));
    assert(crate::cookbook::helpers::path_handle(after, "cooling"@) == Some(hc));
    assert(hs != hc);
    reveal_with_fuel(crate::cookbook::helpers::sample_of, 3);
    let outs = after.out_signals@;
    assert(outs.len() == 2);
    assert(outs.drop_first().drop_first().len() == 0);
}

/// Topology of C04: a button fires a shot and starts a cooldown.
pub fn c04_button_cooldown_weave() -> (r: Result<Weave, BuildError>)
    ensures
        weave_built(r, "c04"@, c04_knots(), c04_threads()),
{
    let knots = vec![
        knot_def("btn", KnotKind::signal_in(SignalDomain::Bool)),
        knot_def("edge", KnotKind::rising_from_zero()),
        knot_def("hold", KnotKind::timer(TimerMode::PulseHold, 2)),
        knot_def("shot", KnotKind::signal_out("shot", SignalDomain::Bool)),
        knot_def("cool", KnotKind::signal_out("cooling", SignalDomain::Bool)),
    ];
    let threads: &[(&str, &str, &str, &str)] = &[("btn", "out", "edge", "in"), ("edge", "out", "hold", "start"), ("edge", "out", "shot", "in"), ("hold", "active", "cool", "in")];
    proof {
        assert(knot_shapes(knots@) =~= c04_knots());
        assert(thread_names(threads@) =~= c04_threads());
    }
    build_weave("c04", knots, threads)
}

/// C04: one shot per press; the cooldown outlasts a held button.
#[verifier::rlimit(80)]
pub fn run_c04_button_cooldown() -> (r: Result<(), CookbookError>)
    ensures
        r is Ok,
{
    let w = match c04_button_cooldown_weave() {
        Ok(w) => w,
        Err(e) => {
            proof {
                lemma_c04_assembled();
                let (ks, ts) = choose|ks: Seq<KnotDef>, ts: Seq<ThreadDef>|
                    #![trigger knot_shapes(ks), threads_named(ts, c04_threads())]
                    knot_shapes(ks) == c04_knots() && threads_named(ts, c04_threads()) && structural_fault(
                        "c04"@,
                        NumericPath::spec_compiled(),
                        ks,
                        ts,
                    ) is Some;
                lemma_c04_valid(ks, ts);
            }
            return Err(CookbookError::Build(e));
        },
    };
    proof {
        lemma_c04_budget(w.spec_knots(), w.spec_threads());
        lemma_c04_knots(w.spec_knots());
    }
    let mut rt = match bind_default(&w) {
        Ok(rt) => rt,
        Err(e) => {
            return Err(CookbookError::Bind(e));
        },
    };
    proof {
        lemma_c04_tables(rt, w, crate::runtime::spec_default_bind_opts());
        assert(rt.prev_in@[1] == ZERO && rt.prev_in@[2] == ZERO && rt.timer_left@[2] == 0);
    }
    let ghost rt0 = rt;
    let b = sense(&rt, "btn")?;
    let mut h = ScriptedHost::new();
    let on = [(b, ONE)];
    let off = [(b, ZERO)];
    assert(on@ == seq![(b, ONE)]);
    assert(off@ == seq![(b, ZERO)]);
    assert(h.pending().push(on@)[0] == on@);
    let r1 = tick_senses(&mut h, &mut rt, &on);
    let ghost rt1 = rt;
    proof {
        lemma_c04_frame(rt0, rt1, b, ONE, r1);
        assert(h.pending() =~= Seq::<Seq<(SenseId, Signal)>>::empty());
    }
    handle_step(r1)?;
    expect_truthy(&rt, "shot", true)?;
    expect_truthy(&rt, "cooling", true)?;
    assert(h.pending().push(on@)[0] == on@);
    let r2 = tick_senses(&mut h, &mut rt, &on);
    let ghost rt2 = rt;
    proof {
        lemma_c04_frame(rt1, rt2, b, ONE, r2);
        assert(h.pending() =~= Seq::<Seq<(SenseId, Signal)>>::empty());
    }
    handle_step(r2)?;
    expect_truthy(&rt, "shot", false)?;
    expect_truthy(&rt, "cooling", true)?;
    assert(h.pending().push(off@)[0] == off@);
    let r3 = tick_senses(&mut h, &mut rt, &off);
    let ghost rt3 = rt;
    proof {
        lemma_c04_frame(rt2, rt3, b, ZERO, r3);
        assert(h.pending() =~= Seq::<Seq<(SenseId, Signal)>>::empty());
    }
    handle_step(r3)?;
    assert(h.pending().push(on@)[0] == on@);
    let r4 = tick_senses(&mut h, &mut rt, &on);
    proof {
        lemma_c04_frame(rt3, rt, b, ONE, r4);
    }
    handle_step(r4)?;
    expect_truthy(&rt, "shot", true)
}

/// Knots of C05.
pub open spec fn c05_knots() -> Seq<(Seq<char>, KnotShape)> {
    seq![
        ("axis"@, KnotShape::Plain(KnotKind::SignalIn { domain: SignalDomain::Level })),
        ("th"@, KnotShape::Plain(KnotKind::Threshold { domain: SignalDomain::Level, high: 5, low: 0, use_hysteresis: false })),
        ("pressed"@, KnotShape::Out { path: "pressed"@, domain: SignalDomain::Bool }),
        ("just"@, KnotShape::Out { path: "just_pressed"@, domain: SignalDomain::Bool }),
    ]
}

/// Threads of C05.
pub open spec fn c05_threads() -> Seq<(Seq<char>, Seq<char>, Seq<char>, Seq<char>)> {
    seq![("axis"@, "out"@, "th"@, "in"@), ("th"@, "out"@, "pressed"@, "in"@), ("th"@, "crossed_up"@, "just"@, "in"@)]
}

/// A node's rank in C05's fork `0 → 1`, `1 → 2`, `1 → 3`.
spec fn fork_rank(v: usize) -> nat {
    if v == 0 {
        0
    } else if v == 1 {
        1
    } else {
        2
    }
}

/// Along C05's fork a path climbs one rank per step, and visits only its
/// four knots.
proof fn lemma_fork_path(e: crate::graph::Edges, p: Seq<usize>)
    requires
        e == seq![(0usize, 1usize), (1usize, 2usize), (1usize, 3usize)],
        crate::graph::is_path(e, p),
        p.last() < 4,
    ensures
        p.len() - 1 <= fork_rank(p.last()),
        forall|i: int| 0 <= i < p.len() ==> #[trigger] p[i] < 4,
    decreases p.len(),
{
    if p.len() >= 2 {
        let q = p.drop_last();
        assert(crate::graph::is_path(e, q)) by {
            assert forall|i: int| 0 <= i < q.len() - 1 implies crate::graph::has_edge(e, #[trigger] q[i], q[i + 1]) by {
                assert(crate::graph::has_edge(e, p[i], p[i + 1]));
            }
        }
        let i = p.len() - 2;
        assert(crate::graph::has_edge(e, p[i], p[i + 1]));
        let k = choose|k: int| 0 <= k < e.len() && #[trigger] e[k] == (p[i], p[i + 1]);
        assert(q.last() == p[i]);
        lemma_fork_path(e, q);
        assert forall|j: int| 0 <= j < p.len() implies #[trigger] p[j] < 4 by {
            if j < p.len() - 1 {
                assert(p[j] == q[j]);
            }
        }
    }
}

/// The longest path and the heaviest delay sum into knot `v` of C05.
proof fn lemma_fork_depth(e: crate::graph::Edges, w: Seq<u16>, v: usize)
    requires
        e == seq![(0usize, 1usize), (1usize, 2usize), (1usize, 3usize)],
        w == seq![0u16, 0, 0, 0],
        v < 4,
    ensures
        crate::validate::longest(e, v) == fork_rank(v),
        crate::validate::heaviest(e, w, v) == 0,
{
    let full: Seq<usize> = if v == 0 {
        seq![0usize]
    } else if v == 1 {
        seq![0usize, 1]
    } else {
        seq![0usize, 1, v]
    };
    assert(e[0] == (0usize, 1usize) && e[1] == (1usize, 2usize) && e[2] == (1usize, 3usize));
    assert(crate::graph::is_path(e, full)) by {
        assert forall|i: int| 0 <= i < full.len() - 1 implies crate::graph::has_edge(e, #[trigger] full[i], full[i + 1]) by {
            if i == 0 {
                assert(e[0] == (full[0], full[1]));
            } else if v == 2 {
                assert(e[1] == (full[1], full[2]));
            } else {
                assert(e[2] == (full[1], full[2]));
            }
        }
    }
    assert forall|i: int| 0 <= i < full.len() implies #[trigger] full[i] < 4 by {}
    lemma_fan_in_weight(w, full);
    assert forall|p: Seq<usize>| #[trigger] crate::graph::is_path(e, p) && p.last() == v implies p.len() - 1 <= fork_rank(v)
        && crate::graph::path_weight(w, p) <= 0 by {
        lemma_fork_path(e, p);
        lemma_fan_in_weight(w, p);
    }
    assert(crate::graph::longest_path_to(e, v, fork_rank(v)));
    assert(crate::graph::heaviest_path_to(e, w, v, 0));
    crate::validate::lemma_longest_is(e, v, fork_rank(v));
    crate::validate::lemma_heaviest_is(e, w, v, 0);
}

/// The knots of any weave with C05's shapes, as the kinds they must be.
proof fn lemma_c05_knots(ks: Seq<KnotDef>)
    requires
        knot_shapes(ks) == c05_knots(),
    ensures
        ks.len() == 4,
        ks[0].id@ == "axis"@ && ks[1].id@ == "th"@ && ks[2].id@ == "pressed"@ && ks[3].id@ == "just"@,
        ks[0].kind == (KnotKind::SignalIn { domain: SignalDomain::Level }),
        ks[1].kind == (KnotKind::Threshold { domain: SignalDomain::Level, high: 5, low: 0, use_hysteresis: false }),
        ks[2].kind matches KnotKind::SignalOut { path, domain } && path@ == "pressed"@ && domain == SignalDomain::Bool,
        ks[3].kind matches KnotKind::SignalOut { path, domain } && path@ == "just_pressed"@ && domain == SignalDomain::Bool,
{
    assert(knot_shapes(ks).len() == ks.len());
    assert(knot_shapes(ks)[0] == (ks[0].id@, shape_of(ks[0].kind)));
    assert(knot_shapes(ks)[1] == (ks[1].id@, shape_of(ks[1].kind)));
    assert(knot_shapes(ks)[2] == (ks[2].id@, shape_of(ks[2].kind)));
    assert(knot_shapes(ks)[3] == (ks[3].id@, shape_of(ks[3].kind)));
}

/// C05's knots and threads assemble: ids distinct, every thread names
/// known knots and ports of the right direction.
proof fn lemma_c05_assembled()
    ensures
        assembly_fault("c05"@, c05_knots(), c05_threads()) is None,
{
    reveal_strlit("c05");
    reveal_strlit("axis");
    reveal_strlit("th");
    reveal_strlit("pressed");
    reveal_strlit("just");
    reveal_strlit("out");
    reveal_strlit("in");
    reveal_strlit("crossed_up");
    reveal_with_fuel(find_shape_from, 5);
    reveal_with_fuel(crate::catalog::find_port, 5);
    reveal_with_fuel(scan_adds, 5);
    reveal_with_fuel(scan_wires, 4);
    assert("axis"@[0] != "just"@[0] && "axis"@.len() != "pressed"@.len() && "th"@.len() != "pressed"@.len() && "th"@.len() != "just"@.len() && "just"@.len() != "pressed"@.len() && "axis"@.len() != "th"@.len() && "in"@[0] != "out"@[0] && "out"@.len() != "crossed_up"@.len() && "in"@.len() != "crossed_up"@.len());
    let d = c05_knots();
    assert(d.subrange(0, 0) =~= Seq::<(Seq<char>, KnotShape)>::empty());
    assert(d.subrange(0, 1) =~= seq![d[0]]);
    assert(d.subrange(0, 2) =~= seq![d[0], d[1]]);
    assert(d.subrange(0, 3) =~= seq![d[0], d[1], d[2]]);
    assert(add_fault(d, 0) is None);
    assert(add_fault(d, 1) is None);
    assert(add_fault(d, 2) is None);
    assert(add_fault(d, 3) is None);
    assert(scan_adds(d, 0) is None);
    let names = c05_threads();
    assert(wire_fault(d, names[0]) is None);
    assert(wire_fault(d, names[1]) is None);
    assert(wire_fault(d, names[2]) is None);
    assert(scan_wires(d, names, 0) is None);
}

/// C05's graph validates: ids distinct, every thread resolves Out to In
/// without fan-in, required inputs fed, no loop, acyclic.
proof fn lemma_c05_valid(ks: Seq<KnotDef>, ts: Seq<ThreadDef>)
    requires
        knot_shapes(ks) == c05_knots(),
        threads_named(ts, c05_threads()),
    ensures
        structural_fault("c05"@, NumericPath::spec_compiled(), ks, ts) is None,
{
    reveal_strlit("c05");
    reveal_strlit("axis");
    reveal_strlit("th");
    reveal_strlit("pressed");
    reveal_strlit("just");
    reveal_strlit("out");
    reveal_strlit("in");
    reveal_strlit("crossed_up");
    reveal_with_fuel(find_knot_from, 5);
    reveal_with_fuel(crate::catalog::find_port, 5);
    reveal_with_fuel(crate::validate::scan_knots, 5);
    reveal_with_fuel(crate::validate::scan_threads, 4);
    reveal_with_fuel(crate::validate::scan_required, 5);
    reveal_with_fuel(crate::validate::scan_ports, 5);
    reveal_with_fuel(crate::validate::scan_self, 4);
    lemma_c05_knots(ks);
    assert("axis"@[0] != "just"@[0] && "axis"@.len() != "pressed"@.len() && "th"@.len() != "pressed"@.len() && "th"@.len() != "just"@.len() && "just"@.len() != "pressed"@.len() && "axis"@.len() != "th"@.len() && "in"@[0] != "out"@[0] && "out"@.len() != "crossed_up"@.len() && "in"@.len() != "crossed_up"@.len());
    assert(ts.len() == 3);
    assert(ts[0].from.knot@ == "axis"@ && ts[0].from.port@ == "out"@ && ts[0].to.knot@ == "th"@ && ts[0].to.port@ == "in"@);
    assert(ts[1].from.knot@ == "th"@ && ts[1].from.port@ == "out"@ && ts[1].to.knot@ == "pressed"@ && ts[1].to.port@ == "in"@);
    assert(ts[2].from.knot@ == "th"@ && ts[2].from.port@ == "crossed_up"@ && ts[2].to.knot@ == "just"@ && ts[2].to.port@ == "in"@);
    assert(find_knot(ks, "axis"@) == Some(0int));
    assert(find_knot(ks, "th"@) == Some(1int));
    assert(find_knot(ks, "pressed"@) == Some(2int));
    assert(find_knot(ks, "just"@) == Some(3int));
    assert(crate::validate::knot_fault(ks, 0) is None);
    assert(crate::validate::knot_fault(ks, 1) is None);
    assert(crate::validate::knot_fault(ks, 2) is None);
    assert(crate::validate::knot_fault(ks, 3) is None);
    assert(crate::validate::scan_knots(ks, 0) is None);
    assert(crate::validate::target_of(ks, ts[0]) == Some((1int, 0int)));
    assert(crate::validate::target_of(ks, ts[1]) == Some((2int, 0int)));
    assert(crate::validate::target_of(ks, ts[2]) == Some((3int, 0int)));
    assert(!crate::validate::earlier_same_target(ks, ts, 0));
    assert(!crate::validate::earlier_same_target(ks, ts, 1));
    assert(!crate::validate::earlier_same_target(ks, ts, 2));
    assert(crate::validate::thread_fault(ks, ts, 0) is None);
    assert(crate::validate::thread_fault(ks, ts, 1) is None);
    assert(crate::validate::thread_fault(ks, ts, 2) is None);
    assert(crate::validate::scan_threads(ks, ts, 0) is None);
    assert(crate::validate::wired(ks, ts, 1, 0));
    assert(crate::validate::wired(ks, ts, 2, 0));
    assert(crate::validate::wired(ks, ts, 3, 0));
    assert(crate::validate::scan_ports(ks, ts, Seq::empty(), 0, 0) is None);
    assert(crate::validate::scan_ports(ks, ts, Seq::empty(), 1, 0) is None);
    assert(crate::validate::scan_ports(ks, ts, Seq::empty(), 2, 0) is None);
    assert(crate::validate::scan_ports(ks, ts, Seq::empty(), 3, 0) is None);
    assert(crate::validate::scan_required(ks, ts, Seq::empty(), 0) is None);
    assert(crate::validate::scan_self(ks, ts, 0) is None);
    let e = crate::validate::knot_edges(ks, ts);
    assert(e[0] == (0usize, 1usize) && e[1] == (1usize, 2usize) && e[2] == (1usize, 3usize));
    assert(crate::graph::is_rank(4, e, seq![0int, 1, 2, 3]));
}

/// C05's graph is within the default budget.
proof fn lemma_c05_budget(ks: Seq<KnotDef>, ts: Seq<ThreadDef>)
    requires
        knot_shapes(ks) == c05_knots(),
        threads_named(ts, c05_threads()),
    ensures
        crate::validate::budget_fault(ks, ts, crate::validate::spec_default_budget()) is None,
        crate::runtime::delay_prefix(ks, 4) <= crate::validate::MAX_DENSE,
{
    lemma_c05_valid(ks, ts);
    lemma_c05_knots(ks);
    reveal_with_fuel(crate::validate::scan_fan_out, 5);
    reveal_with_fuel(crate::validate::out_count, 4);
    reveal_with_fuel(crate::validate::scan_depth, 5);
    reveal_with_fuel(crate::runtime::delay_prefix, 5);
    let e = crate::validate::knot_edges(ks, ts);
    let w = crate::validate::delay_weights(ks);
    reveal_strlit("axis");
    reveal_strlit("th");
    reveal_strlit("pressed");
    reveal_strlit("just");
    reveal_with_fuel(find_knot_from, 5);
    assert("axis"@[0] != "just"@[0] && "axis"@.len() != "pressed"@.len() && "th"@.len() != "pressed"@.len() && "th"@.len() != "just"@.len() && "just"@.len() != "pressed"@.len() && "axis"@.len() != "th"@.len());
    assert(ts.len() == 3);
    assert(find_knot(ks, "axis"@) == Some(0int));
    assert(find_knot(ks, "th"@) == Some(1int));
    assert(find_knot(ks, "pressed"@) == Some(2int));
    assert(find_knot(ks, "just"@) == Some(3int));
    assert(e =~= seq![(0usize, 1usize), (1usize, 2usize), (1usize, 3usize)]);
    assert(w =~= seq![0u16, 0, 0, 0]);
    lemma_fork_depth(e, w, 0);
    lemma_fork_depth(e, w, 1);
    lemma_fork_depth(e, w, 2);
    lemma_fork_depth(e, w, 3);
    assert(crate::validate::scan_depth(e, w, crate::validate::spec_default_budget(), 0) is None);
}

/// One settle of C05's tables: the threshold steps on the sensed axis, and
/// its level and rising crossing are sampled on `pressed` and
/// `just_pressed`, in whichever order the two outputs are evaluated.
#[verifier::rlimit(40)]
proof fn lemma_c05_settle(t: Tables, senses: Seq<Signal>, d: Dyn)
    requires
        t.tags.len() == 4,
        t.tags[0] is Sense,
        t.tags[1] == (KindTag::Threshold { high: 5, low: 0, use_hysteresis: false }),
        t.tags[2] is SignalOut,
        t.tags[3] is SignalOut,
        t.topo == seq![0u16, 1, 2, 3] || t.topo == seq![0u16, 1, 3, 2],
        t.inbound.len() == 4,
        t.inbound[1]@ == seq![(0u16, 0u8, 0u8)],
        t.inbound[2]@ == seq![(1u16, 1u8, 0u8)],
        t.inbound[3]@ == seq![(1u16, 2u8, 0u8)],
        t.clear_mask.len() == 32,
        t.sense_seeds == seq![SenseSeed::SignalIn { kid: 0 }],
        t.knot_path.len() == 4,
        t.knot_path[2] == 0,
        t.knot_path[3] == 1,
        d.ports.len() == 32,
        d.flag.len() == 4,
        senses.len() == 4,
    ensures
        ({
            let r = settle(t, senses, d);
            let on = senses[0] >= 5;
            let sp = SignalOutSample { path: HostPathId { owner: t.owner, index: 0 }, value: bool_signal(on) };
            let sj = SignalOutSample { path: HostPathId { owner: t.owner, index: 1 }, value: bool_signal(!d.flag[1] && on) };
            &&& (r.out_signals == d.out_signals.push(sp).push(sj) || r.out_signals == d.out_signals.push(sj).push(sp))
            &&& r.flag == d.flag.update(1, on)
        }),
{
    let v = senses[0];
    let cleared = Dyn { ports: clear_ports(d.ports, t.clear_mask, t.clear_mask.len() as int), ..d };
    assert(cleared.ports.len() == 32);
    reveal_with_fuel(seeded, 2);
    let s0 = seeded(t, senses, cleared, 1);
    assert(s0.ports == cleared.ports.update(0, v));
    assert(s0.out_signals == d.out_signals && s0.flag == d.flag);
    reveal_with_fuel(evaluated, 5);
    assert(evaluated(t, s0, 1) == s0);
    let g1 = gather_dyn(t, s0, 1);
    reveal_with_fuel(gather_ports, 2);
    assert(g1.ports == s0.ports.update(8, s0.ports[0]));
    let e2 = evaluated(t, s0, 2);
    assert(e2 == eval_dyn(t, g1, 1));
    assert(knot_ports(g1.ports, 1)[0] == v);
    let on = v >= 5;
    assert(e2.ports[9] == bool_signal(on));
    assert(e2.ports[10] == bool_signal(!d.flag[1] && on));
    assert(e2.ports.len() == 32);
    assert(e2.out_signals == d.out_signals);
    assert(e2.flag == d.flag.update(1, on));
    if t.topo == seq![0u16, 1, 2, 3] {
        let g2 = gather_dyn(t, e2, 2);
        assert(g2.ports == e2.ports.update(16, e2.ports[9]));
        let e3 = evaluated(t, s0, 3);
        assert(e3 == eval_dyn(t, g2, 2));
        assert(knot_ports(g2.ports, 2)[0] == bool_signal(on));
        assert(e3.ports.len() == 32 && e3.ports[10] == e2.ports[10]);
        let g3 = gather_dyn(t, e3, 3);
        assert(g3.ports == e3.ports.update(24, e3.ports[10]));
        let e4 = evaluated(t, s0, 4);
        assert(e4 == eval_dyn(t, g3, 3));
        assert(knot_ports(g3.ports, 3)[0] == bool_signal(!d.flag[1] && on));
    } else {
        let g2 = gather_dyn(t, e2, 3);
        assert(g2.ports == e2.ports.update(24, e2.ports[10]));
        let e3 = evaluated(t, s0, 3);
        assert(e3 == eval_dyn(t, g2, 3));
        assert(knot_ports(g2.ports, 3)[0] == bool_signal(!d.flag[1] && on));
        assert(e3.ports.len() == 32 && e3.ports[9] == e2.ports[9]);
        let g3 = gather_dyn(t, e3, 2);
        assert(g3.ports == e3.ports.update(16, e3.ports[9]));
        let e4 = evaluated(t, s0, 4);
        assert(e4 == eval_dyn(t, g3, 2));
        assert(knot_ports(g3.ports, 2)[0] == bool_signal(on));
    }
}

/// A runtime of C05: its tables, its host paths `pressed` and
/// `just_pressed`, and its sense `axis`.
spec fn c05_shaped(rt: Runtime) -> bool {
    let t = crate::settle::tables_of(rt);
    &&& rt.wf()
    &&& t.tags.len() == 4
    &&& t.tags[0] is Sense
    &&& t.tags[1] == (KindTag::Threshold { high: 5, low: 0, use_hysteresis: false })
    &&& t.tags[2] is SignalOut
    &&& t.tags[3] is SignalOut
    &&& (t.topo == seq![0u16, 1, 2, 3] || t.topo == seq![0u16, 1, 3, 2])
    &&& t.inbound.len() == 4
    &&& t.inbound[1]@ == seq![(0u16, 0u8, 0u8)]
    &&& t.inbound[2]@ == seq![(1u16, 1u8, 0u8)]
    &&& t.inbound[3]@ == seq![(1u16, 2u8, 0u8)]
    &&& t.clear_mask.len() == 32
    &&& t.sense_seeds == seq![SenseSeed::SignalIn { kid: 0 }]
    &&& t.knot_path.len() == 4
    &&& t.knot_path[2] == 0
    &&& t.knot_path[3] == 1
    &&& t.owner == rt.spec_owner()
    &&& crate::validate::names_view(rt.spec_path_names()) == seq!["pressed"@, "just_pressed"@]
    &&& rt.spec_knots().len() == 4
    &&& find_knot(rt.spec_knots(), "axis"@) == Some(0int)
    &&& rt.spec_knots()[0].kind == (KnotKind::SignalIn { domain: SignalDomain::Level })
}

/// The tables of every bind of a weave with C05's knots and threads.
proof fn lemma_c05_tables(rt: Runtime, w: Weave, opts: crate::runtime::BindOpts)
    requires
        crate::runtime::bound_from(rt, w, opts),
        knot_shapes(w.spec_knots()) == c05_knots(),
        threads_named(w.spec_threads(), c05_threads()),
    ensures
        c05_shaped(rt),
{
    let ks = w.spec_knots();
    let ts = w.spec_threads();
    lemma_c05_knots(ks);
    lemma_c05_valid(ks, ts);
    reveal_strlit("axis");
    reveal_strlit("th");
    reveal_strlit("pressed");
    reveal_strlit("just");
    reveal_strlit("just_pressed");
    reveal_strlit("out");
    reveal_strlit("in");
    reveal_strlit("crossed_up");
    reveal_with_fuel(find_knot_from, 5);
    assert("axis"@[0] != "just"@[0] && "axis"@.len() != "pressed"@.len() && "th"@.len() != "pressed"@.len() && "th"@.len() != "just"@.len() && "just"@.len() != "pressed"@.len() && "axis"@.len() != "th"@.len() && "in"@[0] != "out"@[0] && "out"@.len() != "crossed_up"@.len() && "in"@.len() != "crossed_up"@.len());
    assert(find_knot(ks, "axis"@) == Some(0int));
    assert(find_knot(ks, "th"@) == Some(1int));
    assert(find_knot(ks, "pressed"@) == Some(2int));
    assert(find_knot(ks, "just"@) == Some(3int));
    let th = rt.spec_threads();
    assert(ts.len() == 3);
    reveal_with_fuel(crate::catalog::find_port, 5);
    assert(crate::catalog::find_port(crate::catalog::port_table(ks[0].kind), "out"@) == Some(0int));
    assert(crate::catalog::find_port(crate::catalog::port_table(ks[1].kind), "in"@) == Some(0int));
    assert(crate::catalog::find_port(crate::catalog::port_table(ks[1].kind), "out"@) == Some(1int));
    assert(crate::catalog::find_port(crate::catalog::port_table(ks[1].kind), "crossed_up"@) == Some(2int));
    assert(crate::catalog::find_port(crate::catalog::port_table(ks[2].kind), "in"@) == Some(0int));
    assert(crate::catalog::find_port(crate::catalog::port_table(ks[3].kind), "in"@) == Some(0int));
    assert(crate::runtime::thread_resolved(ks, ts[0], th[0]));
    assert(crate::runtime::thread_resolved(ks, ts[1], th[1]));
    assert(crate::runtime::thread_resolved(ks, ts[2], th[2]));
    assert(th[0] == (0u16, 0u8, 1u16, 0u8));
    assert(th[1] == (1u16, 1u8, 2u16, 0u8));
    assert(th[2] == (1u16, 2u8, 3u16, 0u8));
    reveal_with_fuel(crate::runtime::into_prefix, 4);
    assert(rt.inbound@[1]@ =~= seq![(0u16, 0u8, 0u8)]);
    assert(rt.inbound@[2]@ =~= seq![(1u16, 1u8, 0u8)]);
    assert(rt.inbound@[3]@ =~= seq![(1u16, 2u8, 0u8)]);
    // Tags.
    assert(crate::runtime::tag_refines(rt.tags@[1], ks[1].kind, rt.inbound@[1]@));
    assert(rt.tags@[0] is Sense);
    assert(rt.tags@[2] is SignalOut);
    assert(rt.tags@[3] is SignalOut);
    // The order: the axis, the threshold, then both outputs.
    let tp = rt.topo@;
    assert(tp.len() == 4);
    assert(tp[0] < 4 && tp[1] < 4 && tp[2] < 4 && tp[3] < 4);
    assert(tp[0] != tp[1] && tp[0] != tp[2] && tp[0] != tp[3] && tp[1] != tp[2] && tp[1] != tp[3] && tp[2] != tp[3]);
    assert(th[0].0 != th[0].2 && th[1].0 != th[1].2 && th[2].0 != th[2].2);
    assert(tp =~= seq![0u16, 1, 2, 3] || tp =~= seq![0u16, 1, 3, 2]);
    // Seeds: only knot 0 is seeded.
    let sd = rt.sense_seeds@;
    assert(crate::runtime::seeds_match(sd, ks));
    assert forall|j: int| 0 <= j < sd.len() implies (#[trigger] sd[j]).kid() == 0 by {
        assert(sd[j].kid() < 4);
    }
    let j0 = choose|j: int| 0 <= j < sd.len() && #[trigger] sd[j].kid() == 0;
    if sd.len() > 1 {
        assert(sd[0].kid() < sd[1].kid());
    }
    assert(sd.len() == 1);
    assert(sd[0] == SenseSeed::SignalIn { kid: 0 });
    assert(sd =~= seq![SenseSeed::SignalIn { kid: 0 }]);
    // Paths: `pressed`, then `just_pressed`.
    reveal_with_fuel(crate::runtime::paths_seen, 5);
    assert("pressed"@ != "just_pressed"@);
    assert(crate::runtime::paths_seen(ks, 4) =~= seq!["pressed"@, "just_pressed"@]);
    let nv = crate::validate::names_view(rt.path_names@);
    assert(nv.len() == 2 && rt.path_names@.len() == 2);
    assert(rt.path_names@[0]@ == nv[0] && rt.path_names@[1]@ == nv[1]);
    assert(rt.knot_path@[2] < 2 && rt.path_names@[rt.knot_path@[2] as int]@ == "pressed"@);
    assert(rt.knot_path@[3] < 2 && rt.path_names@[rt.knot_path@[3] as int]@ == "just_pressed"@);
}

/// One C05 frame writing `v` to `axis`: it is accepted, the threshold
/// steps, and its level and rising crossing are sampled.
proof fn lemma_c05_frame(before: Runtime, after: Runtime, id: SenseId, v: Signal, r: Result<(), HandleError>)
    requires
        c05_shaped(before),
        after.wf(),
        after.same_tables(&before),
        id.spec_owner() == before.spec_owner(),
        id.spec_index() == 0,
        crate::host::frame_ran(before, seq![(id, v)], r, after),
    ensures
        r is Ok,
        c05_shaped(after),
        after.flag@[1] == (v >= 5),
        crate::cookbook::helpers::signal_out_of(after, "pressed"@) == Some(bool_signal(v >= 5)),
        crate::cookbook::helpers::signal_out_of(after, "just_pressed"@) == Some(bool_signal(!before.flag@[1] && v >= 5)),
{
    let senses = seq![(id, v)];
    assert(crate::host::write_ok(before, senses[0].0, senses[0].1));
    assert(crate::settle::tables_of(after) == crate::settle::tables_of(before));
    assert(after.spec_path_names() == before.spec_path_names());
    assert(after.spec_knots() == before.spec_knots());
    let sv = after.spec_sense_values();
    assert(sv == crate::host::senses_after(before.spec_sense_values(), senses, 1));
    reveal_with_fuel(crate::host::senses_after, 2);
    assert(sv == before.spec_sense_values().update(0, v));
    assert(sv[0] == v && sv.len() == 4);
    let d = crate::settle::frame_start(crate::settle::dyn_of(before));
    lemma_c05_settle(crate::settle::tables_of(before), sv, d);
    let hp = HostPathId { owner: before.spec_owner(), index: 0 };
    let hj = HostPathId { owner: before.spec_owner(), index: 1 };
    let names = after.spec_path_names();
    assert(crate::validate::names_view(names).len() == 2);
    assert(names.len() == 2);
    assert(names[0]@ == crate::validate::names_view(names)[0]);
    assert(names[1]@ == crate::validate::names_view(names)[1]);
    reveal_strlit("pressed");
    reveal_strlit("just_pressed");
    assert("pressed"@ != "just_pressed"@);
    reveal_with_fuel(crate::runtime::find_name_from, 3);
    assert(crate::runtime::find_name(names, "pressed"@) == Some(0int));
    assert(crate::runtime::find_name(names, "just_pressed"@) == Some(1int));
    assert(crate::cookbook::helpers::path_handle(after, "pressed"@) == Some(hp));
    assert(crate::cookbook::helpers::path_handle(after, "just_pressed"@) == Some(hj));
    assert(hp != hj);
    reveal_with_fuel(crate::cookbook::helpers::sample_of, 3);
    let outs = after.out_signals@;
    assert(outs.len() == 2);
    assert(outs.drop_first().drop_first().len() == 0);
}

/// Topology of C05: an analog axis through a threshold to digital outputs.
pub fn c05_axis_digital_weave() -> (r: Result<Weave, BuildError>)
    ensures
        weave_built(r, "c05"@, c05_knots(), c05_threads()),
{
    let knots = vec![
        knot_def("axis", KnotKind::signal_in(SignalDomain::Level)),
        knot_def("th", KnotKind::Threshold { domain: SignalDomain::Level, high: from_count(5), low: from_count(0), use_hysteresis: false }),
        knot_def("pressed", KnotKind::signal_out("pressed", SignalDomain::Bool)),
        knot_def("just", KnotKind::signal_out("just_pressed", SignalDomain::Bool)),
    ];
    let threads: &[(&str, &str, &str, &str)] = &[("axis", "out", "th", "in"), ("th", "out", "pressed", "in"), ("th", "crossed_up", "just", "in")];
    proof {
        assert(knot_shapes(knots@) =~= c05_knots());
        assert(thread_names(threads@) =~= c05_threads());
    }
    build_weave("c05", knots, threads)
}

/// C05: pressed while at or above the threshold; just-pressed once.
#[verifier::rlimit(60)]
pub fn run_c05_axis_digital() -> (r: Result<(), CookbookError>)
    ensures
        r is Ok,
{
    let w = match c05_axis_digital_weave() {
        Ok(w) => w,
        Err(e) => {
            proof {
                lemma_c05_assembled();
                let (ks, ts) = choose|ks: Seq<KnotDef>, ts: Seq<ThreadDef>|
                    #![trigger knot_shapes(ks), threads_named(ts, c05_threads())]
                    knot_shapes(ks) == c05_knots() && threads_named(ts, c05_threads()) && structural_fault(
                        "c05"@,
                        NumericPath::spec_compiled(),
                        ks,
                        ts,
                    ) is Some;
                lemma_c05_valid(ks, ts);
            }
            return Err(CookbookError::Build(e));
        },
    };
    proof {
        lemma_c05_budget(w.spec_knots(), w.spec_threads());
        lemma_c05_knots(w.spec_knots());
    }
    let mut rt = match bind_default(&w) {
        Ok(rt) => rt,
        Err(e) => {
            return Err(CookbookError::Bind(e));
        },
    };
    proof {
        lemma_c05_tables(rt, w, crate::runtime::spec_default_bind_opts());
        assert(!rt.flag@[1]);
    }
    let ghost rt0 = rt;
    let a = sense(&rt, "axis")?;
    let mut h = ScriptedHost::new();
    let f1 = [(a, from_count(4))];
    assert(h.pending().push(f1@)[0] == f1@);
    assert(f1@ == seq![(a, 4i32)]);
    let r1 = tick_senses(&mut h, &mut rt, &f1);
    let ghost rt1 = rt;
    proof {
        lemma_c05_frame(rt0, rt1, a, 4, r1);
        assert(h.pending() =~= Seq::<Seq<(SenseId, Signal)>>::empty());
    }
    handle_step(r1)?;
    expect_truthy(&rt, "pressed", false)?;
    expect_truthy(&rt, "just_pressed", false)?;
    let f2 = [(a, from_count(5))];
    assert(h.pending().push(f2@)[0] == f2@);
    assert(f2@ == seq![(a, 5i32)]);
    let r2 = tick_senses(&mut h, &mut rt, &f2);
    let ghost rt2 = rt;
    proof {
        lemma_c05_frame(rt1, rt2, a, 5, r2);
        assert(h.pending() =~= Seq::<Seq<(SenseId, Signal)>>::empty());
    }
    handle_step(r2)?;
    expect_truthy(&rt, "pressed", true)?;
    expect_truthy(&rt, "just_pressed", true)?;
    let f3 = [(a, from_count(5))];
    assert(h.pending().push(f3@)[0] == f3@);
    assert(f3@ == seq![(a, 5i32)]);
    let r3 = tick_senses(&mut h, &mut rt, &f3);
    proof {
        lemma_c05_frame(rt2, rt, a, 5, r3);
    }
    handle_step(r3)?;
    expect_truthy(&rt, "pressed", true)?;
    expect_truthy(&rt, "just_pressed", false)
}

/// Knots of C06.
pub open spec fn c06_knots() -> Seq<(Seq<char>, KnotShape)> {
    seq![
        ("in"@, KnotShape::Plain(KnotKind::SignalIn { domain: SignalDomain::Count })),
        ("map"@, KnotShape::Plain(KnotKind::MapRange { domain: SignalDomain::Count, in_min: ZERO, in_max: ONE, out_min: 0, out_max: 10 })),
        ("out"@, KnotShape::Out { path: "scaled"@, domain: SignalDomain::Count }),
    ]
}

/// Threads of C06.
pub open spec fn c06_threads() -> Seq<(Seq<char>, Seq<char>, Seq<char>, Seq<char>)> {
    seq![("in"@, "out"@, "map"@, "in"@), ("map"@, "out"@, "out"@, "in"@)]
}

/// C06's graph is within the default budget.
proof fn lemma_c06_budget(ks: Seq<KnotDef>, ts: Seq<ThreadDef>)
    requires
        knot_shapes(ks) == c06_knots(),
        threads_named(ts, c06_threads()),
    ensures
        crate::validate::budget_fault(ks, ts, crate::validate::spec_default_budget()) is None,
        crate::runtime::delay_prefix(ks, 3) <= crate::validate::MAX_DENSE,
{
    lemma_c06_valid(ks, ts);
    lemma_c06_knots(ks);
    reveal_with_fuel(crate::validate::scan_fan_out, 3);
    reveal_with_fuel(crate::validate::out_count, 3);
    reveal_with_fuel(crate::validate::scan_depth, 4);
    reveal_with_fuel(crate::runtime::delay_prefix, 4);
    let e = crate::validate::knot_edges(ks, ts);
    let w = crate::validate::delay_weights(ks);
    reveal_strlit("in");
    reveal_strlit("map");
    reveal_strlit("out");
    reveal_with_fuel(find_knot_from, 4);
    assert("map"@[0] != "out"@[0]);
    assert(ts.len() == 2);
    assert(find_knot(ks, "in"@) == Some(0int));
    assert(find_knot(ks, "map"@) == Some(1int));
    assert(find_knot(ks, "out"@) == Some(2int));
    assert(e =~= seq![(0usize, 1usize), (1usize, 2usize)]);
    assert(w =~= seq![0u16, 0, 0]);
    lemma_chain3_depth(e, w, 0, 0);
    lemma_chain3_depth(e, w, 1, 0);
    lemma_chain3_depth(e, w, 2, 0);
    assert(crate::validate::scan_depth(e, w, crate::validate::spec_default_budget(), 0) is None);
}

/// The knots of any weave with C06's shapes, as the kinds they must be.
proof fn lemma_c06_knots(ks: Seq<KnotDef>)
    requires
        knot_shapes(ks) == c06_knots(),
    ensures
        ks.len() == 3,
        ks[0].id@ == "in"@ && ks[1].id@ == "map"@ && ks[2].id@ == "out"@,
        ks[0].kind == (KnotKind::SignalIn { domain: SignalDomain::Count }),
        ks[1].kind == (KnotKind::MapRange { domain: SignalDomain::Count, in_min: ZERO, in_max: ONE, out_min: 0, out_max: 10 }),
        ks[2].kind matches KnotKind::SignalOut { path, domain } && path@ == "scaled"@ && domain == SignalDomain::Count,
{
    assert(knot_shapes(ks).len() == ks.len());
    assert(knot_shapes(ks)[0] == (ks[0].id@, shape_of(ks[0].kind)));
    assert(knot_shapes(ks)[1] == (ks[1].id@, shape_of(ks[1].kind)));
    assert(knot_shapes(ks)[2] == (ks[2].id@, shape_of(ks[2].kind)));
}

/// C06's knots and threads assemble: ids distinct, every thread names
/// known knots and ports of the right direction.
proof fn lemma_c06_assembled()
    ensures
        assembly_fault("c06"@, c06_knots(), c06_threads()) is None,
{
    reveal_strlit("c06");
    reveal_strlit("in");
    reveal_strlit("map");
    reveal_strlit("out");
    reveal_with_fuel(find_shape_from, 4);
    reveal_with_fuel(crate::catalog::find_port, 3);
    reveal_with_fuel(scan_adds, 4);
    reveal_with_fuel(scan_wires, 3);
    assert("map"@[0] != "out"@[0]);
    let d = c06_knots();
    assert(d.subrange(0, 1) =~= seq![d[0]]);
    assert(d.subrange(0, 2) =~= seq![d[0], d[1]]);
    assert(d.subrange(0, 0) =~= Seq::<(Seq<char>, KnotShape)>::empty());
    assert(add_fault(d, 0) is None);
    assert(add_fault(d, 1) is None);
    assert(add_fault(d, 2) is None);
    assert(scan_adds(d, 0) is None);
    let names = c06_threads();
    assert(wire_fault(d, names[0]) is None);
    assert(wire_fault(d, names[1]) is None);
    assert(scan_wires(d, names, 0) is None);
}

/// C06's graph is authored and validates: ids distinct, every thread
/// resolves Out to In without fan-in, required inputs fed, no loop, acyclic.
proof fn lemma_c06_valid(ks: Seq<KnotDef>, ts: Seq<ThreadDef>)
    requires
        knot_shapes(ks) == c06_knots(),
        threads_named(ts, c06_threads()),
    ensures
        assembly_fault("c06"@, c06_knots(), c06_threads()) is None,
        structural_fault("c06"@, NumericPath::spec_compiled(), ks, ts) is None,
{
    reveal_strlit("c06");
    reveal_strlit("in");
    reveal_strlit("map");
    reveal_strlit("out");
    reveal_with_fuel(find_shape_from, 4);
    reveal_with_fuel(find_knot_from, 4);
    reveal_with_fuel(crate::catalog::find_port, 3);
    reveal_with_fuel(crate::validate::scan_knots, 4);
    reveal_with_fuel(crate::validate::scan_threads, 3);
    reveal_with_fuel(crate::validate::scan_required, 4);
    reveal_with_fuel(crate::validate::scan_ports, 3);
    reveal_with_fuel(crate::validate::scan_self, 3);
    reveal_with_fuel(scan_adds, 4);
    reveal_with_fuel(scan_wires, 3);
    lemma_c06_knots(ks);
    assert("map"@[0] != "out"@[0]);
    let d = c06_knots();
    assert(d.subrange(0, 1) =~= seq![d[0]]);
    assert(d.subrange(0, 2) =~= seq![d[0], d[1]]);
    assert(d.subrange(0, 0) =~= Seq::<(Seq<char>, KnotShape)>::empty());
    assert(add_fault(d, 0) is None);
    assert(add_fault(d, 1) is None);
    assert(add_fault(d, 2) is None);
    assert(scan_adds(d, 0) is None);
    let names = c06_threads();
    assert(wire_fault(d, names[0]) is None);
    assert(wire_fault(d, names[1]) is None);
    assert(scan_wires(d, names, 0) is None);
    assert(ts.len() == 2);
    assert(ts[0].from.knot@ == "in"@ && ts[0].from.port@ == "out"@ && ts[0].to.knot@ == "map"@ && ts[0].to.port@ == "in"@);
    assert(ts[1].from.knot@ == "map"@ && ts[1].from.port@ == "out"@ && ts[1].to.knot@ == "out"@ && ts[1].to.port@ == "in"@);
    assert(find_knot(ks, "in"@) == Some(0int));
    assert(find_knot(ks, "map"@) == Some(1int));
    assert(find_knot(ks, "out"@) == Some(2int));
    assert(crate::validate::knot_fault(ks, 0) is None);
    assert(crate::validate::knot_fault(ks, 1) is None);
    assert(crate::validate::knot_fault(ks, 2) is None);
    assert(crate::validate::scan_knots(ks, 0) is None);
    assert(crate::validate::target_of(ks, ts[0]) == Some((1int, 0int)));
    assert(crate::validate::target_of(ks, ts[1]) == Some((2int, 0int)));
    assert(!crate::validate::earlier_same_target(ks, ts, 0));
    assert(!crate::validate::earlier_same_target(ks, ts, 1));
    assert(crate::validate::thread_fault(ks, ts, 0) is None);
    assert(crate::validate::thread_fault(ks, ts, 1) is None);
    assert(crate::validate::scan_threads(ks, ts, 0) is None);
    assert(crate::validate::wired(ks, ts, 1, 0));
    assert(crate::validate::wired(ks, ts, 2, 0));
    assert(crate::validate::scan_ports(ks, ts, Seq::empty(), 0, 0) is None);
    assert(crate::validate::scan_ports(ks, ts, Seq::empty(), 1, 0) is None);
    assert(crate::validate::scan_ports(ks, ts, Seq::empty(), 2, 0) is None);
    assert(crate::validate::scan_required(ks, ts, Seq::empty(), 0) is None);
    assert(crate::validate::scan_self(ks, ts, 0) is None);
    let e = crate::validate::knot_edges(ks, ts);
    assert(e[0] == (0usize, 1usize) && e[1] == (1usize, 2usize));
    assert(crate::graph::is_rank(3, e, seq![0int, 1, 2]));
}

/// One settle of C06's tables: the sensed value, remapped by the plan of
/// `map`, is sampled on `scaled`.
proof fn lemma_c06_settle(t: Tables, senses: Seq<Signal>, d: Dyn, plan: I32MapPlan)
    requires
        t.tags.len() == 3,
        t.tags[0] is Sense,
        t.tags[1] == (KindTag::MapRange { plan }),
        t.tags[2] is SignalOut,
        t.topo == seq![0u16, 1, 2],
        t.inbound.len() == 3,
        t.inbound[1]@ == seq![(0u16, 0u8, 0u8)],
        t.inbound[2]@ == seq![(1u16, 1u8, 0u8)],
        t.clear_mask.len() == 24,
        forall|i: int| 0 <= i < 24 ==> !#[trigger] t.clear_mask[i],
        t.sense_seeds == seq![SenseSeed::SignalIn { kid: 0 }],
        t.knot_path.len() == 3,
        t.knot_path[2] == 0,
        d.ports.len() == 24,
        senses.len() == 3,
    ensures
        settle(t, senses, d).out_signals == d.out_signals.push(
            SignalOutSample { path: HostPathId { owner: t.owner, index: 0 }, value: plan.spec_apply(senses[0]) as i32 },
        ),
{
    let cleared = Dyn { ports: clear_ports(d.ports, t.clear_mask, t.clear_mask.len() as int), ..d };
    assert(cleared.ports =~= d.ports);
    reveal_with_fuel(seeded, 2);
    let s0 = seeded(t, senses, cleared, 1);
    assert(s0.ports == d.ports.update(0, senses[0]));
    assert(s0.out_signals == d.out_signals);
    reveal_with_fuel(evaluated, 4);
    let e1 = evaluated(t, s0, 1);
    assert(e1 == s0);
    let g1 = gather_dyn(t, e1, 1);
    reveal_with_fuel(gather_ports, 2);
    assert(g1.ports == s0.ports.update(8, s0.ports[0]));
    let e2 = evaluated(t, s0, 2);
    assert(e2 == eval_dyn(t, g1, 1));
    let p1 = knot_ports(g1.ports, 1);
    assert(p1[0] == senses[0]);
    assert(e2.ports[9] == plan.spec_apply(senses[0]) as i32);
    assert(e2.ports.len() == 24);
    assert(e2.out_signals == d.out_signals);
    let g2 = gather_dyn(t, e2, 2);
    assert(g2.ports == e2.ports.update(16, e2.ports[9]));
    let e3 = evaluated(t, s0, 3);
    assert(e3 == eval_dyn(t, g2, 2));
    assert(knot_ports(g2.ports, 2)[0] == plan.spec_apply(senses[0]) as i32);
}

/// A runtime of C06: its tables, its one host path `scaled` and its sense
/// `in`.
spec fn c06_shaped(rt: Runtime) -> bool {
    let t = crate::settle::tables_of(rt);
    &&& rt.wf()
    &&& t.tags.len() == 3
    &&& t.tags[0] is Sense
    &&& t.tags[1] matches KindTag::MapRange { plan } && forall|i: i32| #[trigger] plan.spec_apply(i) == spec_map(i, ZERO, ONE, 0, 10) as int
    &&& t.tags[2] is SignalOut
    &&& t.topo == seq![0u16, 1, 2]
    &&& t.inbound.len() == 3
    &&& t.inbound[1]@ == seq![(0u16, 0u8, 0u8)]
    &&& t.inbound[2]@ == seq![(1u16, 1u8, 0u8)]
    &&& t.clear_mask.len() == 24
    &&& forall|i: int| 0 <= i < 24 ==> !#[trigger] t.clear_mask[i]
    &&& t.sense_seeds == seq![SenseSeed::SignalIn { kid: 0 }]
    &&& t.knot_path.len() == 3
    &&& t.knot_path[2] == 0
    &&& t.owner == rt.spec_owner()
    &&& crate::validate::names_view(rt.spec_path_names()) == seq!["scaled"@]
    &&& rt.spec_knots().len() == 3
    &&& find_knot(rt.spec_knots(), "in"@) == Some(0int)
    &&& rt.spec_knots()[0].kind == (KnotKind::SignalIn { domain: SignalDomain::Count })
}

/// The tables of every bind of a weave with C06's knots and threads.
proof fn lemma_c06_tables(rt: Runtime, w: Weave, opts: crate::runtime::BindOpts)
    requires
        crate::runtime::bound_from(rt, w, opts),
        knot_shapes(w.spec_knots()) == c06_knots(),
        threads_named(w.spec_threads(), c06_threads()),
    ensures
        c06_shaped(rt),
{
    let ks = w.spec_knots();
    let ts = w.spec_threads();
    lemma_c06_knots(ks);
    lemma_c06_valid(ks, ts);
    reveal_strlit("in");
    reveal_strlit("map");
    reveal_strlit("out");
    reveal_strlit("scaled");
    reveal_with_fuel(find_knot_from, 4);
    assert("map"@[0] != "out"@[0]);
    assert(find_knot(ks, "in"@) == Some(0int));
    assert(find_knot(ks, "map"@) == Some(1int));
    assert(find_knot(ks, "out"@) == Some(2int));
    let th = rt.spec_threads();
    assert(ts.len() == 2);
    reveal_with_fuel(crate::catalog::find_port, 3);
    assert("in"@[0] != "out"@[0]);
    assert(crate::catalog::find_port(crate::catalog::port_table(ks[1].kind), "out"@) == Some(1int));
    assert(crate::catalog::find_port(crate::catalog::port_table(ks[1].kind), "in"@) == Some(0int));
    assert(crate::catalog::find_port(crate::catalog::port_table(ks[2].kind), "in"@) == Some(0int));
    assert(crate::runtime::thread_resolved(ks, ts[0], th[0]));
    assert(crate::runtime::thread_resolved(ks, ts[1], th[1]));
    assert(th[0] == (0u16, 0u8, 1u16, 0u8));
    assert(th[1] == (1u16, 1u8, 2u16, 0u8));
    reveal_with_fuel(crate::runtime::into_prefix, 3);
    assert(rt.inbound@[1]@ =~= seq![(0u16, 0u8, 0u8)]);
    assert(rt.inbound@[2]@ =~= seq![(1u16, 1u8, 0u8)]);
    assert(rt.inbound@[0]@ =~= Seq::<(u16, u8, u8)>::empty());
    // Tags.
    assert(crate::runtime::tag_refines(rt.tags@[1], ks[1].kind, rt.inbound@[1]@));
    assert(rt.tags@[0] is Sense);
    assert(rt.tags@[2] is SignalOut);
    // The order: three distinct knots, each thread forward.
    let tp = rt.topo@;
    assert(tp.len() == 3);
    assert(tp[0] < 3 && tp[1] < 3 && tp[2] < 3);
    assert(tp[0] != tp[1] && tp[0] != tp[2] && tp[1] != tp[2]);
    assert(th[0].0 != th[0].2 && th[1].0 != th[1].2);
    assert(tp =~= seq![0u16, 1, 2]);
    // Seeds: only knot 0 is seeded.
    let sd = rt.sense_seeds@;
    assert(crate::runtime::seeds_match(sd, ks));
    assert forall|j: int| 0 <= j < sd.len() implies (#[trigger] sd[j]).kid() == 0 by {
        assert(sd[j].kid() < 3);
    }
    let j0 = choose|j: int| 0 <= j < sd.len() && #[trigger] sd[j].kid() == 0;
    if sd.len() > 1 {
        assert(sd[0].kid() < sd[1].kid());
    }
    assert(sd.len() == 1);
    assert(sd[0] == SenseSeed::SignalIn { kid: 0 });
    assert(sd =~= seq![SenseSeed::SignalIn { kid: 0 }]);
    // No input is left unwired.
    let iv = rt.inbound@.map_values(|v: Vec<(u16, u8, u8)>| v@);
    assert(iv[1] == seq![(0u16, 0u8, 0u8)]);
    assert(iv[2] == seq![(1u16, 1u8, 0u8)]);
    assert(iv[1][0].2 == 0 && iv[2][0].2 == 0);
    assert(crate::runtime::wired_slot(iv[1], 0));
    assert(crate::runtime::wired_slot(iv[2], 0));
    assert forall|i: int| 0 <= i < 24 implies !#[trigger] rt.clear_mask@[i] by {
        let k = i / 8;
        let q = i % 8;
        assert(i == crate::runtime::port_index(k, q));
        assert(!crate::runtime::clear_slot(ks, iv, k, q));
    }
    // Paths: only "scaled".
    reveal_with_fuel(crate::runtime::paths_seen, 4);
    assert(crate::runtime::paths_seen(ks, 3) =~= seq!["scaled"@]);
    assert(rt.knot_path@[2] < rt.path_names@.len());
}

/// One C06 frame writing `v` to the sense `in`: it is accepted and the
/// remapped value is sampled on `scaled`.
proof fn lemma_c06_frame(before: Runtime, after: Runtime, id: SenseId, v: Signal, r: Result<(), HandleError>)
    requires
        c06_shaped(before),
        after.wf(),
        after.same_tables(&before),
        id.spec_owner() == before.spec_owner(),
        id.spec_index() == 0,
        crate::host::frame_ran(before, seq![(id, v)], r, after),
    ensures
        r is Ok,
        c06_shaped(after),
        crate::cookbook::helpers::signal_out_of(after, "scaled"@) == Some(spec_map(v, ZERO, ONE, 0, 10)),
{
    let senses = seq![(id, v)];
    assert(crate::host::write_ok(before, senses[0].0, senses[0].1));
    assert(crate::settle::tables_of(after) == crate::settle::tables_of(before));
    assert(after.spec_path_names() == before.spec_path_names());
    assert(after.spec_knots() == before.spec_knots());
    let sv = after.spec_sense_values();
    assert(sv == crate::host::senses_after(before.spec_sense_values(), senses, 1));
    reveal_with_fuel(crate::host::senses_after, 2);
    assert(sv == before.spec_sense_values().update(0, v));
    assert(sv[0] == v && sv.len() == 3);
    let plan = before.tags@[1]->MapRange_plan;
    let d = crate::settle::frame_start(crate::settle::dyn_of(before));
    lemma_c06_settle(crate::settle::tables_of(before), sv, d, plan);
    assert(plan.spec_apply(v) == spec_map(v, ZERO, ONE, 0, 10) as int);
    assert(after.out_signals@ == seq![SignalOutSample { path: HostPathId { owner: before.spec_owner(), index: 0 }, value: spec_map(v, ZERO, ONE, 0, 10) }]);
    let names = after.spec_path_names();
    assert(crate::validate::names_view(names).len() == 1);
    assert(names.len() == 1);
    assert(names[0]@ == crate::validate::names_view(names)[0]);
    reveal_with_fuel(crate::runtime::find_name_from, 2);
    assert(crate::runtime::find_name(names, "scaled"@) == Some(0int));
    assert(crate::cookbook::helpers::path_handle(after, "scaled"@) == Some(HostPathId { owner: before.spec_owner(), index: 0 }));
    reveal_with_fuel(crate::cookbook::helpers::sample_of, 2);
}

/// Topology of C06: a count input remapped from `0..=ONE` to `0..=10`.
pub fn c06_map_remap_weave() -> (r: Result<Weave, BuildError>)
    ensures
        weave_built(r, "c06"@, c06_knots(), c06_threads()),
{
    let knots = vec![
        knot_def("in", KnotKind::signal_in(SignalDomain::Count)),
        knot_def("map", KnotKind::map(ZERO, ONE, from_count(0), from_count(10), SignalDomain::Count)),
        knot_def("out", KnotKind::signal_out("scaled", SignalDomain::Count)),
    ];
    let threads: &[(&str, &str, &str, &str)] = &[("in", "out", "map", "in"), ("map", "out", "out", "in")];
    proof {
        assert(knot_shapes(knots@) =~= c06_knots());
        assert(thread_names(threads@) =~= c06_threads());
    }
    build_weave("c06", knots, threads)
}

/// C06: the endpoints map to 0 and 10.
#[verifier::rlimit(50)]
pub fn run_c06_map_remap() -> (r: Result<(), CookbookError>)
    ensures
        r is Ok,
{
    let w = match c06_map_remap_weave() {
        Ok(w) => w,
        Err(e) => {
            proof {
                let (ks, ts) = choose|ks: Seq<KnotDef>, ts: Seq<ThreadDef>|
                    #![trigger knot_shapes(ks), threads_named(ts, c06_threads())]
                    knot_shapes(ks) == c06_knots() && threads_named(ts, c06_threads()) && structural_fault(
                        "c06"@,
                        NumericPath::spec_compiled(),
                        ks,
                        ts,
                    ) is Some;
                lemma_c06_assembled();
                lemma_c06_valid(ks, ts);
            }
            return Err(CookbookError::Build(e));
        },
    };
    proof {
        lemma_c06_budget(w.spec_knots(), w.spec_threads());
        lemma_c06_knots(w.spec_knots());
    }
    let mut rt = match bind_default(&w) {
        Ok(rt) => rt,
        Err(e) => {
            return Err(CookbookError::Bind(e));
        },
    };
    proof {
        lemma_c06_tables(rt, w, crate::runtime::spec_default_bind_opts());
    }
    let ghost rt0 = rt;
    let i = sense(&rt, "in")?;
    let mut h = ScriptedHost::new();
    let f1 = [(i, ZERO)];
    assert(h.pending().push(f1@)[0] == f1@);
    assert(f1@ == seq![(i, ZERO)]);
    let r1 = tick_senses(&mut h, &mut rt, &f1);
    let ghost rt1 = rt;
    proof {
        lemma_c06_frame(rt0, rt1, i, ZERO, r1);
        assert(h.pending() =~= Seq::<Seq<(SenseId, Signal)>>::empty());
        assert(spec_map(ZERO, ZERO, ONE, 0, 10) == 0);
    }
    handle_step(r1)?;
    expect_value(&rt, "scaled", from_count(0))?;
    let f2 = [(i, ONE)];
    assert(h.pending().push(f2@)[0] == f2@);
    assert(f2@ == seq![(i, ONE)]);
    let r2 = tick_senses(&mut h, &mut rt, &f2);
    proof {
        lemma_c06_frame(rt1, rt, i, ONE, r2);
        assert(spec_map(ONE, ZERO, ONE, 0, 10) == 10);
    }
    handle_step(r2)?;
    expect_value(&rt, "scaled", from_count(10))
}

/// Knots of C07.
pub open spec fn c07_knots() -> Seq<(Seq<char>, KnotShape)> {
    seq![
        ("in"@, KnotShape::Plain(KnotKind::SignalIn { domain: SignalDomain::Level })),
        ("dig"@, KnotShape::Plain(KnotKind::Digitize { domain: SignalDomain::Level, steps: 2, in_min: ZERO, in_max: ONE, out_min: 0, out_max: 1 })),
        ("out"@, KnotShape::Out { path: "bin"@, domain: SignalDomain::Level }),
    ]
}

/// Threads of C07.
pub open spec fn c07_threads() -> Seq<(Seq<char>, Seq<char>, Seq<char>, Seq<char>)> {
    seq![("in"@, "out"@, "dig"@, "in"@), ("dig"@, "out"@, "out"@, "in"@)]
}

/// C07's graph is within the default budget.
proof fn lemma_c07_budget(ks: Seq<KnotDef>, ts: Seq<ThreadDef>)
    requires
        knot_shapes(ks) == c07_knots(),
        threads_named(ts, c07_threads()),
    ensures
        crate::validate::budget_fault(ks, ts, crate::validate::spec_default_budget()) is None,
        crate::runtime::delay_prefix(ks, 3) <= crate::validate::MAX_DENSE,
{
    lemma_c07_valid(ks, ts);
    lemma_c07_knots(ks);
    reveal_with_fuel(crate::validate::scan_fan_out, 3);
    reveal_with_fuel(crate::validate::out_count, 3);
    reveal_with_fuel(crate::validate::scan_depth, 4);
    reveal_with_fuel(crate::runtime::delay_prefix, 4);
    let e = crate::validate::knot_edges(ks, ts);
    let w = crate::validate::delay_weights(ks);
    reveal_strlit("in");
    reveal_strlit("dig");
    reveal_strlit("out");
    reveal_with_fuel(find_knot_from, 4);
    assert("dig"@[0] != "out"@[0]);
    assert(ts.len() == 2);
    assert(find_knot(ks, "in"@) == Some(0int));
    assert(find_knot(ks, "dig"@) == Some(1int));
    assert(find_knot(ks, "out"@) == Some(2int));
    assert(e =~= seq![(0usize, 1usize), (1usize, 2usize)]);
    assert(w =~= seq![0u16, 0, 0]);
    lemma_chain3_depth(e, w, 0, 0);
    lemma_chain3_depth(e, w, 1, 0);
    lemma_chain3_depth(e, w, 2, 0);
    assert(crate::validate::scan_depth(e, w, crate::validate::spec_default_budget(), 0) is None);
}

/// The knots of any weave with C07's shapes, as the kinds they must be.
proof fn lemma_c07_knots(ks: Seq<KnotDef>)
    requires
        knot_shapes(ks) == c07_knots(),
    ensures
        ks.len() == 3,
        ks[0].id@ == "in"@ && ks[1].id@ == "dig"@ && ks[2].id@ == "out"@,
        ks[0].kind == (KnotKind::SignalIn { domain: SignalDomain::Level }),
        ks[1].kind == (KnotKind::Digitize { domain: SignalDomain::Level, steps: 2, in_min: ZERO, in_max: ONE, out_min: 0, out_max: 1 }),
        ks[2].kind matches KnotKind::SignalOut { path, domain } && path@ == "bin"@ && domain == SignalDomain::Level,
{
    assert(knot_shapes(ks).len() == ks.len());
    assert(knot_shapes(ks)[0] == (ks[0].id@, shape_of(ks[0].kind)));
    assert(knot_shapes(ks)[1] == (ks[1].id@, shape_of(ks[1].kind)));
    assert(knot_shapes(ks)[2] == (ks[2].id@, shape_of(ks[2].kind)));
}

/// C07's knots and threads assemble: ids distinct, every thread names
/// known knots and ports of the right direction.
proof fn lemma_c07_assembled()
    ensures
        assembly_fault("c07"@, c07_knots(), c07_threads()) is None,
{
    reveal_strlit("c07");
    reveal_strlit("in");
    reveal_strlit("dig");
    reveal_strlit("out");
    reveal_with_fuel(find_shape_from, 4);
    reveal_with_fuel(crate::catalog::find_port, 3);
    reveal_with_fuel(scan_adds, 4);
    reveal_with_fuel(scan_wires, 3);
    assert("dig"@[0] != "out"@[0]);
    let d = c07_knots();
    assert(d.subrange(0, 1) =~= seq![d[0]]);
    assert(d.subrange(0, 2) =~= seq![d[0], d[1]]);
    assert(d.subrange(0, 0) =~= Seq::<(Seq<char>, KnotShape)>::empty());
    assert(add_fault(d, 0) is None);
    assert(add_fault(d, 1) is None);
    assert(add_fault(d, 2) is None);
    assert(scan_adds(d, 0) is None);
    let names = c07_threads();
    assert(wire_fault(d, names[0]) is None);
    assert(wire_fault(d, names[1]) is None);
    assert(scan_wires(d, names, 0) is None);
}

/// C07's graph is authored and validates: ids distinct, every thread
/// resolves Out to In without fan-in, required inputs fed, no loop, acyclic.
proof fn lemma_c07_valid(ks: Seq<KnotDef>, ts: Seq<ThreadDef>)
    requires
        knot_shapes(ks) == c07_knots(),
        threads_named(ts, c07_threads()),
    ensures
        assembly_fault("c07"@, c07_knots(), c07_threads()) is None,
        structural_fault("c07"@, NumericPath::spec_compiled(), ks, ts) is None,
{
    reveal_strlit("c07");
    reveal_strlit("in");
    reveal_strlit("dig");
    reveal_strlit("out");
    reveal_with_fuel(find_shape_from, 4);
    reveal_with_fuel(find_knot_from, 4);
    reveal_with_fuel(crate::catalog::find_port, 3);
    reveal_with_fuel(crate::validate::scan_knots, 4);
    reveal_with_fuel(crate::validate::scan_threads, 3);
    reveal_with_fuel(crate::validate::scan_required, 4);
    reveal_with_fuel(crate::validate::scan_ports, 3);
    reveal_with_fuel(crate::validate::scan_self, 3);
    reveal_with_fuel(scan_adds, 4);
    reveal_with_fuel(scan_wires, 3);
    lemma_c07_knots(ks);
    assert("dig"@[0] != "out"@[0]);
    let d = c07_knots();
    assert(d.subrange(0, 1) =~= seq![d[0]]);
    assert(d.subrange(0, 2) =~= seq![d[0], d[1]]);
    assert(d.subrange(0, 0) =~= Seq::<(Seq<char>, KnotShape)>::empty());
    assert(add_fault(d, 0) is None);
    assert(add_fault(d, 1) is None);
    assert(add_fault(d, 2) is None);
    assert(scan_adds(d, 0) is None);
    let names = c07_threads();
    assert(wire_fault(d, names[0]) is None);
    assert(wire_fault(d, names[1]) is None);
    assert(scan_wires(d, names, 0) is None);
    assert(ts.len() == 2);
    assert(ts[0].from.knot@ == "in"@ && ts[0].from.port@ == "out"@ && ts[0].to.knot@ == "dig"@ && ts[0].to.port@ == "in"@);
    assert(ts[1].from.knot@ == "dig"@ && ts[1].from.port@ == "out"@ && ts[1].to.knot@ == "out"@ && ts[1].to.port@ == "in"@);
    assert(find_knot(ks, "in"@) == Some(0int));
    assert(find_knot(ks, "dig"@) == Some(1int));
    assert(find_knot(ks, "out"@) == Some(2int));
    assert(crate::validate::knot_fault(ks, 0) is None);
    assert(crate::validate::knot_fault(ks, 1) is None);
    assert(crate::validate::knot_fault(ks, 2) is None);
    assert(crate::validate::scan_knots(ks, 0) is None);
    assert(crate::validate::target_of(ks, ts[0]) == Some((1int, 0int)));
    assert(crate::validate::target_of(ks, ts[1]) == Some((2int, 0int)));
    assert(!crate::validate::earlier_same_target(ks, ts, 0));
    assert(!crate::validate::earlier_same_target(ks, ts, 1));
    assert(crate::validate::thread_fault(ks, ts, 0) is None);
    assert(crate::validate::thread_fault(ks, ts, 1) is None);
    assert(crate::validate::scan_threads(ks, ts, 0) is None);
    assert(crate::validate::wired(ks, ts, 1, 0));
    assert(crate::validate::wired(ks, ts, 2, 0));
    assert(crate::validate::scan_ports(ks, ts, Seq::empty(), 0, 0) is None);
    assert(crate::validate::scan_ports(ks, ts, Seq::empty(), 1, 0) is None);
    assert(crate::validate::scan_ports(ks, ts, Seq::empty(), 2, 0) is None);
    assert(crate::validate::scan_required(ks, ts, Seq::empty(), 0) is None);
    assert(crate::validate::scan_self(ks, ts, 0) is None);
    let e = crate::validate::knot_edges(ks, ts);
    assert(e[0] == (0usize, 1usize) && e[1] == (1usize, 2usize));
    assert(crate::graph::is_rank(3, e, seq![0int, 1, 2]));
}

/// One settle of C07's tables: the sensed value, remapped by the plan of
/// `dig`, is sampled on `bin`.
proof fn lemma_c07_settle(t: Tables, senses: Seq<Signal>, d: Dyn, plan: DigitizePlan)
    requires
        t.tags.len() == 3,
        t.tags[0] is Sense,
        t.tags[1] == (KindTag::Digitize { plan }),
        t.tags[2] is SignalOut,
        t.topo == seq![0u16, 1, 2],
        t.inbound.len() == 3,
        t.inbound[1]@ == seq![(0u16, 0u8, 0u8)],
        t.inbound[2]@ == seq![(1u16, 1u8, 0u8)],
        t.clear_mask.len() == 24,
        forall|i: int| 0 <= i < 24 ==> !#[trigger] t.clear_mask[i],
        t.sense_seeds == seq![SenseSeed::SignalIn { kid: 0 }],
        t.knot_path.len() == 3,
        t.knot_path[2] == 0,
        d.ports.len() == 24,
        senses.len() == 3,
    ensures
        settle(t, senses, d).out_signals == d.out_signals.push(
            SignalOutSample { path: HostPathId { owner: t.owner, index: 0 }, value: plan.spec_apply(senses[0]) },
        ),
{
    let cleared = Dyn { ports: clear_ports(d.ports, t.clear_mask, t.clear_mask.len() as int), ..d };
    assert(cleared.ports =~= d.ports);
    reveal_with_fuel(seeded, 2);
    let s0 = seeded(t, senses, cleared, 1);
    assert(s0.ports == d.ports.update(0, senses[0]));
    assert(s0.out_signals == d.out_signals);
    reveal_with_fuel(evaluated, 4);
    let e1 = evaluated(t, s0, 1);
    assert(e1 == s0);
    let g1 = gather_dyn(t, e1, 1);
    reveal_with_fuel(gather_ports, 2);
    assert(g1.ports == s0.ports.update(8, s0.ports[0]));
    let e2 = evaluated(t, s0, 2);
    assert(e2 == eval_dyn(t, g1, 1));
    let p1 = knot_ports(g1.ports, 1);
    assert(p1[0] == senses[0]);
    assert(e2.ports[9] == plan.spec_apply(senses[0]));
    assert(e2.ports.len() == 24);
    assert(e2.out_signals == d.out_signals);
    let g2 = gather_dyn(t, e2, 2);
    assert(g2.ports == e2.ports.update(16, e2.ports[9]));
    let e3 = evaluated(t, s0, 3);
    assert(e3 == eval_dyn(t, g2, 2));
    assert(knot_ports(g2.ports, 2)[0] == plan.spec_apply(senses[0]));
}

/// A runtime of C07: its tables, its one host path `bin` and its sense
/// `in`.
spec fn c07_shaped(rt: Runtime) -> bool {
    let t = crate::settle::tables_of(rt);
    &&& rt.wf()
    &&& t.tags.len() == 3
    &&& t.tags[0] is Sense
    &&& t.tags[1] matches KindTag::Digitize { plan } && forall|i: i32| #[trigger] plan.spec_apply(i) == spec_digitize(i, 2, ZERO, ONE, 0, 1)
    &&& t.tags[2] is SignalOut
    &&& t.topo == seq![0u16, 1, 2]
    &&& t.inbound.len() == 3
    &&& t.inbound[1]@ == seq![(0u16, 0u8, 0u8)]
    &&& t.inbound[2]@ == seq![(1u16, 1u8, 0u8)]
    &&& t.clear_mask.len() == 24
    &&& forall|i: int| 0 <= i < 24 ==> !#[trigger] t.clear_mask[i]
    &&& t.sense_seeds == seq![SenseSeed::SignalIn { kid: 0 }]
    &&& t.knot_path.len() == 3
    &&& t.knot_path[2] == 0
    &&& t.owner == rt.spec_owner()
    &&& crate::validate::names_view(rt.spec_path_names()) == seq!["bin"@]
    &&& rt.spec_knots().len() == 3
    &&& find_knot(rt.spec_knots(), "in"@) == Some(0int)
    &&& rt.spec_knots()[0].kind == (KnotKind::SignalIn { domain: SignalDomain::Level })
}

/// The tables of every bind of a weave with C07's knots and threads.
proof fn lemma_c07_tables(rt: Runtime, w: Weave, opts: crate::runtime::BindOpts)
    requires
        crate::runtime::bound_from(rt, w, opts),
        knot_shapes(w.spec_knots()) == c07_knots(),
        threads_named(w.spec_threads(), c07_threads()),
    ensures
        c07_shaped(rt),
{
    let ks = w.spec_knots();
    let ts = w.spec_threads();
    lemma_c07_knots(ks);
    lemma_c07_valid(ks, ts);
    reveal_strlit("in");
    reveal_strlit("dig");
    reveal_strlit("out");
    reveal_strlit("bin");
    reveal_with_fuel(find_knot_from, 4);
    assert("dig"@[0] != "out"@[0]);
    assert(find_knot(ks, "in"@) == Some(0int));
    assert(find_knot(ks, "dig"@) == Some(1int));
    assert(find_knot(ks, "out"@) == Some(2int));
    let th = rt.spec_threads();
    assert(ts.len() == 2);
    reveal_with_fuel(crate::catalog::find_port, 3);
    assert("in"@[0] != "out"@[0]);
    assert(crate::catalog::find_port(crate::catalog::port_table(ks[1].kind), "out"@) == Some(1int));
    assert(crate::catalog::find_port(crate::catalog::port_table(ks[1].kind), "in"@) == Some(0int));
    assert(crate::catalog::find_port(crate::catalog::port_table(ks[2].kind), "in"@) == Some(0int));
    assert(crate::runtime::thread_resolved(ks, ts[0], th[0]));
    assert(crate::runtime::thread_resolved(ks, ts[1], th[1]));
    assert(th[0] == (0u16, 0u8, 1u16, 0u8));
    assert(th[1] == (1u16, 1u8, 2u16, 0u8));
    reveal_with_fuel(crate::runtime::into_prefix, 3);
    assert(rt.inbound@[1]@ =~= seq![(0u16, 0u8, 0u8)]);
    assert(rt.inbound@[2]@ =~= seq![(1u16, 1u8, 0u8)]);
    assert(rt.inbound@[0]@ =~= Seq::<(u16, u8, u8)>::empty());
    // Tags.
    assert(crate::runtime::tag_refines(rt.tags@[1], ks[1].kind, rt.inbound@[1]@));
    assert(rt.tags@[0] is Sense);
    assert(rt.tags@[2] is SignalOut);
    // The order: three distinct knots, each thread forward.
    let tp = rt.topo@;
    assert(tp.len() == 3);
    assert(tp[0] < 3 && tp[1] < 3 && tp[2] < 3);
    assert(tp[0] != tp[1] && tp[0] != tp[2] && tp[1] != tp[2]);
    assert(th[0].0 != th[0].2 && th[1].0 != th[1].2);
    assert(tp =~= seq![0u16, 1, 2]);
    // Seeds: only knot 0 is seeded.
    let sd = rt.sense_seeds@;
    assert(crate::runtime::seeds_match(sd, ks));
    assert forall|j: int| 0 <= j < sd.len() implies (#[trigger] sd[j]).kid() == 0 by {
        assert(sd[j].kid() < 3);
    }
    let j0 = choose|j: int| 0 <= j < sd.len() && #[trigger] sd[j].kid() == 0;
    if sd.len() > 1 {
        assert(sd[0].kid() < sd[1].kid());
    }
    assert(sd.len() == 1);
    assert(sd[0] == SenseSeed::SignalIn { kid: 0 });
    assert(sd =~= seq![SenseSeed::SignalIn { kid: 0 }]);
    // No input is left unwired.
    let iv = rt.inbound@.map_values(|v: Vec<(u16, u8, u8)>| v@);
    assert(iv[1] == seq![(0u16, 0u8, 0u8)]);
    assert(iv[2] == seq![(1u16, 1u8, 0u8)]);
    assert(iv[1][0].2 == 0 && iv[2][0].2 == 0);
    assert(crate::runtime::wired_slot(iv[1], 0));
    assert(crate::runtime::wired_slot(iv[2], 0));
    assert forall|i: int| 0 <= i < 24 implies !#[trigger] rt.clear_mask@[i] by {
        let k = i / 8;
        let q = i % 8;
        assert(i == crate::runtime::port_index(k, q));
        assert(!crate::runtime::clear_slot(ks, iv, k, q));
    }
    // Paths: only "bin".
    reveal_with_fuel(crate::runtime::paths_seen, 4);
    assert(crate::runtime::paths_seen(ks, 3) =~= seq!["bin"@]);
    assert(rt.knot_path@[2] < rt.path_names@.len());
}

/// One C07 frame writing `v` to the sense `in`: it is accepted and the
/// remapped value is sampled on `bin`.
proof fn lemma_c07_frame(before: Runtime, after: Runtime, id: SenseId, v: Signal, r: Result<(), HandleError>)
    requires
        c07_shaped(before),
        after.wf(),
        after.same_tables(&before),
        id.spec_owner() == before.spec_owner(),
        id.spec_index() == 0,
        crate::host::frame_ran(before, seq![(id, v)], r, after),
    ensures
        r is Ok,
        c07_shaped(after),
        crate::cookbook::helpers::signal_out_of(after, "bin"@) == Some(spec_digitize(v, 2, ZERO, ONE, 0, 1)),
{
    let senses = seq![(id, v)];
    assert(crate::host::write_ok(before, senses[0].0, senses[0].1));
    assert(crate::settle::tables_of(after) == crate::settle::tables_of(before));
    assert(after.spec_path_names() == before.spec_path_names());
    assert(after.spec_knots() == before.spec_knots());
    let sv = after.spec_sense_values();
    assert(sv == crate::host::senses_after(before.spec_sense_values(), senses, 1));
    reveal_with_fuel(crate::host::senses_after, 2);
    assert(sv == before.spec_sense_values().update(0, v));
    assert(sv[0] == v && sv.len() == 3);
    let plan = before.tags@[1]->Digitize_plan;
    let d = crate::settle::frame_start(crate::settle::dyn_of(before));
    lemma_c07_settle(crate::settle::tables_of(before), sv, d, plan);
    assert(plan.spec_apply(v) == spec_digitize(v, 2, ZERO, ONE, 0, 1));
    assert(after.out_signals@ == seq![SignalOutSample { path: HostPathId { owner: before.spec_owner(), index: 0 }, value: spec_digitize(v, 2, ZERO, ONE, 0, 1) }]);
    let names = after.spec_path_names();
    assert(crate::validate::names_view(names).len() == 1);
    assert(names.len() == 1);
    assert(names[0]@ == crate::validate::names_view(names)[0]);
    reveal_with_fuel(crate::runtime::find_name_from, 2);
    assert(crate::runtime::find_name(names, "bin"@) == Some(0int));
    assert(crate::cookbook::helpers::path_handle(after, "bin"@) == Some(HostPathId { owner: before.spec_owner(), index: 0 }));
    reveal_with_fuel(crate::cookbook::helpers::sample_of, 2);
}

/// Topology of C07: a level digitized into two bins.
pub fn c07_digitize_steps_weave() -> (r: Result<Weave, BuildError>)
    ensures
        weave_built(r, "c07"@, c07_knots(), c07_threads()),
{
    let knots = vec![
        knot_def("in", KnotKind::signal_in(SignalDomain::Level)),
        knot_def("dig", KnotKind::Digitize { domain: SignalDomain::Level, steps: 2, in_min: ZERO, in_max: ONE, out_min: from_count(0), out_max: from_count(1), }),
        knot_def("out", KnotKind::signal_out("bin", SignalDomain::Level)),
    ];
    let threads: &[(&str, &str, &str, &str)] = &[("in", "out", "dig", "in"), ("dig", "out", "out", "in")];
    proof {
        assert(knot_shapes(knots@) =~= c07_knots());
        assert(thread_names(threads@) =~= c07_threads());
    }
    build_weave("c07", knots, threads)
}

/// C07: the endpoints fall into the first and last bin.
#[verifier::rlimit(50)]
pub fn run_c07_digitize_steps() -> (r: Result<(), CookbookError>)
    ensures
        r is Ok,
{
    let w = match c07_digitize_steps_weave() {
        Ok(w) => w,
        Err(e) => {
            proof {
                let (ks, ts) = choose|ks: Seq<KnotDef>, ts: Seq<ThreadDef>|
                    #![trigger knot_shapes(ks), threads_named(ts, c07_threads())]
                    knot_shapes(ks) == c07_knots() && threads_named(ts, c07_threads()) && structural_fault(
                        "c07"@,
                        NumericPath::spec_compiled(),
                        ks,
                        ts,
                    ) is Some;
                lemma_c07_assembled();
                lemma_c07_valid(ks, ts);
            }
            return Err(CookbookError::Build(e));
        },
    };
    proof {
        lemma_c07_budget(w.spec_knots(), w.spec_threads());
        lemma_c07_knots(w.spec_knots());
    }
    let mut rt = match bind_default(&w) {
        Ok(rt) => rt,
        Err(e) => {
            return Err(CookbookError::Bind(e));
        },
    };
    proof {
        lemma_c07_tables(rt, w, crate::runtime::spec_default_bind_opts());
    }
    let ghost rt0 = rt;
    let i = sense(&rt, "in")?;
    let mut h = ScriptedHost::new();
    let f1 = [(i, ZERO)];
    assert(h.pending().push(f1@)[0] == f1@);
    assert(f1@ == seq![(i, ZERO)]);
    let r1 = tick_senses(&mut h, &mut rt, &f1);
    let ghost rt1 = rt;
    proof {
        lemma_c07_frame(rt0, rt1, i, ZERO, r1);
        assert(h.pending() =~= Seq::<Seq<(SenseId, Signal)>>::empty());
        assert(spec_digitize(ZERO, 2, ZERO, ONE, 0, 1) == 0);
    }
    handle_step(r1)?;
    expect_value(&rt, "bin", from_count(0))?;
    let f2 = [(i, ONE)];
    assert(h.pending().push(f2@)[0] == f2@);
    assert(f2@ == seq![(i, ONE)]);
    let r2 = tick_senses(&mut h, &mut rt, &f2);
    proof {
        lemma_c07_frame(rt1, rt, i, ONE, r2);
        assert(spec_digitize(ONE, 2, ZERO, ONE, 0, 1) == 1);
    }
    handle_step(r2)?;
    expect_value(&rt, "bin", from_count(1))
}

/// Knots of C08.
pub open spec fn c08_knots() -> Seq<(Seq<char>, KnotShape)> {
    seq![
        ("start"@, KnotShape::Plain(KnotKind::OnStart)),
        ("flag"@, KnotShape::Plain(KnotKind::Flag { priority: FlagPriority::SetWins, enable_toggle: false })),
        ("out"@, KnotShape::Out { path: "booted"@, domain: SignalDomain::Bool }),
    ]
}

/// Threads of C08.
pub open spec fn c08_threads() -> Seq<(Seq<char>, Seq<char>, Seq<char>, Seq<char>)> {
    seq![("start"@, "out"@, "flag"@, "set"@), ("flag"@, "out"@, "out"@, "in"@)]
}

/// C08's graph is within the default budget.
proof fn lemma_c08_budget(ks: Seq<KnotDef>, ts: Seq<ThreadDef>)
    requires
        knot_shapes(ks) == c08_knots(),
        threads_named(ts, c08_threads()),
    ensures
        crate::validate::budget_fault(ks, ts, crate::validate::spec_default_budget()) is None,
        crate::runtime::delay_prefix(ks, 3) <= crate::validate::MAX_DENSE,
{
    lemma_c08_valid(ks, ts);
    lemma_c08_knots(ks);
    reveal_with_fuel(crate::validate::scan_fan_out, 3);
    reveal_with_fuel(crate::validate::out_count, 3);
    reveal_with_fuel(crate::validate::scan_depth, 4);
    reveal_with_fuel(crate::runtime::delay_prefix, 4);
    let e = crate::validate::knot_edges(ks, ts);
    let w = crate::validate::delay_weights(ks);
    reveal_strlit("in");
    reveal_strlit("flag");
    reveal_strlit("start");
    reveal_strlit("set");
    reveal_strlit("reset");
    reveal_strlit("toggle");
    reveal_strlit("out");
    reveal_with_fuel(find_knot_from, 4);
    assert("flag"@[0] != "out"@[0] && "set"@[0] != "out"@[0] && "reset"@[0] != "out"@[0] && "toggle"@[0] != "out"@[0] && "start"@[0] != "out"@[0]);
    assert(ts.len() == 2);
    assert(find_knot(ks, "start"@) == Some(0int));
    assert(find_knot(ks, "flag"@) == Some(1int));
    assert(find_knot(ks, "out"@) == Some(2int));
    assert(e =~= seq![(0usize, 1usize), (1usize, 2usize)]);
    assert(w =~= seq![0u16, 0, 0]);
    lemma_chain3_depth(e, w, 0, 0);
    lemma_chain3_depth(e, w, 1, 0);
    lemma_chain3_depth(e, w, 2, 0);
    assert(crate::validate::scan_depth(e, w, crate::validate::spec_default_budget(), 0) is None);
}

/// The knots of any weave with C08's shapes, as the kinds they must be.
proof fn lemma_c08_knots(ks: Seq<KnotDef>)
    requires
        knot_shapes(ks) == c08_knots(),
    ensures
        ks.len() == 3,
        ks[0].id@ == "start"@ && ks[1].id@ == "flag"@ && ks[2].id@ == "out"@,
        ks[0].kind == KnotKind::OnStart,
        ks[1].kind == (KnotKind::Flag { priority: FlagPriority::SetWins, enable_toggle: false }),
        ks[2].kind matches KnotKind::SignalOut { path, domain } && path@ == "booted"@ && domain == SignalDomain::Bool,
{
    assert(knot_shapes(ks).len() == ks.len());
    assert(knot_shapes(ks)[0] == (ks[0].id@, shape_of(ks[0].kind)));
    assert(knot_shapes(ks)[1] == (ks[1].id@, shape_of(ks[1].kind)));
    assert(knot_shapes(ks)[2] == (ks[2].id@, shape_of(ks[2].kind)));
}

/// C08's knots and threads assemble: ids distinct, every thread names
/// known knots and ports of the right direction.
proof fn lemma_c08_assembled()
    ensures
        assembly_fault("c08"@, c08_knots(), c08_threads()) is None,
{
    reveal_strlit("c08");
    reveal_strlit("in");
    reveal_strlit("flag");
    reveal_strlit("start");
    reveal_strlit("set");
    reveal_strlit("reset");
    reveal_strlit("toggle");
    reveal_strlit("out");
    reveal_with_fuel(find_shape_from, 4);
    reveal_with_fuel(crate::catalog::find_port, 5);
    reveal_with_fuel(scan_adds, 4);
    reveal_with_fuel(scan_wires, 3);
    assert("flag"@[0] != "out"@[0] && "set"@[0] != "out"@[0] && "reset"@[0] != "out"@[0] && "toggle"@[0] != "out"@[0] && "start"@[0] != "out"@[0]);
    let d = c08_knots();
    assert(d.subrange(0, 1) =~= seq![d[0]]);
    assert(d.subrange(0, 2) =~= seq![d[0], d[1]]);
    assert(d.subrange(0, 0) =~= Seq::<(Seq<char>, KnotShape)>::empty());
    assert(add_fault(d, 0) is None);
    assert(add_fault(d, 1) is None);
    assert(add_fault(d, 2) is None);
    assert(scan_adds(d, 0) is None);
    let names = c08_threads();
    assert(wire_fault(d, names[0]) is None);
    assert(wire_fault(d, names[1]) is None);
    assert(scan_wires(d, names, 0) is None);
}

/// C08's graph is authored and validates: ids distinct, every thread
/// resolves Out to In without fan-in, required inputs fed, no loop, acyclic.
proof fn lemma_c08_valid(ks: Seq<KnotDef>, ts: Seq<ThreadDef>)
    requires
        knot_shapes(ks) == c08_knots(),
        threads_named(ts, c08_threads()),
    ensures
        assembly_fault("c08"@, c08_knots(), c08_threads()) is None,
        structural_fault("c08"@, NumericPath::spec_compiled(), ks, ts) is None,
{
    reveal_strlit("c08");
    reveal_strlit("in");
    reveal_strlit("flag");
    reveal_strlit("start");
    reveal_strlit("set");
    reveal_strlit("reset");
    reveal_strlit("toggle");
    reveal_strlit("out");
    reveal_with_fuel(find_shape_from, 4);
    reveal_with_fuel(find_knot_from, 4);
    reveal_with_fuel(crate::catalog::find_port, 5);
    reveal_with_fuel(crate::validate::scan_knots, 4);
    reveal_with_fuel(crate::validate::scan_threads, 3);
    reveal_with_fuel(crate::validate::scan_required, 4);
    reveal_with_fuel(crate::validate::scan_ports, 5);
    reveal_with_fuel(crate::validate::scan_self, 3);
    reveal_with_fuel(scan_adds, 4);
    reveal_with_fuel(scan_wires, 3);
    lemma_c08_knots(ks);
    assert("flag"@[0] != "out"@[0] && "set"@[0] != "out"@[0] && "reset"@[0] != "out"@[0] && "toggle"@[0] != "out"@[0] && "start"@[0] != "out"@[0]);
    let d = c08_knots();
    assert(d.subrange(0, 1) =~= seq![d[0]]);
    assert(d.subrange(0, 2) =~= seq![d[0], d[1]]);
    assert(d.subrange(0, 0) =~= Seq::<(Seq<char>, KnotShape)>::empty());
    assert(add_fault(d, 0) is None);
    assert(add_fault(d, 1) is None);
    assert(add_fault(d, 2) is None);
    assert(scan_adds(d, 0) is None);
    let names = c08_threads();
    assert(wire_fault(d, names[0]) is None);
    assert(wire_fault(d, names[1]) is None);
    assert(scan_wires(d, names, 0) is None);
    assert(ts.len() == 2);
    assert(ts[0].from.knot@ == "start"@ && ts[0].from.port@ == "out"@ && ts[0].to.knot@ == "flag"@ && ts[0].to.port@ == "set"@);
    assert(ts[1].from.knot@ == "flag"@ && ts[1].from.port@ == "out"@ && ts[1].to.knot@ == "out"@ && ts[1].to.port@ == "in"@);
    assert(find_knot(ks, "start"@) == Some(0int));
    assert(find_knot(ks, "flag"@) == Some(1int));
    assert(find_knot(ks, "out"@) == Some(2int));
    assert(crate::validate::knot_fault(ks, 0) is None);
    assert(crate::validate::knot_fault(ks, 1) is None);
    assert(crate::validate::knot_fault(ks, 2) is None);
    assert(crate::validate::scan_knots(ks, 0) is None);
    assert(crate::validate::target_of(ks, ts[0]) == Some((1int, 0int)));
    assert(crate::validate::target_of(ks, ts[1]) == Some((2int, 0int)));
    assert(!crate::validate::earlier_same_target(ks, ts, 0));
    assert(!crate::validate::earlier_same_target(ks, ts, 1));
    assert(crate::validate::thread_fault(ks, ts, 0) is None);
    assert(crate::validate::thread_fault(ks, ts, 1) is None);
    assert(crate::validate::scan_threads(ks, ts, 0) is None);
    assert(crate::validate::wired(ks, ts, 1, 0));
    assert(crate::validate::wired(ks, ts, 2, 0));
    assert(crate::validate::scan_ports(ks, ts, Seq::empty(), 0, 0) is None);
    assert(crate::validate::scan_ports(ks, ts, Seq::empty(), 1, 0) is None);
    assert(crate::validate::scan_ports(ks, ts, Seq::empty(), 2, 0) is None);
    assert(crate::validate::scan_required(ks, ts, Seq::empty(), 0) is None);
    assert(crate::validate::scan_self(ks, ts, 0) is None);
    let e = crate::validate::knot_edges(ks, ts);
    assert(e[0] == (0usize, 1usize) && e[1] == (1usize, 2usize));
    assert(crate::graph::is_rank(3, e, seq![0int, 1, 2]));
}

/// The flag of C08 after a frame: set by the start pulse (while `OnStart`
/// has not fired yet), never reset or toggled, else kept.
spec fn c08_flag(done: bool, flag: bool) -> bool {
    flag_next(FlagPriority::SetWins, !done, false, false, flag)
}

/// One settle of C08's tables: the start pulse feeds the set input, the
/// unwired reset and toggle read zero, and the flag is sampled on `booted`.
proof fn lemma_c08_settle(t: Tables, senses: Seq<Signal>, d: Dyn)
    requires
        t.tags.len() == 3,
        t.tags[0] is Sense,
        t.tags[1] == (KindTag::Flag { priority: FlagPriority::SetWins, enable_toggle: false }),
        t.tags[2] is SignalOut,
        t.topo == seq![0u16, 1, 2],
        t.inbound.len() == 3,
        t.inbound[1]@ == seq![(0u16, 0u8, 0u8)],
        t.inbound[2]@ == seq![(1u16, 3u8, 0u8)],
        t.clear_mask.len() == 24,
        t.clear_mask[9] && t.clear_mask[10],
        t.sense_seeds == seq![SenseSeed::OnStart { kid: 0 }],
        t.knot_path.len() == 3,
        t.knot_path[2] == 0,
        d.ports.len() == 24,
        d.flag.len() == 3,
        d.on_start_done.len() == 3,
    ensures
        ({
            let r = settle(t, senses, d);
            let f = c08_flag(d.on_start_done[0], d.flag[1]);
            &&& r.out_signals == d.out_signals.push(
                SignalOutSample { path: HostPathId { owner: t.owner, index: 0 }, value: bool_signal(f) },
            )
            &&& r.flag == d.flag.update(1, f)
            &&& r.on_start_done == d.on_start_done.update(0, true)
        }),
{
    let cleared = Dyn { ports: clear_ports(d.ports, t.clear_mask, t.clear_mask.len() as int), ..d };
    assert(cleared.ports.len() == 24 && cleared.ports[9] == ZERO && cleared.ports[10] == ZERO);
    reveal_with_fuel(seeded, 2);
    let s0 = seeded(t, senses, cleared, 1);
    let pulse = if d.on_start_done[0] { ZERO } else { ONE };
    assert(s0.ports == cleared.ports.update(0, pulse));
    assert(s0.out_signals == d.out_signals && s0.flag == d.flag && s0.on_start_done == d.on_start_done.update(0, true));
    reveal_with_fuel(evaluated, 4);
    let e1 = evaluated(t, s0, 1);
    assert(e1 == s0);
    let g1 = gather_dyn(t, e1, 1);
    reveal_with_fuel(gather_ports, 2);
    assert(g1.ports == s0.ports.update(8, s0.ports[0]));
    let e2 = evaluated(t, s0, 2);
    assert(e2 == eval_dyn(t, g1, 1));
    let p1 = knot_ports(g1.ports, 1);
    assert(p1[0] == pulse && p1[1] == ZERO && p1[2] == ZERO);
    let f = c08_flag(d.on_start_done[0], d.flag[1]);
    assert(e2.ports[11] == bool_signal(f));
    assert(e2.ports.len() == 24);
    assert(e2.out_signals == d.out_signals);
    assert(e2.flag == d.flag.update(1, f));
    let g2 = gather_dyn(t, e2, 2);
    assert(g2.ports == e2.ports.update(16, e2.ports[11]));
    let e3 = evaluated(t, s0, 3);
    assert(e3 == eval_dyn(t, g2, 2));
    assert(knot_ports(g2.ports, 2)[0] == bool_signal(f));
}

/// A runtime of C08: its tables and its one host path `booted`.
spec fn c08_shaped(rt: Runtime) -> bool {
    let t = crate::settle::tables_of(rt);
    &&& rt.wf()
    &&& t.tags.len() == 3
    &&& t.tags[0] is Sense
    &&& t.tags[1] == (KindTag::Flag { priority: FlagPriority::SetWins, enable_toggle: false })
    &&& t.tags[2] is SignalOut
    &&& t.topo == seq![0u16, 1, 2]
    &&& t.inbound.len() == 3
    &&& t.inbound[1]@ == seq![(0u16, 0u8, 0u8)]
    &&& t.inbound[2]@ == seq![(1u16, 3u8, 0u8)]
    &&& t.clear_mask.len() == 24
    &&& t.clear_mask[9] && t.clear_mask[10]
    &&& t.sense_seeds == seq![SenseSeed::OnStart { kid: 0 }]
    &&& t.knot_path.len() == 3
    &&& t.knot_path[2] == 0
    &&& t.owner == rt.spec_owner()
    &&& crate::validate::names_view(rt.spec_path_names()) == seq!["booted"@]
    &&& rt.spec_knots().len() == 3
}

/// The tables of every bind of a weave with C08's knots and threads.
proof fn lemma_c08_tables(rt: Runtime, w: Weave, opts: crate::runtime::BindOpts)
    requires
        crate::runtime::bound_from(rt, w, opts),
        knot_shapes(w.spec_knots()) == c08_knots(),
        threads_named(w.spec_threads(), c08_threads()),
    ensures
        c08_shaped(rt),
{
    let ks = w.spec_knots();
    let ts = w.spec_threads();
    lemma_c08_knots(ks);
    lemma_c08_valid(ks, ts);
    reveal_strlit("in");
    reveal_strlit("flag");
    reveal_strlit("start");
    reveal_strlit("set");
    reveal_strlit("reset");
    reveal_strlit("toggle");
    reveal_strlit("out");
    reveal_strlit("booted");
    reveal_with_fuel(find_knot_from, 4);
    assert("flag"@[0] != "out"@[0] && "set"@[0] != "out"@[0] && "reset"@[0] != "out"@[0] && "toggle"@[0] != "out"@[0] && "start"@[0] != "out"@[0]);
    assert(find_knot(ks, "start"@) == Some(0int));
    assert(find_knot(ks, "flag"@) == Some(1int));
    assert(find_knot(ks, "out"@) == Some(2int));
    let th = rt.spec_threads();
    assert(ts.len() == 2);
    reveal_with_fuel(crate::catalog::find_port, 5);
    assert("in"@[0] != "out"@[0]);
    assert(crate::catalog::find_port(crate::catalog::port_table(ks[1].kind), "out"@) == Some(3int));
    assert(crate::catalog::find_port(crate::catalog::port_table(ks[1].kind), "set"@) == Some(0int));
    assert(crate::catalog::find_port(crate::catalog::port_table(ks[2].kind), "in"@) == Some(0int));
    assert(crate::runtime::thread_resolved(ks, ts[0], th[0]));
    assert(crate::runtime::thread_resolved(ks, ts[1], th[1]));
    assert(th[0] == (0u16, 0u8, 1u16, 0u8));
    assert(th[1] == (1u16, 3u8, 2u16, 0u8));
    reveal_with_fuel(crate::runtime::into_prefix, 3);
    assert(rt.inbound@[1]@ =~= seq![(0u16, 0u8, 0u8)]);
    assert(rt.inbound@[2]@ =~= seq![(1u16, 3u8, 0u8)]);
    assert(rt.inbound@[0]@ =~= Seq::<(u16, u8, u8)>::empty());
    // Tags.
    assert(crate::runtime::tag_refines(rt.tags@[1], ks[1].kind, rt.inbound@[1]@));
    assert(rt.tags@[0] is Sense);
    assert(rt.tags@[2] is SignalOut);
    // The order: three distinct knots, each thread forward.
    let tp = rt.topo@;
    assert(tp.len() == 3);
    assert(tp[0] < 3 && tp[1] < 3 && tp[2] < 3);
    assert(tp[0] != tp[1] && tp[0] != tp[2] && tp[1] != tp[2]);
    assert(th[0].0 != th[0].2 && th[1].0 != th[1].2);
    assert(tp =~= seq![0u16, 1, 2]);
    // Seeds: only knot 0 is seeded.
    let sd = rt.sense_seeds@;
    assert(crate::runtime::seeds_match(sd, ks));
    assert forall|j: int| 0 <= j < sd.len() implies (#[trigger] sd[j]).kid() == 0 by {
        assert(sd[j].kid() < 3);
    }
    let j0 = choose|j: int| 0 <= j < sd.len() && #[trigger] sd[j].kid() == 0;
    if sd.len() > 1 {
        assert(sd[0].kid() < sd[1].kid());
    }
    assert(sd.len() == 1);
    assert(sd[0] == SenseSeed::OnStart { kid: 0 });
    assert(sd =~= seq![SenseSeed::OnStart { kid: 0 }]);
    // No input is left unwired.
    let iv = rt.inbound@.map_values(|v: Vec<(u16, u8, u8)>| v@);
    assert(iv[1] == seq![(0u16, 0u8, 0u8)]);
    assert(iv[2] == seq![(1u16, 3u8, 0u8)]);
    assert(iv[1][0].2 == 0 && iv[2][0].2 == 0);
    assert(crate::runtime::wired_slot(iv[1], 0));
    assert(crate::runtime::wired_slot(iv[2], 0));
    assert forall|j: int| 0 <= j < iv[1].len() implies (#[trigger] iv[1][j]).2 != 1 && iv[1][j].2 != 2 by {}
    assert(crate::runtime::clear_slot(ks, iv, 1, 1));
    assert(crate::runtime::clear_slot(ks, iv, 1, 2));
    assert(crate::runtime::port_index(1, 1) == 9 && crate::runtime::port_index(1, 2) == 10);
    assert(rt.clear_mask@[crate::runtime::port_index(1, 1)]);
    assert(rt.clear_mask@[crate::runtime::port_index(1, 2)]);
    // Paths: only "booted".
    reveal_with_fuel(crate::runtime::paths_seen, 4);
    assert(crate::runtime::paths_seen(ks, 3) =~= seq!["booted"@]);
    assert(rt.knot_path@[2] < rt.path_names@.len());
}

/// One C08 frame with no sense writes: the start pulse (first frame only)
/// sets the flag, which is sampled on `booted`.
proof fn lemma_c08_frame(before: Runtime, after: Runtime, r: Result<(), HandleError>)
    requires
        c08_shaped(before),
        after.wf(),
        after.same_tables(&before),
        crate::host::frame_ran(before, Seq::<(SenseId, Signal)>::empty(), r, after),
    ensures
        r is Ok,
        c08_shaped(after),
        after.on_start_done@[0],
        after.flag@[1] == c08_flag(before.on_start_done@[0], before.flag@[1]),
        crate::cookbook::helpers::signal_out_of(after, "booted"@) == Some(bool_signal(c08_flag(before.on_start_done@[0], before.flag@[1]))),
{
    assert(crate::settle::tables_of(after) == crate::settle::tables_of(before));
    assert(after.spec_path_names() == before.spec_path_names());
    assert(after.spec_knots() == before.spec_knots());
    let sv = after.spec_sense_values();
    let d = crate::settle::frame_start(crate::settle::dyn_of(before));
    lemma_c08_settle(crate::settle::tables_of(before), sv, d);
    let f = c08_flag(before.on_start_done@[0], before.flag@[1]);
    assert(after.out_signals@ == seq![SignalOutSample { path: HostPathId { owner: before.spec_owner(), index: 0 }, value: bool_signal(f) }]);
    let names = after.spec_path_names();
    assert(crate::validate::names_view(names).len() == 1);
    assert(names.len() == 1);
    assert(names[0]@ == crate::validate::names_view(names)[0]);
    reveal_with_fuel(crate::runtime::find_name_from, 2);
    assert(crate::runtime::find_name(names, "booted"@) == Some(0int));
    assert(crate::cookbook::helpers::path_handle(after, "booted"@) == Some(HostPathId { owner: before.spec_owner(), index: 0 }));
    reveal_with_fuel(crate::cookbook::helpers::sample_of, 2);
}

/// Topology of C08: `OnStart` sets a flag once.
pub fn c08_on_start_once_weave() -> (r: Result<Weave, BuildError>)
    ensures
        weave_built(r, "c08"@, c08_knots(), c08_threads()),
{
    let knots = vec![
        knot_def("start", KnotKind::OnStart),
        knot_def("flag", KnotKind::flag(FlagPriority::SetWins, false)),
        knot_def("out", KnotKind::signal_out("booted", SignalDomain::Bool)),
    ];
    let threads: &[(&str, &str, &str, &str)] = &[("start", "out", "flag", "set"), ("flag", "out", "out", "in")];
    proof {
        assert(knot_shapes(knots@) =~= c08_knots());
        assert(thread_names(threads@) =~= c08_threads());
    }
    build_weave("c08", knots, threads)
}

/// C08: booted from the first frame on.
#[verifier::rlimit(50)]
pub fn run_c08_on_start_once() -> (r: Result<(), CookbookError>)
    ensures
        r is Ok,
{
    let w = match c08_on_start_once_weave() {
        Ok(w) => w,
        Err(e) => {
            proof {
                let (ks, ts) = choose|ks: Seq<KnotDef>, ts: Seq<ThreadDef>|
                    #![trigger knot_shapes(ks), threads_named(ts, c08_threads())]
                    knot_shapes(ks) == c08_knots() && threads_named(ts, c08_threads()) && structural_fault(
                        "c08"@,
                        NumericPath::spec_compiled(),
                        ks,
                        ts,
                    ) is Some;
                lemma_c08_assembled();
                lemma_c08_valid(ks, ts);
            }
            return Err(CookbookError::Build(e));
        },
    };
    proof {
        lemma_c08_budget(w.spec_knots(), w.spec_threads());
        lemma_c08_knots(w.spec_knots());
    }
    let mut rt = match bind_default(&w) {
        Ok(rt) => rt,
        Err(e) => {
            return Err(CookbookError::Bind(e));
        },
    };
    proof {
        lemma_c08_tables(rt, w, crate::runtime::spec_default_bind_opts());
        assert(!rt.on_start_done@[0] && !rt.flag@[1]);
    }
    let ghost rt0 = rt;
    let mut h = ScriptedHost::new();
    let none: [(SenseId, Signal); 0] = [];
    assert(h.pending().push(none@)[0] == none@);
    assert(none@ =~= Seq::<(SenseId, Signal)>::empty());
    let r1 = tick_senses(&mut h, &mut rt, &none);
    let ghost rt1 = rt;
    proof {
        lemma_c08_frame(rt0, rt1, r1);
        assert(h.pending() =~= Seq::<Seq<(SenseId, Signal)>>::empty());
    }
    handle_step(r1)?;
    expect_truthy(&rt, "booted", true)?;
    assert(h.pending().push(none@)[0] == none@);
    let r2 = tick_senses(&mut h, &mut rt, &none);
    proof {
        lemma_c08_frame(rt1, rt, r2);
    }
    handle_step(r2)?;
    expect_truthy(&rt, "booted", true)
}

/// Knots of C09.
pub open spec fn c09_knots() -> Seq<(Seq<char>, KnotShape)> {
    seq![
        ("ok"@, KnotShape::Plain(KnotKind::SignalIn { domain: SignalDomain::Bool })),
        ("edge"@, KnotShape::Plain(KnotKind::RisingFromZero)),
        ("em"@, KnotShape::Emit { name: "sfx.ping"@ }),
    ]
}

/// Threads of C09.
pub open spec fn c09_threads() -> Seq<(Seq<char>, Seq<char>, Seq<char>, Seq<char>)> {
    seq![("ok"@, "out"@, "edge"@, "in"@), ("edge"@, "out"@, "em"@, "trigger"@)]
}

/// C09's graph is within the default budget.
proof fn lemma_c09_budget(ks: Seq<KnotDef>, ts: Seq<ThreadDef>)
    requires
        knot_shapes(ks) == c09_knots(),
        threads_named(ts, c09_threads()),
    ensures
        crate::validate::budget_fault(ks, ts, crate::validate::spec_default_budget()) is None,
        crate::runtime::delay_prefix(ks, 3) <= crate::validate::MAX_DENSE,
{
    lemma_c09_valid(ks, ts);
    lemma_c09_knots(ks);
    reveal_with_fuel(crate::validate::scan_fan_out, 3);
    reveal_with_fuel(crate::validate::out_count, 3);
    reveal_with_fuel(crate::validate::scan_depth, 4);
    reveal_with_fuel(crate::runtime::delay_prefix, 4);
    let e = crate::validate::knot_edges(ks, ts);
    let w = crate::validate::delay_weights(ks);
    reveal_strlit("in");
    reveal_strlit("edge");
    reveal_strlit("ok");
    reveal_strlit("em");
    reveal_strlit("trigger");
    reveal_strlit("sfx.ping");
    reveal_strlit("out");
    reveal_with_fuel(find_knot_from, 4);
    assert("ok"@[0] != "em"@[0] && "in"@[0] != "trigger"@[0]);
    assert(ts.len() == 2);
    assert(find_knot(ks, "ok"@) == Some(0int));
    assert(find_knot(ks, "edge"@) == Some(1int));
    assert(find_knot(ks, "em"@) == Some(2int));
    assert(e =~= seq![(0usize, 1usize), (1usize, 2usize)]);
    assert(w =~= seq![0u16, 0, 0]);
    lemma_chain3_depth(e, w, 0, 0);
    lemma_chain3_depth(e, w, 1, 0);
    lemma_chain3_depth(e, w, 2, 0);
    assert(crate::validate::scan_depth(e, w, crate::validate::spec_default_budget(), 0) is None);
}

/// The knots of any weave with C09's shapes, as the kinds they must be.
proof fn lemma_c09_knots(ks: Seq<KnotDef>)
    requires
        knot_shapes(ks) == c09_knots(),
    ensures
        ks.len() == 3,
        ks[0].id@ == "ok"@ && ks[1].id@ == "edge"@ && ks[2].id@ == "em"@,
        ks[0].kind == (KnotKind::SignalIn { domain: SignalDomain::Bool }),
        ks[1].kind == (KnotKind::RisingFromZero),
        ks[2].kind matches KnotKind::EmitCommand { name } && name@ == "sfx.ping"@,
{
    assert(knot_shapes(ks).len() == ks.len());
    assert(knot_shapes(ks)[0] == (ks[0].id@, shape_of(ks[0].kind)));
    assert(knot_shapes(ks)[1] == (ks[1].id@, shape_of(ks[1].kind)));
    assert(knot_shapes(ks)[2] == (ks[2].id@, shape_of(ks[2].kind)));
}

/// C09's knots and threads assemble: ids distinct, every thread names
/// known knots and ports of the right direction.
proof fn lemma_c09_assembled()
    ensures
        assembly_fault("c09"@, c09_knots(), c09_threads()) is None,
{
    reveal_strlit("c09");
    reveal_strlit("in");
    reveal_strlit("edge");
    reveal_strlit("ok");
    reveal_strlit("em");
    reveal_strlit("trigger");
    reveal_strlit("sfx.ping");
    reveal_strlit("out");
    reveal_with_fuel(find_shape_from, 4);
    reveal_with_fuel(crate::catalog::find_port, 3);
    reveal_with_fuel(scan_adds, 4);
    reveal_with_fuel(scan_wires, 3);
    assert("ok"@[0] != "em"@[0] && "in"@[0] != "trigger"@[0]);
    let d = c09_knots();
    assert(d.subrange(0, 1) =~= seq![d[0]]);
    assert(d.subrange(0, 2) =~= seq![d[0], d[1]]);
    assert(d.subrange(0, 0) =~= Seq::<(Seq<char>, KnotShape)>::empty());
    assert(add_fault(d, 0) is None);
    assert(add_fault(d, 1) is None);
    assert(add_fault(d, 2) is None);
    assert(scan_adds(d, 0) is None);
    let names = c09_threads();
    assert(wire_fault(d, names[0]) is None);
    assert(wire_fault(d, names[1]) is None);
    assert(scan_wires(d, names, 0) is None);
}

/// C09's graph is authored and validates: ids distinct, every thread
/// resolves Out to In without fan-in, required inputs fed, no loop, acyclic.
proof fn lemma_c09_valid(ks: Seq<KnotDef>, ts: Seq<ThreadDef>)
    requires
        knot_shapes(ks) == c09_knots(),
        threads_named(ts, c09_threads()),
    ensures
        assembly_fault("c09"@, c09_knots(), c09_threads()) is None,
        structural_fault("c09"@, NumericPath::spec_compiled(), ks, ts) is None,
{
    reveal_strlit("c09");
    reveal_strlit("in");
    reveal_strlit("edge");
    reveal_strlit("ok");
    reveal_strlit("em");
    reveal_strlit("trigger");
    reveal_strlit("sfx.ping");
    reveal_strlit("out");
    reveal_with_fuel(find_shape_from, 4);
    reveal_with_fuel(find_knot_from, 4);
    reveal_with_fuel(crate::catalog::find_port, 3);
    reveal_with_fuel(crate::validate::scan_knots, 4);
    reveal_with_fuel(crate::validate::scan_threads, 3);
    reveal_with_fuel(crate::validate::scan_required, 4);
    reveal_with_fuel(crate::validate::scan_ports, 4);
    reveal_with_fuel(crate::validate::scan_self, 3);
    reveal_with_fuel(scan_adds, 4);
    reveal_with_fuel(scan_wires, 3);
    lemma_c09_knots(ks);
    assert("ok"@[0] != "em"@[0] && "in"@[0] != "trigger"@[0]);
    let d = c09_knots();
    assert(d.subrange(0, 1) =~= seq![d[0]]);
    assert(d.subrange(0, 2) =~= seq![d[0], d[1]]);
    assert(d.subrange(0, 0) =~= Seq::<(Seq<char>, KnotShape)>::empty());
    assert(add_fault(d, 0) is None);
    assert(add_fault(d, 1) is None);
    assert(add_fault(d, 2) is None);
    assert(scan_adds(d, 0) is None);
    let names = c09_threads();
    assert(wire_fault(d, names[0]) is None);
    assert(wire_fault(d, names[1]) is None);
    assert(scan_wires(d, names, 0) is None);
    assert(ts.len() == 2);
    assert(ts[0].from.knot@ == "ok"@ && ts[0].from.port@ == "out"@ && ts[0].to.knot@ == "edge"@ && ts[0].to.port@ == "in"@);
    assert(ts[1].from.knot@ == "edge"@ && ts[1].from.port@ == "out"@ && ts[1].to.knot@ == "em"@ && ts[1].to.port@ == "trigger"@);
    assert(find_knot(ks, "ok"@) == Some(0int));
    assert(find_knot(ks, "edge"@) == Some(1int));
    assert(find_knot(ks, "em"@) == Some(2int));
    assert(crate::validate::knot_fault(ks, 0) is None);
    assert(crate::validate::knot_fault(ks, 1) is None);
    assert(crate::validate::knot_fault(ks, 2) is None);
    assert(crate::validate::scan_knots(ks, 0) is None);
    assert(crate::validate::target_of(ks, ts[0]) == Some((1int, 0int)));
    assert(crate::validate::target_of(ks, ts[1]) == Some((2int, 0int)));
    assert(!crate::validate::earlier_same_target(ks, ts, 0));
    assert(!crate::validate::earlier_same_target(ks, ts, 1));
    assert(crate::validate::thread_fault(ks, ts, 0) is None);
    assert(crate::validate::thread_fault(ks, ts, 1) is None);
    assert(crate::validate::scan_threads(ks, ts, 0) is None);
    assert(crate::validate::wired(ks, ts, 1, 0));
    assert(crate::validate::wired(ks, ts, 2, 0));
    assert(crate::validate::scan_ports(ks, ts, Seq::empty(), 0, 0) is None);
    assert(crate::validate::scan_ports(ks, ts, Seq::empty(), 1, 0) is None);
    assert(crate::validate::scan_ports(ks, ts, Seq::empty(), 2, 0) is None);
    assert(crate::validate::scan_required(ks, ts, Seq::empty(), 0) is None);
    assert(crate::validate::scan_self(ks, ts, 0) is None);
    let e = crate::validate::knot_edges(ks, ts);
    assert(e[0] == (0usize, 1usize) && e[1] == (1usize, 2usize));
    assert(crate::graph::is_rank(3, e, seq![0int, 1, 2]));
}

/// One settle of C09's tables: the rising edge of the sensed value, and
/// the emit it triggers when the edge itself rises.
proof fn lemma_c09_settle(t: Tables, senses: Seq<Signal>, d: Dyn)
    requires
        t.tags.len() == 3,
        t.tags[0] is Sense,
        t.tags[1] == KindTag::RisingFromZero,
        t.tags[2] == (KindTag::EmitCommand { enable_wired: false }),
        t.topo == seq![0u16, 1, 2],
        t.inbound.len() == 3,
        t.inbound[1]@ == seq![(0u16, 0u8, 0u8)],
        t.inbound[2]@ == seq![(1u16, 1u8, 0u8)],
        t.clear_mask.len() == 24,
        t.sense_seeds == seq![SenseSeed::SignalIn { kid: 0 }],
        t.knot_cmd.len() == 3,
        t.max_emits >= 1,
        d.ports.len() == 24,
        d.prev_in.len() == 3,
        d.out_emits.len() == 0,
        senses.len() == 3,
    ensures
        ({
            let r = settle(t, senses, d);
            let v = senses[0];
            let rise = bool_signal(!truthy(d.prev_in[1]) && truthy(v));
            let fire = !truthy(d.prev_in[2]) && truthy(rise);
            &&& r.prev_in == d.prev_in.update(1, v).update(2, rise)
            &&& r.out_emits.len() == (if fire { 1int } else { 0int })
            &&& fire ==> r.out_emits[0].cmd == (CmdId { owner: t.owner, index: t.knot_cmd[2] })
        }),
{
    let v = senses[0];
    let cleared = Dyn { ports: clear_ports(d.ports, t.clear_mask, t.clear_mask.len() as int), ..d };
    assert(cleared.ports.len() == 24);
    reveal_with_fuel(seeded, 2);
    let s0 = seeded(t, senses, cleared, 1);
    assert(s0.ports == cleared.ports.update(0, v));
    assert(s0.out_emits == d.out_emits && s0.prev_in == d.prev_in);
    reveal_with_fuel(evaluated, 4);
    let e1 = evaluated(t, s0, 1);
    assert(e1 == s0);
    let g1 = gather_dyn(t, e1, 1);
    reveal_with_fuel(gather_ports, 2);
    assert(g1.ports == s0.ports.update(8, s0.ports[0]));
    let e2 = evaluated(t, s0, 2);
    assert(e2 == eval_dyn(t, g1, 1));
    assert(knot_ports(g1.ports, 1)[0] == v);
    let rise = bool_signal(!truthy(d.prev_in[1]) && truthy(v));
    assert(e2.ports[9] == rise);
    assert(e2.ports.len() == 24);
    assert(e2.prev_in == d.prev_in.update(1, v));
    assert(e2.out_emits == d.out_emits);
    let g2 = gather_dyn(t, e2, 2);
    assert(g2.ports == e2.ports.update(16, e2.ports[9]));
    assert(g2.prev_in == e2.prev_in && g2.out_emits == e2.out_emits);
    let e3 = evaluated(t, s0, 3);
    assert(e3 == eval_dyn(t, g2, 2));
    assert(knot_ports(g2.ports, 2)[0] == rise);
}

/// A runtime of C09: its tables, its one command `sfx.ping` and its sense
/// `ok`.
spec fn c09_shaped(rt: Runtime) -> bool {
    let t = crate::settle::tables_of(rt);
    &&& rt.wf()
    &&& t.tags.len() == 3
    &&& t.tags[0] is Sense
    &&& t.tags[1] == KindTag::RisingFromZero
    &&& t.tags[2] == (KindTag::EmitCommand { enable_wired: false })
    &&& t.topo == seq![0u16, 1, 2]
    &&& t.inbound.len() == 3
    &&& t.inbound[1]@ == seq![(0u16, 0u8, 0u8)]
    &&& t.inbound[2]@ == seq![(1u16, 1u8, 0u8)]
    &&& t.clear_mask.len() == 24
    &&& t.sense_seeds == seq![SenseSeed::SignalIn { kid: 0 }]
    &&& t.knot_cmd.len() == 3
    &&& t.knot_cmd[2] == 0
    &&& t.max_emits >= 1
    &&& t.owner == rt.spec_owner()
    &&& crate::validate::names_view(rt.spec_cmd_names()) == seq!["sfx.ping"@]
    &&& rt.spec_knots().len() == 3
    &&& find_knot(rt.spec_knots(), "ok"@) == Some(0int)
    &&& rt.spec_knots()[0].kind == (KnotKind::SignalIn { domain: SignalDomain::Bool })
}

/// The tables of every bind of a weave with C09's knots and threads.
proof fn lemma_c09_tables(rt: Runtime, w: Weave, opts: crate::runtime::BindOpts)
    requires
        crate::runtime::bound_from(rt, w, opts),
        knot_shapes(w.spec_knots()) == c09_knots(),
        threads_named(w.spec_threads(), c09_threads()),
        opts.max_emits_per_tick >= 1,
    ensures
        c09_shaped(rt),
{
    let ks = w.spec_knots();
    let ts = w.spec_threads();
    lemma_c09_knots(ks);
    lemma_c09_valid(ks, ts);
    reveal_strlit("in");
    reveal_strlit("edge");
    reveal_strlit("ok");
    reveal_strlit("em");
    reveal_strlit("trigger");
    reveal_strlit("sfx.ping");
    reveal_strlit("out");
    reveal_with_fuel(find_knot_from, 4);
    assert("ok"@[0] != "em"@[0] && "in"@[0] != "trigger"@[0]);
    assert("edge"@.len() != "em"@.len() && "ok"@ != "em"@);
    assert(find_knot(ks, "ok"@) == Some(0int));
    assert(find_knot(ks, "edge"@) == Some(1int));
    assert(find_knot(ks, "em"@) == Some(2int));
    let th = rt.spec_threads();
    assert(ts.len() == 2);
    reveal_with_fuel(crate::catalog::find_port, 3);
    assert("in"@[0] != "out"@[0]);
    assert(crate::catalog::find_port(crate::catalog::port_table(ks[1].kind), "out"@) == Some(1int));
    assert(crate::catalog::find_port(crate::catalog::port_table(ks[1].kind), "in"@) == Some(0int));
    assert(crate::catalog::find_port(crate::catalog::port_table(ks[2].kind), "trigger"@) == Some(0int));
    assert(crate::runtime::thread_resolved(ks, ts[0], th[0]));
    assert(crate::runtime::thread_resolved(ks, ts[1], th[1]));
    assert(th[0] == (0u16, 0u8, 1u16, 0u8));
    assert(th[1] == (1u16, 1u8, 2u16, 0u8));
    reveal_with_fuel(crate::runtime::into_prefix, 3);
    assert(rt.inbound@[1]@ =~= seq![(0u16, 0u8, 0u8)]);
    assert(rt.inbound@[2]@ =~= seq![(1u16, 1u8, 0u8)]);
    assert(rt.inbound@[0]@ =~= Seq::<(u16, u8, u8)>::empty());
    // Tags.
    assert(crate::runtime::tag_refines(rt.tags@[1], ks[1].kind, rt.inbound@[1]@));
    assert(rt.tags@[0] is Sense);
    assert(crate::runtime::tag_refines(rt.tags@[2], ks[2].kind, rt.inbound@[2]@));
    assert forall|j: int| 0 <= j < rt.inbound@[2]@.len() implies (#[trigger] rt.inbound@[2]@[j]).2 != 1 by {}
    assert(rt.tags@[2] == KindTag::EmitCommand { enable_wired: false });
    // The order: three distinct knots, each thread forward.
    let tp = rt.topo@;
    assert(tp.len() == 3);
    assert(tp[0] < 3 && tp[1] < 3 && tp[2] < 3);
    assert(tp[0] != tp[1] && tp[0] != tp[2] && tp[1] != tp[2]);
    assert(th[0].0 != th[0].2 && th[1].0 != th[1].2);
    assert(tp =~= seq![0u16, 1, 2]);
    // Seeds: only knot 0 is seeded.
    let sd = rt.sense_seeds@;
    assert(crate::runtime::seeds_match(sd, ks));
    assert forall|j: int| 0 <= j < sd.len() implies (#[trigger] sd[j]).kid() == 0 by {
        assert(sd[j].kid() < 3);
    }
    let j0 = choose|j: int| 0 <= j < sd.len() && #[trigger] sd[j].kid() == 0;
    if sd.len() > 1 {
        assert(sd[0].kid() < sd[1].kid());
    }
    assert(sd.len() == 1);
    assert(sd[0] == SenseSeed::SignalIn { kid: 0 });
    assert(sd =~= seq![SenseSeed::SignalIn { kid: 0 }]);
    // Commands: only "sfx.ping".
    reveal_with_fuel(crate::runtime::cmds_seen, 4);
    assert(crate::runtime::cmds_seen(ks, 3) =~= seq!["sfx.ping"@]);
    assert(rt.knot_cmd@[2] < rt.cmd_names@.len());
}

/// One C09 frame writing the Bool `v` to the sense `ok`: it is accepted,
/// and `sfx.ping` is emitted once exactly when the edge rises anew.
proof fn lemma_c09_frame(before: Runtime, after: Runtime, id: SenseId, v: Signal, r: Result<(), HandleError>)
    requires
        c09_shaped(before),
        after.wf(),
        after.same_tables(&before),
        id.spec_owner() == before.spec_owner(),
        id.spec_index() == 0,
        v == ZERO || v == ONE,
        crate::host::frame_ran(before, seq![(id, v)], r, after),
    ensures
        r is Ok,
        c09_shaped(after),
        after.prev_in@[1] == v,
        after.prev_in@[2] == bool_signal(!truthy(before.prev_in@[1]) && truthy(v)),
        crate::cookbook::helpers::count_named(after, after.spec_outbox().1, "sfx.ping"@) == (if !truthy(before.prev_in@[2])
            && !truthy(before.prev_in@[1]) && truthy(v) {
            1nat
        } else {
            0nat
        }),
{
    let senses = seq![(id, v)];
    assert(crate::host::write_ok(before, senses[0].0, senses[0].1));
    assert(crate::settle::tables_of(after) == crate::settle::tables_of(before));
    assert(after.spec_cmd_names() == before.spec_cmd_names());
    assert(after.spec_knots() == before.spec_knots());
    let sv = after.spec_sense_values();
    assert(sv == crate::host::senses_after(before.spec_sense_values(), senses, 1));
    reveal_with_fuel(crate::host::senses_after, 2);
    assert(sv == before.spec_sense_values().update(0, v));
    assert(sv[0] == v && sv.len() == 3);
    let d = crate::settle::frame_start(crate::settle::dyn_of(before));
    lemma_c09_settle(crate::settle::tables_of(before), sv, d);
    let names = after.spec_cmd_names();
    assert(crate::validate::names_view(names).len() == 1);
    assert(names.len() == 1);
    assert(names[0]@ == crate::validate::names_view(names)[0]);
    let emits = after.spec_outbox().1;
    reveal_with_fuel(crate::cookbook::helpers::count_named, 2);
    if emits.len() == 1 {
        assert(emits.drop_last().len() == 0);
        assert(crate::cookbook::helpers::emit_named(after, emits.last(), "sfx.ping"@));
    }
}

/// Topology of C09: a rising edge triggers `sfx.ping`.
pub fn c09_emit_once_weave() -> (r: Result<Weave, BuildError>)
    ensures
        weave_built(r, "c09"@, c09_knots(), c09_threads()),
{
    let knots = vec![
        knot_def("ok", KnotKind::signal_in(SignalDomain::Bool)),
        knot_def("edge", KnotKind::rising_from_zero()),
        knot_def("em", KnotKind::emit_command("sfx.ping")),
    ];
    let threads: &[(&str, &str, &str, &str)] = &[("ok", "out", "edge", "in"), ("edge", "out", "em", "trigger")];
    proof {
        assert(knot_shapes(knots@) =~= c09_knots());
        assert(thread_names(threads@) =~= c09_threads());
    }
    build_weave("c09", knots, threads)
}

/// C09: the command fires once per rising edge.
#[verifier::rlimit(50)]
pub fn run_c09_emit_once() -> (r: Result<(), CookbookError>)
    ensures
        r is Ok,
{
    let w = match c09_emit_once_weave() {
        Ok(w) => w,
        Err(e) => {
            proof {
                let (ks, ts) = choose|ks: Seq<KnotDef>, ts: Seq<ThreadDef>|
                    #![trigger knot_shapes(ks), threads_named(ts, c09_threads())]
                    knot_shapes(ks) == c09_knots() && threads_named(ts, c09_threads()) && structural_fault(
                        "c09"@,
                        NumericPath::spec_compiled(),
                        ks,
                        ts,
                    ) is Some;
                lemma_c09_assembled();
                lemma_c09_valid(ks, ts);
            }
            return Err(CookbookError::Build(e));
        },
    };
    proof {
        lemma_c09_budget(w.spec_knots(), w.spec_threads());
        lemma_c09_knots(w.spec_knots());
    }
    let mut rt = match bind_default(&w) {
        Ok(rt) => rt,
        Err(e) => {
            return Err(CookbookError::Bind(e));
        },
    };
    proof {
        lemma_c09_tables(rt, w, crate::runtime::spec_default_bind_opts());
        assert(rt.prev_in@[1] == ZERO && rt.prev_in@[2] == ZERO);
    }
    let ghost rt0 = rt;
    let o = sense(&rt, "ok")?;
    let mut h = ScriptedHost::new();
    let f1 = [(o, ONE)];
    assert(h.pending().push(f1@)[0] == f1@);
    assert(f1@ == seq![(o, ONE)]);
    let r1 = tick_senses(&mut h, &mut rt, &f1);
    let ghost rt1 = rt;
    proof {
        lemma_c09_frame(rt0, rt1, o, ONE, r1);
        assert(h.pending() =~= Seq::<Seq<(SenseId, Signal)>>::empty());
    }
    handle_step(r1)?;
    expect_emits(&rt, "sfx.ping", 1)?;
    assert(h.pending().push(f1@)[0] == f1@);
    let r2 = tick_senses(&mut h, &mut rt, &f1);
    proof {
        lemma_c09_frame(rt1, rt, o, ONE, r2);
    }
    handle_step(r2)?;
    expect_emits(&rt, "sfx.ping", 0)
}

/// Knots of C10.
pub open spec fn c10_knots() -> Seq<(Seq<char>, KnotShape)> {
    seq![
        ("key_a"@, KnotShape::Plain(KnotKind::SignalIn { domain: SignalDomain::Bool })),
        ("key_b"@, KnotShape::Plain(KnotKind::SignalIn { domain: SignalDomain::Bool })),
        ("any"@, KnotShape::Plain(KnotKind::Or { arity: 2 })),
        ("out"@, KnotShape::Out { path: "open"@, domain: SignalDomain::Bool }),
    ]
}

/// Threads of C10.
pub open spec fn c10_threads() -> Seq<(Seq<char>, Seq<char>, Seq<char>, Seq<char>)> {
    seq![("key_a"@, "out"@, "any"@, "in_0"@), ("key_b"@, "out"@, "any"@, "in_1"@), ("any"@, "out"@, "out"@, "in"@)]
}

/// A node's rank in C10's fan-in graph `0 → 2`, `1 → 2`, `2 → 3`.
pub(crate) open spec fn fan_in_rank(v: usize) -> nat {
    if v <= 1 {
        0
    } else {
        (v - 1) as nat
    }
}

/// Along C10's fan-in graph a path climbs one rank per step, and visits
/// only its four knots.
proof fn lemma_fan_in_path(e: crate::graph::Edges, p: Seq<usize>)
    requires
        e == seq![(0usize, 2usize), (1usize, 2usize), (2usize, 3usize)],
        crate::graph::is_path(e, p),
        p.last() < 4,
    ensures
        p.len() - 1 <= fan_in_rank(p.last()),
        forall|i: int| 0 <= i < p.len() ==> #[trigger] p[i] < 4,
    decreases p.len(),
{
    if p.len() >= 2 {
        let q = p.drop_last();
        assert(crate::graph::is_path(e, q)) by {
            assert forall|i: int| 0 <= i < q.len() - 1 implies crate::graph::has_edge(e, #[trigger] q[i], q[i + 1]) by {
                assert(crate::graph::has_edge(e, p[i], p[i + 1]));
            }
        }
        let i = p.len() - 2;
        assert(crate::graph::has_edge(e, p[i], p[i + 1]));
        let k = choose|k: int| 0 <= k < e.len() && #[trigger] e[k] == (p[i], p[i + 1]);
        assert(q.last() == p[i]);
        lemma_fan_in_path(e, q);
        assert forall|j: int| 0 <= j < p.len() implies #[trigger] p[j] < 4 by {
            if j < p.len() - 1 {
                assert(p[j] == q[j]);
            }
        }
    }
}

/// A path over C10's knots carries no delay.
pub(crate) proof fn lemma_fan_in_weight(w: Seq<u16>, p: Seq<usize>)
    requires
        w == seq![0u16, 0, 0, 0],
        forall|i: int| 0 <= i < p.len() ==> #[trigger] p[i] < 4,
    ensures
        crate::graph::path_weight(w, p) == 0,
    decreases p.len(),
{
    if p.len() > 0 {
        let q = p.drop_last();
        assert forall|i: int| 0 <= i < q.len() implies #[trigger] q[i] < 4 by {
            assert(q[i] == p[i]);
        }
        lemma_fan_in_weight(w, q);
        assert(p[p.len() - 1] < 4);
    }
}

/// The longest path and the heaviest delay sum into knot `v` of C10.
pub(crate) proof fn lemma_fan_in_depth(e: crate::graph::Edges, w: Seq<u16>, v: usize)
    requires
        e == seq![(0usize, 2usize), (1usize, 2usize), (2usize, 3usize)],
        w == seq![0u16, 0, 0, 0],
        v < 4,
    ensures
        crate::validate::longest(e, v) == fan_in_rank(v),
        crate::validate::heaviest(e, w, v) == 0,
{
    let full: Seq<usize> = if v <= 1 {
        seq![v]
    } else if v == 2 {
        seq![0usize, 2]
    } else {
        seq![0usize, 2, 3]
    };
    assert(e[0] == (0usize, 2usize) && e[2] == (2usize, 3usize));
    assert(crate::graph::is_path(e, full)) by {
        assert forall|i: int| 0 <= i < full.len() - 1 implies crate::graph::has_edge(e, #[trigger] full[i], full[i + 1]) by {
            if i == 0 {
                assert(e[0] == (full[0], full[1]));
            } else {
                assert(e[2] == (full[1], full[2]));
            }
        }
    }
    assert forall|i: int| 0 <= i < full.len() implies #[trigger] full[i] < 4 by {}
    lemma_fan_in_weight(w, full);
    assert forall|p: Seq<usize>| #[trigger] crate::graph::is_path(e, p) && p.last() == v implies p.len() - 1 <= fan_in_rank(v)
        && crate::graph::path_weight(w, p) <= 0 by {
        lemma_fan_in_path(e, p);
        lemma_fan_in_weight(w, p);
    }
    assert(crate::graph::longest_path_to(e, v, fan_in_rank(v)));
    assert(crate::graph::heaviest_path_to(e, w, v, 0));
    crate::validate::lemma_longest_is(e, v, fan_in_rank(v));
    crate::validate::lemma_heaviest_is(e, w, v, 0);
}

/// The knots of any weave with C10's shapes, as the kinds they must be.
proof fn lemma_c10_knots(ks: Seq<KnotDef>)
    requires
        knot_shapes(ks) == c10_knots(),
    ensures
        ks.len() == 4,
        ks[0].id@ == "key_a"@ && ks[1].id@ == "key_b"@ && ks[2].id@ == "any"@ && ks[3].id@ == "out"@,
        ks[0].kind == (KnotKind::SignalIn { domain: SignalDomain::Bool }),
        ks[1].kind == (KnotKind::SignalIn { domain: SignalDomain::Bool }),
        ks[2].kind == (KnotKind::Or { arity: 2 }),
        ks[3].kind matches KnotKind::SignalOut { path, domain } && path@ == "open"@ && domain == SignalDomain::Bool,
{
    assert(knot_shapes(ks).len() == ks.len());
    assert(knot_shapes(ks)[0] == (ks[0].id@, shape_of(ks[0].kind)));
    assert(knot_shapes(ks)[1] == (ks[1].id@, shape_of(ks[1].kind)));
    assert(knot_shapes(ks)[2] == (ks[2].id@, shape_of(ks[2].kind)));
    assert(knot_shapes(ks)[3] == (ks[3].id@, shape_of(ks[3].kind)));
}

/// C10's knots and threads assemble: ids distinct, every thread names
/// known knots and ports of the right direction.
proof fn lemma_c10_assembled()
    ensures
        assembly_fault("c10"@, c10_knots(), c10_threads()) is None,
{
    reveal_strlit("c10");
    reveal_strlit("key_a");
    reveal_strlit("key_b");
    reveal_strlit("any");
    reveal_strlit("out");
    reveal_strlit("in");
    reveal_strlit("in_0");
    reveal_strlit("in_1");
    reveal_with_fuel(find_shape_from, 5);
    reveal_with_fuel(crate::catalog::find_port, 4);
    reveal_with_fuel(scan_adds, 5);
    reveal_with_fuel(scan_wires, 4);
    assert("key_a"@[4] != "key_b"@[4] && "any"@[0] != "out"@[0] && "in_0"@[3] != "in_1"@[3] && "in_0"@[0] != "out"@[0]);
    let d = c10_knots();
    assert(d.subrange(0, 0) =~= Seq::<(Seq<char>, KnotShape)>::empty());
    assert(d.subrange(0, 1) =~= seq![d[0]]);
    assert(d.subrange(0, 2) =~= seq![d[0], d[1]]);
    assert(d.subrange(0, 3) =~= seq![d[0], d[1], d[2]]);
    assert(add_fault(d, 0) is None);
    assert(add_fault(d, 1) is None);
    assert(add_fault(d, 2) is None);
    assert(add_fault(d, 3) is None);
    assert(scan_adds(d, 0) is None);
    let g = crate::catalog::gate_ports(2);
    assert(g.len() == 3 && g[0].name == "in_0"@ && g[1].name == "in_1"@ && g[2].name == "out"@);
    let names = c10_threads();
    assert(wire_fault(d, names[0]) is None);
    assert(wire_fault(d, names[1]) is None);
    assert(wire_fault(d, names[2]) is None);
    assert(scan_wires(d, names, 0) is None);
}

/// C10's graph validates: ids distinct, every thread resolves Out to In
/// without fan-in, required inputs fed, no loop, acyclic.
proof fn lemma_c10_valid(ks: Seq<KnotDef>, ts: Seq<ThreadDef>)
    requires
        knot_shapes(ks) == c10_knots(),
        threads_named(ts, c10_threads()),
    ensures
        structural_fault("c10"@, NumericPath::spec_compiled(), ks, ts) is None,
{
    reveal_strlit("c10");
    reveal_strlit("key_a");
    reveal_strlit("key_b");
    reveal_strlit("any");
    reveal_strlit("out");
    reveal_strlit("in");
    reveal_strlit("in_0");
    reveal_strlit("in_1");
    reveal_with_fuel(find_knot_from, 5);
    reveal_with_fuel(crate::catalog::find_port, 4);
    reveal_with_fuel(crate::validate::scan_knots, 5);
    reveal_with_fuel(crate::validate::scan_threads, 4);
    reveal_with_fuel(crate::validate::scan_required, 5);
    reveal_with_fuel(crate::validate::scan_ports, 4);
    reveal_with_fuel(crate::validate::scan_self, 4);
    lemma_c10_knots(ks);
    assert("key_a"@[4] != "key_b"@[4] && "any"@[0] != "out"@[0] && "in_0"@[3] != "in_1"@[3] && "in_0"@[0] != "out"@[0]);
    let g = crate::catalog::gate_ports(2);
    assert(g.len() == 3 && g[0].name == "in_0"@ && g[1].name == "in_1"@ && g[2].name == "out"@);
    assert(ts.len() == 3);
    assert(ts[0].from.knot@ == "key_a"@ && ts[0].from.port@ == "out"@ && ts[0].to.knot@ == "any"@ && ts[0].to.port@ == "in_0"@);
    assert(ts[1].from.knot@ == "key_b"@ && ts[1].from.port@ == "out"@ && ts[1].to.knot@ == "any"@ && ts[1].to.port@ == "in_1"@);
    assert(ts[2].from.knot@ == "any"@ && ts[2].from.port@ == "out"@ && ts[2].to.knot@ == "out"@ && ts[2].to.port@ == "in"@);
    assert(find_knot(ks, "key_a"@) == Some(0int));
    assert(find_knot(ks, "key_b"@) == Some(1int));
    assert(find_knot(ks, "any"@) == Some(2int));
    assert(find_knot(ks, "out"@) == Some(3int));
    assert(crate::validate::knot_fault(ks, 0) is None);
    assert(crate::validate::knot_fault(ks, 1) is None);
    assert(crate::validate::knot_fault(ks, 2) is None);
    assert(crate::validate::knot_fault(ks, 3) is None);
    assert(crate::validate::scan_knots(ks, 0) is None);
    assert(crate::validate::target_of(ks, ts[0]) == Some((2int, 0int)));
    assert(crate::validate::target_of(ks, ts[1]) == Some((2int, 1int)));
    assert(crate::validate::target_of(ks, ts[2]) == Some((3int, 0int)));
    assert(!crate::validate::earlier_same_target(ks, ts, 0));
    assert(!crate::validate::earlier_same_target(ks, ts, 1));
    assert(!crate::validate::earlier_same_target(ks, ts, 2));
    assert(crate::validate::thread_fault(ks, ts, 0) is None);
    assert(crate::validate::thread_fault(ks, ts, 1) is None);
    assert(crate::validate::thread_fault(ks, ts, 2) is None);
    assert(crate::validate::scan_threads(ks, ts, 0) is None);
    assert(crate::validate::wired(ks, ts, 2, 0));
    assert(crate::validate::wired(ks, ts, 2, 1));
    assert(crate::validate::wired(ks, ts, 3, 0));
    assert(crate::validate::scan_ports(ks, ts, Seq::empty(), 0, 0) is None);
    assert(crate::validate::scan_ports(ks, ts, Seq::empty(), 1, 0) is None);
    assert(crate::validate::scan_ports(ks, ts, Seq::empty(), 2, 0) is None);
    assert(crate::validate::scan_ports(ks, ts, Seq::empty(), 3, 0) is None);
    assert(crate::validate::scan_required(ks, ts, Seq::empty(), 0) is None);
    assert(crate::validate::scan_self(ks, ts, 0) is None);
    let e = crate::validate::knot_edges(ks, ts);
    assert(e[0] == (0usize, 2usize) && e[1] == (1usize, 2usize) && e[2] == (2usize, 3usize));
    assert(crate::graph::is_rank(4, e, seq![0int, 1, 2, 3]));
}

/// C10's graph is within the default budget.
proof fn lemma_c10_budget(ks: Seq<KnotDef>, ts: Seq<ThreadDef>)
    requires
        knot_shapes(ks) == c10_knots(),
        threads_named(ts, c10_threads()),
    ensures
        crate::validate::budget_fault(ks, ts, crate::validate::spec_default_budget()) is None,
        crate::runtime::delay_prefix(ks, 4) <= crate::validate::MAX_DENSE,
{
    lemma_c10_valid(ks, ts);
    lemma_c10_knots(ks);
    reveal_with_fuel(crate::validate::scan_fan_out, 5);
    reveal_with_fuel(crate::validate::out_count, 4);
    reveal_with_fuel(crate::validate::scan_depth, 5);
    reveal_with_fuel(crate::runtime::delay_prefix, 5);
    let e = crate::validate::knot_edges(ks, ts);
    let w = crate::validate::delay_weights(ks);
    reveal_strlit("key_a");
    reveal_strlit("key_b");
    reveal_strlit("any");
    reveal_strlit("out");
    reveal_with_fuel(find_knot_from, 5);
    assert("key_a"@[4] != "key_b"@[4] && "any"@[0] != "out"@[0]);
    assert(ts.len() == 3);
    assert(find_knot(ks, "key_a"@) == Some(0int));
    assert(find_knot(ks, "key_b"@) == Some(1int));
    assert(find_knot(ks, "any"@) == Some(2int));
    assert(find_knot(ks, "out"@) == Some(3int));
    assert(e =~= seq![(0usize, 2usize), (1usize, 2usize), (2usize, 3usize)]);
    assert(w =~= seq![0u16, 0, 0, 0]);
    lemma_fan_in_depth(e, w, 0);
    lemma_fan_in_depth(e, w, 1);
    lemma_fan_in_depth(e, w, 2);
    lemma_fan_in_depth(e, w, 3);
    assert(crate::validate::scan_depth(e, w, crate::validate::spec_default_budget(), 0) is None);
}

/// One settle of C10's tables: the `Or` of the two sensed keys is sampled
/// on `open`, whichever key the order seeds first.
#[verifier::rlimit(40)]
proof fn lemma_c10_settle(t: Tables, senses: Seq<Signal>, d: Dyn)
    requires
        t.tags.len() == 4,
        t.tags[0] is Sense,
        t.tags[1] is Sense,
        t.tags[2] == (KindTag::Or { arity: 2 }),
        t.tags[3] is SignalOut,
        t.topo == seq![0u16, 1, 2, 3] || t.topo == seq![1u16, 0, 2, 3],
        t.inbound.len() == 4,
        t.inbound[2]@ == seq![(0u16, 0u8, 0u8), (1u16, 0u8, 1u8)],
        t.inbound[3]@ == seq![(2u16, 2u8, 0u8)],
        t.clear_mask.len() == 32,
        t.sense_seeds == seq![SenseSeed::SignalIn { kid: 0 }, SenseSeed::SignalIn { kid: 1 }],
        t.knot_path.len() == 4,
        t.knot_path[3] == 0,
        d.ports.len() == 32,
        senses.len() == 4,
    ensures
        settle(t, senses, d).out_signals == d.out_signals.push(
            SignalOutSample {
                path: HostPathId { owner: t.owner, index: 0 },
                value: bool_signal(truthy(senses[0]) || truthy(senses[1])),
            },
        ),
{
    let cleared = Dyn { ports: clear_ports(d.ports, t.clear_mask, t.clear_mask.len() as int), ..d };
    assert(cleared.ports.len() == 32);
    reveal_with_fuel(seeded, 3);
    let s0 = seeded(t, senses, cleared, 2);
    assert(s0.ports == cleared.ports.update(0, senses[0]).update(8, senses[1]));
    assert(s0.out_signals == d.out_signals);
    reveal_with_fuel(evaluated, 5);
    assert(evaluated(t, s0, 1) == s0);
    assert(evaluated(t, s0, 2) == s0);
    let g2 = gather_dyn(t, s0, 2);
    reveal_with_fuel(gather_ports, 3);
    assert(g2.ports == s0.ports.update(16, s0.ports[0]).update(17, s0.ports[8]));
    let e3 = evaluated(t, s0, 3);
    assert(e3 == eval_dyn(t, g2, 2));
    let p2 = knot_ports(g2.ports, 2);
    assert(p2[0] == senses[0] && p2[1] == senses[1]);
    let out = bool_signal(truthy(senses[0]) || truthy(senses[1]));
    assert(crate::loom::any_truthy(p2, 2) == (truthy(p2[0]) || truthy(p2[1])));
    assert(e3.ports[18] == out);
    assert(e3.ports.len() == 32);
    assert(e3.out_signals == d.out_signals);
    let g3 = gather_dyn(t, e3, 3);
    assert(g3.ports == e3.ports.update(24, e3.ports[18]));
    let e4 = evaluated(t, s0, 4);
    assert(e4 == eval_dyn(t, g3, 3));
    assert(knot_ports(g3.ports, 3)[0] == out);
}

/// A runtime of C10: its tables, its one host path `open` and its senses
/// `key_a` and `key_b`.
spec fn c10_shaped(rt: Runtime) -> bool {
    let t = crate::settle::tables_of(rt);
    &&& rt.wf()
    &&& t.tags.len() == 4
    &&& t.tags[0] is Sense
    &&& t.tags[1] is Sense
    &&& t.tags[2] == (KindTag::Or { arity: 2 })
    &&& t.tags[3] is SignalOut
    &&& (t.topo == seq![0u16, 1, 2, 3] || t.topo == seq![1u16, 0, 2, 3])
    &&& t.inbound.len() == 4
    &&& t.inbound[2]@ == seq![(0u16, 0u8, 0u8), (1u16, 0u8, 1u8)]
    &&& t.inbound[3]@ == seq![(2u16, 2u8, 0u8)]
    &&& t.clear_mask.len() == 32
    &&& t.sense_seeds == seq![SenseSeed::SignalIn { kid: 0 }, SenseSeed::SignalIn { kid: 1 }]
    &&& t.knot_path.len() == 4
    &&& t.knot_path[3] == 0
    &&& t.owner == rt.spec_owner()
    &&& crate::validate::names_view(rt.spec_path_names()) == seq!["open"@]
    &&& rt.spec_knots().len() == 4
    &&& find_knot(rt.spec_knots(), "key_a"@) == Some(0int)
    &&& find_knot(rt.spec_knots(), "key_b"@) == Some(1int)
    &&& rt.spec_knots()[0].kind == (KnotKind::SignalIn { domain: SignalDomain::Bool })
    &&& rt.spec_knots()[1].kind == (KnotKind::SignalIn { domain: SignalDomain::Bool })
}

/// The tables of every bind of a weave with C10's knots and threads.
proof fn lemma_c10_tables(rt: Runtime, w: Weave, opts: crate::runtime::BindOpts)
    requires
        crate::runtime::bound_from(rt, w, opts),
        knot_shapes(w.spec_knots()) == c10_knots(),
        threads_named(w.spec_threads(), c10_threads()),
    ensures
        c10_shaped(rt),
{
    let ks = w.spec_knots();
    let ts = w.spec_threads();
    lemma_c10_knots(ks);
    lemma_c10_valid(ks, ts);
    reveal_strlit("key_a");
    reveal_strlit("key_b");
    reveal_strlit("any");
    reveal_strlit("out");
    reveal_strlit("in");
    reveal_strlit("in_0");
    reveal_strlit("in_1");
    reveal_strlit("open");
    reveal_with_fuel(find_knot_from, 5);
    assert("key_a"@[4] != "key_b"@[4] && "any"@[0] != "out"@[0] && "in_0"@[3] != "in_1"@[3] && "in_0"@[0] != "out"@[0]);
    assert(find_knot(ks, "key_a"@) == Some(0int));
    assert(find_knot(ks, "key_b"@) == Some(1int));
    assert(find_knot(ks, "any"@) == Some(2int));
    assert(find_knot(ks, "out"@) == Some(3int));
    let th = rt.spec_threads();
    assert(ts.len() == 3);
    reveal_with_fuel(crate::catalog::find_port, 4);
    let g = crate::catalog::gate_ports(2);
    assert(g.len() == 3 && g[0].name == "in_0"@ && g[1].name == "in_1"@ && g[2].name == "out"@);
    assert(crate::catalog::find_port(crate::catalog::port_table(ks[2].kind), "in_0"@) == Some(0int));
    assert(crate::catalog::find_port(crate::catalog::port_table(ks[2].kind), "in_1"@) == Some(1int));
    assert(crate::catalog::find_port(crate::catalog::port_table(ks[2].kind), "out"@) == Some(2int));
    assert(crate::catalog::find_port(crate::catalog::port_table(ks[3].kind), "in"@) == Some(0int));
    assert(crate::runtime::thread_resolved(ks, ts[0], th[0]));
    assert(crate::runtime::thread_resolved(ks, ts[1], th[1]));
    assert(crate::runtime::thread_resolved(ks, ts[2], th[2]));
    assert(th[0] == (0u16, 0u8, 2u16, 0u8));
    assert(th[1] == (1u16, 0u8, 2u16, 1u8));
    assert(th[2] == (2u16, 2u8, 3u16, 0u8));
    reveal_with_fuel(crate::runtime::into_prefix, 4);
    assert(rt.inbound@[2]@ =~= seq![(0u16, 0u8, 0u8), (1u16, 0u8, 1u8)]);
    assert(rt.inbound@[3]@ =~= seq![(2u16, 2u8, 0u8)]);
    // Tags.
    assert(crate::runtime::tag_refines(rt.tags@[2], ks[2].kind, rt.inbound@[2]@));
    assert(rt.tags@[0] is Sense);
    assert(rt.tags@[1] is Sense);
    assert(rt.tags@[3] is SignalOut);
    // The order: the two keys first, the `Or` next, the output last.
    let tp = rt.topo@;
    assert(tp.len() == 4);
    assert(tp[0] < 4 && tp[1] < 4 && tp[2] < 4 && tp[3] < 4);
    assert(tp[0] != tp[1] && tp[0] != tp[2] && tp[0] != tp[3] && tp[1] != tp[2] && tp[1] != tp[3] && tp[2] != tp[3]);
    assert(th[0].0 != th[0].2 && th[1].0 != th[1].2 && th[2].0 != th[2].2);
    assert(tp =~= seq![0u16, 1, 2, 3] || tp =~= seq![1u16, 0, 2, 3]);
    // Seeds: the two keys, in order.
    let sd = rt.sense_seeds@;
    assert(crate::runtime::seeds_match(sd, ks));
    assert forall|j: int| 0 <= j < sd.len() implies (#[trigger] sd[j]).kid() <= 1 && sd[j] is SignalIn by {
        assert(sd[j].kid() < 4);
    }
    let j0 = choose|j: int| 0 <= j < sd.len() && #[trigger] sd[j].kid() == 0;
    let j1 = choose|j: int| 0 <= j < sd.len() && #[trigger] sd[j].kid() == 1;
    if sd.len() > 2 {
        assert(sd[0].kid() < sd[1].kid() && sd[1].kid() < sd[2].kid());
    }
    assert(sd.len() == 2);
    assert(sd[0].kid() < sd[1].kid());
    assert(sd[0] == SenseSeed::SignalIn { kid: 0 });
    assert(sd[1] == SenseSeed::SignalIn { kid: 1 });
    assert(sd =~= seq![SenseSeed::SignalIn { kid: 0 }, SenseSeed::SignalIn { kid: 1 }]);
    // Paths: only "open".
    reveal_with_fuel(crate::runtime::paths_seen, 5);
    assert(crate::runtime::paths_seen(ks, 4) =~= seq!["open"@]);
    assert(rt.knot_path@[3] < rt.path_names@.len());
}

/// One C10 frame writing the Bools `va` to `key_a` and `vb` to `key_b`:
/// both are accepted and their `Or` is sampled on `open`.
proof fn lemma_c10_frame(
    before: Runtime,
    after: Runtime,
    a: SenseId,
    va: Signal,
    b: SenseId,
    vb: Signal,
    r: Result<(), HandleError>,
)
    requires
        c10_shaped(before),
        after.wf(),
        after.same_tables(&before),
        a.spec_owner() == before.spec_owner(),
        a.spec_index() == 0,
        b.spec_owner() == before.spec_owner(),
        b.spec_index() == 1,
        va == ZERO || va == ONE,
        vb == ZERO || vb == ONE,
        crate::host::frame_ran(before, seq![(a, va), (b, vb)], r, after),
    ensures
        r is Ok,
        c10_shaped(after),
        crate::cookbook::helpers::signal_out_of(after, "open"@) == Some(bool_signal(truthy(va) || truthy(vb))),
{
    let senses = seq![(a, va), (b, vb)];
    assert(crate::host::write_ok(before, senses[0].0, senses[0].1));
    assert(crate::host::write_ok(before, senses[1].0, senses[1].1));
    assert(crate::settle::tables_of(after) == crate::settle::tables_of(before));
    assert(after.spec_path_names() == before.spec_path_names());
    assert(after.spec_knots() == before.spec_knots());
    let sv = after.spec_sense_values();
    assert(sv == crate::host::senses_after(before.spec_sense_values(), senses, 2));
    reveal_with_fuel(crate::host::senses_after, 3);
    assert(sv == before.spec_sense_values().update(0, va).update(1, vb));
    assert(sv[0] == va && sv[1] == vb && sv.len() == 4);
    let d = crate::settle::frame_start(crate::settle::dyn_of(before));
    lemma_c10_settle(crate::settle::tables_of(before), sv, d);
    let out = bool_signal(truthy(va) || truthy(vb));
    assert(after.out_signals@ == seq![SignalOutSample { path: HostPathId { owner: before.spec_owner(), index: 0 }, value: out }]);
    let names = after.spec_path_names();
    assert(crate::validate::names_view(names).len() == 1);
    assert(names.len() == 1);
    assert(names[0]@ == crate::validate::names_view(names)[0]);
    reveal_with_fuel(crate::runtime::find_name_from, 2);
    assert(crate::runtime::find_name(names, "open"@) == Some(0int));
    assert(crate::cookbook::helpers::path_handle(after, "open"@) == Some(HostPathId { owner: before.spec_owner(), index: 0 }));
    reveal_with_fuel(crate::cookbook::helpers::sample_of, 2);
}

/// Topology of C10: either key opens.
pub fn c10_or_any_of_keys_weave() -> (r: Result<Weave, BuildError>)
    ensures
        weave_built(r, "c10"@, c10_knots(), c10_threads()),
{
    let knots = vec![
        knot_def("key_a", KnotKind::signal_in(SignalDomain::Bool)),
        knot_def("key_b", KnotKind::signal_in(SignalDomain::Bool)),
        knot_def("any", KnotKind::or2()),
        knot_def("out", KnotKind::signal_out("open", SignalDomain::Bool)),
    ];
    let threads: &[(&str, &str, &str, &str)] = &[("key_a", "out", "any", "in_0"), ("key_b", "out", "any", "in_1"), ("any", "out", "out", "in")];
    proof {
        assert(knot_shapes(knots@) =~= c10_knots());
        assert(thread_names(threads@) =~= c10_threads());
    }
    build_weave("c10", knots, threads)
}

/// C10: open while either key is held.
#[verifier::rlimit(60)]
pub fn run_c10_or_any_of_keys() -> (r: Result<(), CookbookError>)
    ensures
        r is Ok,
{
    let w = match c10_or_any_of_keys_weave() {
        Ok(w) => w,
        Err(e) => {
            proof {
                lemma_c10_assembled();
                let (ks, ts) = choose|ks: Seq<KnotDef>, ts: Seq<ThreadDef>|
                    #![trigger knot_shapes(ks), threads_named(ts, c10_threads())]
                    knot_shapes(ks) == c10_knots() && threads_named(ts, c10_threads()) && structural_fault(
                        "c10"@,
                        NumericPath::spec_compiled(),
                        ks,
                        ts,
                    ) is Some;
                lemma_c10_valid(ks, ts);
            }
            return Err(CookbookError::Build(e));
        },
    };
    proof {
        lemma_c10_budget(w.spec_knots(), w.spec_threads());
        lemma_c10_knots(w.spec_knots());
    }
    let mut rt = match bind_default(&w) {
        Ok(rt) => rt,
        Err(e) => {
            return Err(CookbookError::Bind(e));
        },
    };
    proof {
        lemma_c10_tables(rt, w, crate::runtime::spec_default_bind_opts());
    }
    let ghost rt0 = rt;
    let a = sense(&rt, "key_a")?;
    let b = sense(&rt, "key_b")?;
    let mut h = ScriptedHost::new();
    let f1 = [(a, ZERO), (b, ZERO)];
    assert(h.pending().push(f1@)[0] == f1@);
    assert(f1@ == seq![(a, ZERO), (b, ZERO)]);
    let r1 = tick_senses(&mut h, &mut rt, &f1);
    let ghost rt1 = rt;
    proof {
        lemma_c10_frame(rt0, rt1, a, ZERO, b, ZERO, r1);
        assert(h.pending() =~= Seq::<Seq<(SenseId, Signal)>>::empty());
    }
    handle_step(r1)?;
    expect_truthy(&rt, "open", false)?;
    let f2 = [(a, ONE), (b, ZERO)];
    assert(h.pending().push(f2@)[0] == f2@);
    assert(f2@ == seq![(a, ONE), (b, ZERO)]);
    let r2 = tick_senses(&mut h, &mut rt, &f2);
    let ghost rt2 = rt;
    proof {
        lemma_c10_frame(rt1, rt2, a, ONE, b, ZERO, r2);
        assert(h.pending() =~= Seq::<Seq<(SenseId, Signal)>>::empty());
    }
    handle_step(r2)?;
    expect_truthy(&rt, "open", true)?;
    let f3 = [(a, ZERO), (b, ONE)];
    assert(h.pending().push(f3@)[0] == f3@);
    assert(f3@ == seq![(a, ZERO), (b, ONE)]);
    let r3 = tick_senses(&mut h, &mut rt, &f3);
    proof {
        lemma_c10_frame(rt2, rt, a, ZERO, b, ONE, r3);
    }
    handle_step(r3)?;
    expect_truthy(&rt, "open", true)
}

} // verus!
