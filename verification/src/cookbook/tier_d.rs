//! Tier D: a chamber-scale puzzle combining several conditions, a latched
//! gate, a continuous bridge target and a one-shot transition request.

use vstd::prelude::*;

use crate::builder::{BFault, BuildError};
use crate::catalog::{FlagPriority, KnotKind, SignalDomain};
use crate::cookbook::helpers::{
    add_fault, assembly_fault, bind_default, build_weave, expect_emits, find_shape, expect_truthy, expect_value, knot_def, knot_shapes, sense, thread_names, tick_senses,
    lemma_add_ok, lemma_scan_adds_skip, weave_built, KnotShape,
};
use crate::cookbook::tier_b::handle_step;
use crate::handles::SenseId;
use crate::host::ScriptedHost;
use crate::runtime::{BindOpts, Runtime};
use crate::runtime_error::CookbookError;
use crate::token::fresh_token_besides;
use crate::signal::{Signal, ONE, ZERO};
use crate::weave::Weave;

verus! {

/// A D01 knot whose id a fault-injection run can make collide.
#[derive(Clone, Copy, Debug, PartialEq, Eq, Structural)]
pub enum D01Knot {
    PlayerOnPad,
    GateOpen,
    BridgeTarget,
    BridgeOut,
    Transition,
}

/// The id of `target`: `default`, or the colliding `crate_on_sun_pad` when
/// `duplicate_at` names it.
pub fn d01_knot_id(duplicate_at: Option<D01Knot>, target: D01Knot, default: &'static str) -> (r: &'static str)
    ensures
        r == (if duplicate_at == Some(target) {
            "crate_on_sun_pad"
        } else {
            default
        }),
{
    match duplicate_at {
        Some(d) => if d == target {
            "crate_on_sun_pad"
        } else {
            default
        },
        None => default,
    }
}

/// The sense written at frame `tick`: the foreign handle when it is the
/// faulty frame and one exists, else `valid`.
pub fn d01_sense_id(valid: SenseId, foreign: Option<SenseId>, invalid_sense_at: Option<u8>, tick: u8) -> (r: SenseId)
    ensures
        r == (match (invalid_sense_at == Some(tick), foreign) {
            (true, Some(f)) => f,
            _ => valid,
        }),
{
    let faulty = match invalid_sense_at {
        Some(t) => t == tick,
        None => false,
    };
    match (faulty, foreign) {
        (true, Some(f)) => f,
        _ => valid,
    }
}

/// D01: the shrine chamber.
pub fn run_d01_shrine_chamber() -> (r: Result<(), CookbookError>) {
    run_d01_shrine_chamber_with(None, None)
}

/// The chamber's five senses, written in one frame.
fn d01_frame(
    h: &mut ScriptedHost,
    rt: &mut crate::runtime::Runtime,
    ids: [SenseId; 5],
    values: [Signal; 5],
) -> (r: Result<(), CookbookError>)
    requires
        old(h).host_wf(),
        old(rt).wf(),
        old(h).spec_tick() < u64::MAX,
        old(h).pending().len() == 0,
    ensures
        final(h).host_wf(),
        final(rt).wf(),
        final(h).pending().len() == 0,
        final(rt).same_tables(old(rt)),
        final(rt).spec_tick() == old(h).spec_tick(),
        r is Ok <==> forall|j: int| 0 <= j < 5 ==> crate::host::write_ok(*old(rt), #[trigger] ids@[j], values@[j]),
        match r {
            Ok(()) => final(rt).spec_phase() == 2 && final(h).spec_tick() == old(h).spec_tick() + 1,
            Err(e) => e is Handle && final(rt).spec_phase() == 1 && final(h).spec_tick() == old(h).spec_tick(),
        },
{
    let senses = [(ids[0], values[0]), (ids[1], values[1]), (ids[2], values[2]), (ids[3], values[3]), (ids[4], values[4])];
    let r = tick_senses(h, rt, &senses);
    proof {
        assert(senses@.len() == 5);
        assert forall|j: int| 0 <= j < 5 implies (#[trigger] senses@[j]).0 == ids@[j] && senses@[j].1 == values@[j] by {}
        if r is Ok {
            assert forall|j: int| 0 <= j < 5 implies crate::host::write_ok(*old(rt), #[trigger] ids@[j], values@[j]) by {
                assert(crate::host::write_ok(*old(rt), senses@[j].0, senses@[j].1));
            }
        } else {
            let j = choose|j: int| 0 <= j < senses@.len() && !crate::host::write_ok(*old(rt), #[trigger] senses@[j].0, senses@[j].1);
            assert(!crate::host::write_ok(*old(rt), ids@[j], values@[j]));
        }
    }
    handle_step(r)
}

/// The id of `target` in spec form: `default`, or `crate_on_sun_pad` when
/// `duplicate_at` names it.
pub open spec fn d01_id(duplicate_at: Option<D01Knot>, target: D01Knot, default: Seq<char>) -> Seq<char> {
    if duplicate_at == Some(target) {
        "crate_on_sun_pad"@
    } else {
        default
    }
}

/// Knots of D01, with one id optionally replaced by a colliding one.
pub open spec fn d01_knots(duplicate_at: Option<D01Knot>) -> Seq<(Seq<char>, KnotShape)> {
    let b = SignalDomain::Bool;
    seq![
        ("crate_on_sun_pad"@, KnotShape::Plain(KnotKind::SignalIn { domain: b })),
        (d01_id(duplicate_at, D01Knot::PlayerOnPad, "player_on_moon_pad"@), KnotShape::Plain(KnotKind::SignalIn { domain: b })),
        ("relic_placed"@, KnotShape::Plain(KnotKind::SignalIn { domain: b })),
        ("pads_ready"@, KnotShape::Plain(KnotKind::And { arity: 2 })),
        ("shrine_ready"@, KnotShape::Plain(KnotKind::And { arity: 2 })),
        ("unlock_edge"@, KnotShape::Plain(KnotKind::RisingFromZero)),
        ("gate_latch"@, KnotShape::Plain(KnotKind::Flag { priority: FlagPriority::ResetWins, enable_toggle: false })),
        (d01_id(duplicate_at, D01Knot::GateOpen, "gate_open"@), KnotShape::Out { path: "shrine.gate.open"@, domain: b }),
        ("bridge_lever"@, KnotShape::Plain(KnotKind::SignalIn { domain: SignalDomain::Level })),
        (d01_id(duplicate_at, D01Knot::BridgeTarget, "bridge_target"@), KnotShape::Plain(KnotKind::MapRange {
            domain: SignalDomain::Level,
            in_min: ZERO,
            in_max: ONE,
            out_min: ZERO,
            out_max: 524288,
        })),
        (d01_id(duplicate_at, D01Knot::BridgeOut, "bridge_out"@), KnotShape::Out { path: "shrine.bridge.target"@, domain: SignalDomain::Level }),
        ("player_at_exit"@, KnotShape::Plain(KnotKind::SignalIn { domain: b })),
        ("exit_ready"@, KnotShape::Plain(KnotKind::And { arity: 2 })),
        ("exit_edge"@, KnotShape::Plain(KnotKind::RisingFromZero)),
        (d01_id(duplicate_at, D01Knot::Transition, "transition"@), KnotShape::Emit { name: "world.request_transition"@ }),
    ]
}

/// Threads of D01.
pub open spec fn d01_threads() -> Seq<(Seq<char>, Seq<char>, Seq<char>, Seq<char>)> {
    seq![
        ("crate_on_sun_pad"@, "out"@, "pads_ready"@, "in_0"@),
        ("player_on_moon_pad"@, "out"@, "pads_ready"@, "in_1"@),
        ("pads_ready"@, "out"@, "shrine_ready"@, "in_0"@),
        ("relic_placed"@, "out"@, "shrine_ready"@, "in_1"@),
        ("shrine_ready"@, "out"@, "unlock_edge"@, "in"@),
        ("unlock_edge"@, "out"@, "gate_latch"@, "set"@),
        ("gate_latch"@, "out"@, "gate_open"@, "in"@),
        ("bridge_lever"@, "out"@, "bridge_target"@, "in"@),
        ("bridge_target"@, "out"@, "bridge_out"@, "in"@),
        ("gate_latch"@, "out"@, "exit_ready"@, "in_0"@),
        ("player_at_exit"@, "out"@, "exit_ready"@, "in_1"@),
        ("exit_ready"@, "out"@, "exit_edge"@, "in"@),
        ("exit_edge"@, "out"@, "transition"@, "trigger"@),
    ]
}

/// The position of `target` among D01's knots.
pub open spec fn d01_index(target: D01Knot) -> int {
    match target {
        D01Knot::PlayerOnPad => 1,
        D01Knot::GateOpen => 7,
        D01Knot::BridgeTarget => 9,
        D01Knot::BridgeOut => 10,
        D01Knot::Transition => 14,
    }
}

/// The refusal of a D01 weave whose knot collides with `crate_on_sun_pad`.
pub open spec fn d01_duplicate_fault() -> BFault {
    BFault::DuplicateKnotId { knot_id: "crate_on_sun_pad"@ }
}

/// A D01 topology with a colliding id is refused at that knot, before any
/// wire or validation.
pub proof fn lemma_d01_duplicate(dup: D01Knot)
    ensures
        assembly_fault("shrine-chamber"@, d01_knots(Some(dup)), d01_threads()) == Some(d01_duplicate_fault()),
{
    reveal_strlit("shrine-chamber");
    reveal_strlit("crate_on_sun_pad");
    reveal_strlit("player_on_moon_pad");
    reveal_strlit("relic_placed");
    reveal_strlit("pads_ready");
    reveal_strlit("shrine_ready");
    reveal_strlit("unlock_edge");
    reveal_strlit("gate_latch");
    reveal_strlit("gate_open");
    reveal_strlit("bridge_lever");
    reveal_strlit("bridge_target");
    reveal_strlit("bridge_out");
    reveal_strlit("player_at_exit");
    reveal_strlit("exit_ready");
    reveal_strlit("exit_edge");
    reveal_strlit("transition");
    let d = d01_knots(Some(dup));
    let n = d01_knots(None);
    let idx = d01_index(dup);
    assert(d.len() == 15 && n.len() == 15);
    // Each default id is told apart from the others by its length and first
    // character.
    assert(n[0].0.len() == 16 && n[0].0[0] == 'c');
    assert(n[1].0.len() == 18 && n[1].0[0] == 'p');
    assert(n[2].0.len() == 12 && n[2].0[0] == 'r');
    assert(n[3].0.len() == 10 && n[3].0[0] == 'p');
    assert(n[4].0.len() == 12 && n[4].0[0] == 's');
    assert(n[5].0.len() == 11 && n[5].0[0] == 'u');
    assert(n[6].0.len() == 10 && n[6].0[0] == 'g');
    assert(n[7].0.len() == 9 && n[7].0[0] == 'g');
    assert(n[8].0.len() == 12 && n[8].0[0] == 'b');
    assert(n[9].0.len() == 13 && n[9].0[0] == 'b');
    assert(n[10].0.len() == 10 && n[10].0[0] == 'b');
    assert(n[11].0.len() == 14 && n[11].0[0] == 'p');
    assert(n[12].0.len() == 10 && n[12].0[0] == 'e');
    assert(n[13].0.len() == 9 && n[13].0[0] == 'e');
    assert(n[14].0.len() == 10 && n[14].0[0] == 't');
    assert forall|i: int| 0 <= i < idx implies #[trigger] d[i] == n[i] by {}
    assert forall|i: int| 0 <= i < idx implies #[trigger] add_fault(d, i) is None by {
        assert forall|j: int| 0 <= j < i implies (#[trigger] d[j]).0 != d[i].0 by {
            assert(d[j] == n[j] && d[i] == n[i]);
            if n[j].0 == n[i].0 {
                assert(n[j].0.len() == n[i].0.len() && n[j].0[0] == n[i].0[0]);
            }
        }
        lemma_add_ok(d, i);
    }
    lemma_scan_adds_skip(d, 0, idx);
    assert(d[idx].0 == "crate_on_sun_pad"@);
    assert(d.subrange(0, idx)[0] == d[0]);
    assert(find_shape(d.subrange(0, idx), "crate_on_sun_pad"@) == Some(0int));
    assert(add_fault(d, idx) == Some(d01_duplicate_fault()));
}

/// D01's weave, every knot under its own id.
pub fn d01_shrine_chamber_weave() -> (r: Result<Weave, BuildError>)
    ensures
        weave_built(r, "shrine-chamber"@, d01_knots(None), d01_threads()),
{
    d01_weave_with(None)
}

/// D01's topology, with one knot id optionally replaced by a colliding one.
fn d01_weave_with(duplicate_at: Option<D01Knot>) -> (r: Result<Weave, BuildError>)
    ensures
        weave_built(r, "shrine-chamber"@, d01_knots(duplicate_at), d01_threads()),
{
    let b = SignalDomain::Bool;
    let knots = vec![
        knot_def("crate_on_sun_pad", KnotKind::signal_in(b)),
        knot_def(d01_knot_id(duplicate_at, D01Knot::PlayerOnPad, "player_on_moon_pad"), KnotKind::signal_in(b)),
        knot_def("relic_placed", KnotKind::signal_in(b)),
        knot_def("pads_ready", KnotKind::and2()),
        knot_def("shrine_ready", KnotKind::and2()),
        knot_def("unlock_edge", KnotKind::rising_from_zero()),
        knot_def("gate_latch", KnotKind::flag(FlagPriority::ResetWins, false)),
        knot_def(d01_knot_id(duplicate_at, D01Knot::GateOpen, "gate_open"), KnotKind::signal_out("shrine.gate.open", b)),
        knot_def("bridge_lever", KnotKind::signal_in(SignalDomain::Level)),
        knot_def(
            d01_knot_id(duplicate_at, D01Knot::BridgeTarget, "bridge_target"),
            KnotKind::map(ZERO, ONE, ZERO, 8 * ONE, SignalDomain::Level),
        ),
        knot_def(
            d01_knot_id(duplicate_at, D01Knot::BridgeOut, "bridge_out"),
            KnotKind::signal_out("shrine.bridge.target", SignalDomain::Level),
        ),
        knot_def("player_at_exit", KnotKind::signal_in(b)),
        knot_def("exit_ready", KnotKind::and2()),
        knot_def("exit_edge", KnotKind::rising_from_zero()),
        knot_def(d01_knot_id(duplicate_at, D01Knot::Transition, "transition"), KnotKind::emit_command("world.request_transition")),
    ];
    let threads: &[(&str, &str, &str, &str)] = &[
        ("crate_on_sun_pad", "out", "pads_ready", "in_0"),
        ("player_on_moon_pad", "out", "pads_ready", "in_1"),
        ("pads_ready", "out", "shrine_ready", "in_0"),
        ("relic_placed", "out", "shrine_ready", "in_1"),
        ("shrine_ready", "out", "unlock_edge", "in"),
        ("unlock_edge", "out", "gate_latch", "set"),
        ("gate_latch", "out", "gate_open", "in"),
        ("bridge_lever", "out", "bridge_target", "in"),
        ("bridge_target", "out", "bridge_out", "in"),
        ("gate_latch", "out", "exit_ready", "in_0"),
        ("player_at_exit", "out", "exit_ready", "in_1"),
        ("exit_ready", "out", "exit_edge", "in"),
        ("exit_edge", "out", "transition", "trigger"),
    ];
    proof {
        assert(knot_shapes(knots@) =~= d01_knots(duplicate_at));
        assert(thread_names(threads@) =~= d01_threads());
    }
    build_weave("shrine-chamber", knots, threads)
}

/// D01 with an optional colliding knot id (a build error) or a foreign
/// sense handle written at one frame (a handle error).
#[verifier::rlimit(100)]
pub fn run_d01_shrine_chamber_with(duplicate_at: Option<D01Knot>, invalid_sense_at: Option<u8>) -> (r: Result<
    (),
    CookbookError,
>)
    ensures
        duplicate_at is Some ==> (r matches Err(CookbookError::Build(e)) && e@ == d01_duplicate_fault()),
        invalid_sense_at matches Some(t) && 1 <= t <= 6 ==> r is Err,
{
    let weave = match d01_weave_with(duplicate_at) {
        Ok(w) => w,
        Err(e) => {
            proof {
                if duplicate_at is Some {
                    lemma_d01_duplicate(duplicate_at->Some_0);
                }
            }
            return Err(CookbookError::Build(e));
        },
    };
    proof {
        if duplicate_at is Some {
            lemma_d01_duplicate(duplicate_at->Some_0);
        }
    }
    let mut rt = bind_default(&weave)?;
    let crate_on_pad = sense(&rt, "crate_on_sun_pad")?;
    let player_on_pad = sense(&rt, "player_on_moon_pad")?;
    let relic_placed = sense(&rt, "relic_placed")?;
    let bridge_lever = sense(&rt, "bridge_lever")?;
    let player_at_exit = sense(&rt, "player_at_exit")?;
    let foreign_sense = match invalid_sense_at {
        Some(_) => {
            let mut fb = Weave::builder("d01-fault")?;
            fb.knot("foreign", KnotKind::signal_in(SignalDomain::Bool))?;
            let foreign_weave = fb.build()?;
            let foreign_rt = Runtime::bind_owned(foreign_weave, BindOpts::default(), fresh_token_besides(rt.owner))?;
            Some(sense(&foreign_rt, "foreign")?)
        },
        None => None,
    };
    let mut h = ScriptedHost::new();
    let others = [player_on_pad, relic_placed, bridge_lever, player_at_exit];
    let ghost owner = rt.spec_owner();
    assert(foreign_sense matches Some(f) ==> f.spec_owner() != owner);

    let c = d01_sense_id(crate_on_pad, foreign_sense, invalid_sense_at, 1);
    d01_frame(&mut h, &mut rt, [c, others[0], others[1], others[2], others[3]], [ZERO, ZERO, ZERO, ZERO, ZERO])?;
    assert(invalid_sense_at != Some(1u8) && rt.spec_owner() == owner);
    expect_truthy(&rt, "shrine.gate.open", false)?;
    expect_value(&rt, "shrine.bridge.target", ZERO)?;
    expect_emits(&rt, "world.request_transition", 0)?;

    let c = d01_sense_id(crate_on_pad, foreign_sense, invalid_sense_at, 2);
    d01_frame(&mut h, &mut rt, [c, others[0], others[1], others[2], others[3]], [ONE, ONE, ZERO, ONE, ZERO])?;
    assert(invalid_sense_at != Some(2u8) && rt.spec_owner() == owner);
    expect_truthy(&rt, "shrine.gate.open", false)?;
    expect_value(&rt, "shrine.bridge.target", 8 * ONE)?;

    let c = d01_sense_id(crate_on_pad, foreign_sense, invalid_sense_at, 3);
    d01_frame(&mut h, &mut rt, [c, others[0], others[1], others[2], others[3]], [ONE, ONE, ONE, ONE, ZERO])?;
    assert(invalid_sense_at != Some(3u8) && rt.spec_owner() == owner);
    expect_truthy(&rt, "shrine.gate.open", true)?;
    expect_emits(&rt, "world.request_transition", 0)?;

    let c = d01_sense_id(crate_on_pad, foreign_sense, invalid_sense_at, 4);
    d01_frame(&mut h, &mut rt, [c, others[0], others[1], others[2], others[3]], [ZERO, ZERO, ZERO, ZERO, ZERO])?;
    assert(invalid_sense_at != Some(4u8) && rt.spec_owner() == owner);
    expect_truthy(&rt, "shrine.gate.open", true)?;
    expect_value(&rt, "shrine.bridge.target", ZERO)?;

    let c = d01_sense_id(crate_on_pad, foreign_sense, invalid_sense_at, 5);
    d01_frame(&mut h, &mut rt, [c, others[0], others[1], others[2], others[3]], [ZERO, ZERO, ZERO, ZERO, ONE])?;
    assert(invalid_sense_at != Some(5u8) && rt.spec_owner() == owner);
    expect_emits(&rt, "world.request_transition", 1)?;

    // Staying at the exit does not repeat the one-shot request.
    let c = d01_sense_id(crate_on_pad, foreign_sense, invalid_sense_at, 6);
    d01_frame(&mut h, &mut rt, [c, others[0], others[1], others[2], others[3]], [ZERO, ZERO, ZERO, ZERO, ONE])?;
    assert(invalid_sense_at != Some(6u8) && rt.spec_owner() == owner);
    expect_emits(&rt, "world.request_transition", 0)
}

} // verus!
