//! Tier B: a reusable pattern, a typed two-plate recipe, and the stateful
//! knots Flag, Counter and Delay.

use vstd::prelude::*;

use crate::builder::BuildError;
use crate::catalog::{CompareOp, FlagPriority, KnotKind, NumericPath, SignalDomain, TimerMode};
use crate::cookbook::helpers::{
    add_fault, assembly_fault, find_shape_from, scan_adds, scan_wires, shape_of, wire_fault,
    bind_default, build_weave, expect_truthy, knot_def, knot_shapes, sense, thread_names, threads_named, tick_senses, weave_built, KnotShape,
};
use crate::cookbook::tier_a::{recipe_failure, scenario_step};
use crate::handles::{HostPathId, SenseId};
use crate::host::ScriptedHost;
use crate::builder::BFault;
use crate::catalog::{port_table, PortDir};
use crate::pattern::{
    export_fault, find_export, find_export_from, has_slash, include_fault, lemma_exports_resolve, pattern_fault, prefixed, renamed_knots,
    renamed_threads, Pattern, PatternDef, PatternExportDef,
};
use crate::validate::{find_knot, find_knot_from, resolve, structural_fault, VFault};
use crate::settle::{clear_ports, eval_dyn, evaluated, gather_dyn, gather_ports, seeded, settle, Dyn, Tables};
use crate::kind_tag::KindTag;
use crate::cookbook::tier_c::lemma_fan_in_depth;
use crate::loom::flag_next;
use crate::signal::{bool_signal, truthy};
use crate::runtime::SenseSeed;
use crate::loom::knot_ports;
use crate::outbox::SignalOutSample;
use crate::signal::Signal;
use crate::runtime::{BindOpts, Runtime};
use crate::runtime_error::{RecipeEndpoint, CookbookError, HandleError, RecipeError, RecipeResolveError};
use crate::recipe::{has_path, has_sense, path_found, resolve_error_is, sense_found, sense_missing, Recipe};
use crate::scenario::Scenario;
use crate::signal::{from_count, ONE, ZERO};
use crate::text::to_owned_string;
use crate::weave::{KnotDef, PortRefDef, ThreadDef, Weave, WeaveDef};

verus! {

/// A rejected sense write as a cookbook failure.
pub fn handle_step(r: Result<(), HandleError>) -> (c: Result<(), CookbookError>)
    ensures
        c is Ok <==> r is Ok,
        r matches Err(e) ==> c == Err::<(), CookbookError>(CookbookError::Handle(e)),
{
    match r {
        Ok(()) => Ok(()),
        Err(e) => Err(CookbookError::Handle(e)),
    }
}

/// Ports of the B02 recipe.
pub struct B02TwoPlateDoorPorts {
    pub plate_a: SenseId,
    pub plate_b: SenseId,
    pub door: HostPathId,
}

/// B02 recipe: the two-plate door.
pub struct B02TwoPlateDoorRecipe;

impl Recipe for B02TwoPlateDoorRecipe {
    type Ports = B02TwoPlateDoorPorts;

    fn weave() -> (r: Result<Weave, BuildError>)
        ensures
            weave_built(r, "door"@, b02_knots(), b02_threads()),
    {
        b02_two_plate_door_weave()
    }

    fn resolve_ports(rt: &Runtime) -> (r: Result<B02TwoPlateDoorPorts, RecipeResolveError>)
        ensures
            match r {
                Ok(p) => sense_found(*rt, "plate_a"@, p.plate_a) && sense_found(*rt, "plate_b"@, p.plate_b) && path_found(*rt, "door.open"@, p.door),
                Err(e) => if !has_sense(*rt, "plate_a"@) {
                    sense_missing(*rt, "plate_a"@, e)
                } else if !has_sense(*rt, "plate_b"@) {
                    sense_missing(*rt, "plate_b"@, e)
                } else {
                    !has_path(*rt, "door.open"@) && resolve_error_is(e, RecipeEndpoint::SignalOut, "door.open"@, None)
                },
            },
    {
        let plate_a = match rt.required_sense("plate_a") {
            Ok(x) => x,
            Err(e) => {
                return Err(e);
            },
        };
        let plate_b = match rt.required_sense("plate_b") {
            Ok(x) => x,
            Err(e) => {
                return Err(e);
            },
        };
        match rt.required_path("door.open") {
            Ok(door) => Ok(B02TwoPlateDoorPorts { plate_a, plate_b, door }),
            Err(e) => Err(e),
        }
    }
}

/// Exports named `(name, inner knot, inner port)`, in order.
pub open spec fn exports_named(es: Seq<PatternExportDef>, names: Seq<(Seq<char>, Seq<char>, Seq<char>)>) -> bool {
    &&& es.len() == names.len()
    &&& forall|j: int|
        0 <= j < es.len() ==> (#[trigger] es[j]).name@ == names[j].0 && es[j].port.knot@ == names[j].1
            && es[j].port.port@ == names[j].2
}

/// The id of the monostable pattern: `pat.mono`, or `pat/mono` when
/// `invalid_id`.
pub open spec fn monostable_id(invalid_id: bool) -> Seq<char> {
    if invalid_id {
        "pat/mono"@
    } else {
        "pat.mono"@
    }
}

/// `d` is the monostable pattern with id `id`: `edge` (rising from zero)
/// feeds the `start` of the two-tick pulse hold `t`; the export `start` is
/// `edge.in` and the export `active` is `t.active`.
pub open spec fn is_monostable_def(d: PatternDef, id: Seq<char>) -> bool {
    &&& d.id@ == id
    &&& d.inner.id@ == id
    &&& d.inner.numeric == NumericPath::spec_compiled()
    &&& knot_shapes(d.inner.knots@) == seq![
        ("edge"@, KnotShape::Plain(KnotKind::RisingFromZero)),
        ("t"@, KnotShape::Plain(KnotKind::Timer { mode: TimerMode::PulseHold, ticks: 2 })),
    ]
    &&& threads_named(d.inner.threads@, seq![("edge"@, "out"@, "t"@, "start"@)])
    &&& exports_named(d.inputs@, seq![("start"@, "edge"@, "in"@)])
    &&& exports_named(d.outputs@, seq![("active"@, "t"@, "active"@)])
}

/// The monostable pattern: a rising edge starts a two-tick pulse hold. Its
/// id is `pat.mono`, or the invalid `pat/mono` when `invalid_id` is set.
pub fn monostable_pattern(invalid_id: bool) -> (r: Result<Pattern, crate::validate::ValidationError>)
    ensures
        match r {
            Ok(p) => is_monostable_def(p.spec_def(), monostable_id(invalid_id)) && pattern_fault(p.spec_def()) is None,
            Err(e) => exists|d: PatternDef| is_monostable_def(d, monostable_id(invalid_id)) && #[trigger] pattern_fault(d) == Some(e@),
        },
        invalid_id ==> r is Err,
{
    proof {
        reveal_strlit("pat/mono");
        assert("pat/mono"@[3] == '/');
    }
    let id = if invalid_id {
        "pat/mono"
    } else {
        "pat.mono"
    };
    let inner = WeaveDef {
        id: to_owned_string(id),
        numeric: crate::catalog::NumericPath::compiled(),
        knots: vec![knot_def("edge", KnotKind::rising_from_zero()), knot_def("t", KnotKind::timer(TimerMode::PulseHold, 2))],
        threads: vec![ThreadDef { from: PortRefDef::new("edge", "out"), to: PortRefDef::new("t", "start") }],
    };
    let def = PatternDef {
        id: to_owned_string(id),
        inner,
        inputs: vec![PatternExportDef::new("start", "edge", "in")],
        outputs: vec![PatternExportDef::new("active", "t", "active")],
    };
    proof {
        assert(knot_shapes(def.inner.knots@) =~= seq![
            ("edge"@, KnotShape::Plain(KnotKind::RisingFromZero)),
            ("t"@, KnotShape::Plain(KnotKind::Timer { mode: TimerMode::PulseHold, ticks: 2 })),
        ]);
        assert(is_monostable_def(def, monostable_id(invalid_id)));
    }
    Pattern::try_from_def(def)
}

/// The knots B01 declares before including its pattern.
pub open spec fn b01_own_knots() -> Seq<(Seq<char>, KnotShape)> {
    seq![
        ("btn"@, KnotShape::Plain(KnotKind::SignalIn { domain: SignalDomain::Bool })),
        ("out"@, KnotShape::Out { path: "lamp"@, domain: SignalDomain::Bool }),
    ]
}

/// Index of the first export at or after `j` of `es` named `name`.
pub open spec fn export_at_from(es: Seq<PatternExportDef>, name: Seq<char>, j: int) -> Option<int>
    decreases es.len() - j,
{
    if j < 0 || j >= es.len() {
        None
    } else if es[j].name@ == name {
        Some(j)
    } else {
        export_at_from(es, name, j + 1)
    }
}

/// Index of the first export of `es` named `name`.
pub open spec fn export_at(es: Seq<PatternExportDef>, name: Seq<char>) -> Option<int> {
    export_at_from(es, name, 0)
}

/// The builder endpoint `(knot, port)` of export `e` of an instance `hold1`.
pub open spec fn hold1_endpoint(e: PatternExportDef) -> (Seq<char>, Seq<char>) {
    (prefixed("hold1"@, e.port.knot@), e.port.port@)
}

/// `ks` and `ts` are B01's graph around the pattern `d`: `btn` and `out`,
/// then `d`'s knots renamed under `hold1`; `d`'s threads renamed, then
/// `btn.out` into the export `start` and the export `active` into `out.in`.
pub open spec fn b01_graph(ks: Seq<KnotDef>, ts: Seq<ThreadDef>, d: PatternDef) -> bool {
    let nt = d.inner.threads@.len();
    let start = hold1_endpoint(d.inputs@[export_at(d.inputs@, "start"@)->Some_0]);
    let active = hold1_endpoint(d.outputs@[export_at(d.outputs@, "active"@)->Some_0]);
    &&& ks.len() >= 2
    &&& knot_shapes(ks.subrange(0, 2)) == b01_own_knots()
    &&& renamed_knots("hold1"@, d.inner.knots@, ks.subrange(2, ks.len() as int))
    &&& ts.len() == nt + 2
    &&& renamed_threads("hold1"@, d.inner.threads@, ts.subrange(0, nt as int))
    &&& threads_named(
        ts.subrange(nt as int, nt + 2int),
        seq![("btn"@, "out"@, start.0, start.1), (active.0, active.1, "out"@, "in"@)],
    )
}

/// `r` is the outcome of authoring B01 around the pattern `d` and
/// validating it: including the pattern may be refused, either export may
/// be missing, and the graph may fail validation.
pub open spec fn b01_built(r: Result<Weave, BuildError>, d: PatternDef) -> bool {
    let c = NumericPath::spec_compiled();
    match r {
        Ok(w) => {
            &&& include_fault(w.spec_knots().subrange(0, 2), c, "hold1"@, d) is None
            &&& export_at(d.inputs@, "start"@) is Some
            &&& export_at(d.outputs@, "active"@) is Some
            &&& w.spec_id() == "lvl"@
            &&& w.spec_numeric() == c
            &&& b01_graph(w.spec_knots(), w.spec_threads(), d)
            &&& structural_fault("lvl"@, c, w.spec_knots(), w.spec_threads()) is None
        },
        Err(e) => exists|ks0: Seq<KnotDef>|
            #[trigger] knot_shapes(ks0) == b01_own_knots() && if include_fault(ks0, c, "hold1"@, d) is Some {
                e@ == include_fault(ks0, c, "hold1"@, d)->Some_0
            } else if export_at(d.inputs@, "start"@) is None {
                e@ == BFault::UnknownExport { instance_id: "hold1"@, export: "start"@, direction: PortDir::In }
            } else if export_at(d.outputs@, "active"@) is None {
                e@ == BFault::UnknownExport { instance_id: "hold1"@, export: "active"@, direction: PortDir::Out }
            } else {
                exists|ks: Seq<KnotDef>, ts: Seq<ThreadDef>|
                    #![trigger b01_graph(ks, ts, d)]
                    ks.subrange(0, 2) == ks0 && b01_graph(ks, ts, d) && structural_fault("lvl"@, c, ks, ts) is Some
                        && e@ == BFault::Validation(structural_fault("lvl"@, c, ks, ts)->Some_0)
            },
    }
}

proof fn lemma_export_at_from<T>(inst: Seq<(String, T)>, es: Seq<PatternExportDef>, name: Seq<char>, j: int)
    requires
        inst.len() == es.len(),
        forall|i: int| 0 <= i < es.len() ==> (#[trigger] inst[i]).0@ == es[i].name@,
    ensures
        find_export_from(inst, name, j) == export_at_from(es, name, j),
    decreases es.len() - j,
{
    if 0 <= j < es.len() && es[j].name@ != name {
        lemma_export_at_from(inst, es, name, j + 1);
    }
}

proof fn lemma_export_at<T>(inst: Seq<(String, T)>, es: Seq<PatternExportDef>, name: Seq<char>)
    requires
        inst.len() == es.len(),
        forall|i: int| 0 <= i < es.len() ==> (#[trigger] inst[i]).0@ == es[i].name@,
    ensures
        find_export(inst, name) == export_at(es, name),
        export_at(es, name) matches Some(j) ==> 0 <= j < es.len() && es[j].name@ == name,
{
    lemma_export_at_from(inst, es, name, 0);
    lemma_export_at_in(es, name, 0);
}

proof fn lemma_export_at_in(es: Seq<PatternExportDef>, name: Seq<char>, j: int)
    requires
        0 <= j,
    ensures
        export_at_from(es, name, j) matches Some(k) ==> j <= k < es.len() && es[k].name@ == name,
    decreases es.len() - j,
{
    if j < es.len() && es[j].name@ != name {
        lemma_export_at_in(es, name, j + 1);
    }
}

/// Topology of B01: a button through the pattern instance `hold1` to `lamp`.
pub fn b01_monostable_pattern_weave(pat: &Pattern) -> (r: Result<Weave, BuildError>)
    ensures
        b01_built(r, pat.spec_def()),
{
    let ghost d = pat.spec_def();
    let ghost inner = d.inner.knots@;
    proof {
        use_type_invariant(pat);
        lemma_exports_resolve(*pat);
        reveal_strlit("lvl");
        reveal_strlit("btn");
        reveal_strlit("out");
        reveal_strlit("in");
        reveal_with_fuel(find_knot_from, 2);
        assert("btn"@[0] != "out"@[0]);
    }
    let mut b = match Weave::builder("lvl") {
        Ok(b) => b,
        Err(e) => {
            proof {
                assert(false);
            }
            return Err(e);
        },
    };
    let btn = match b.knot("btn", KnotKind::signal_in(SignalDomain::Bool)) {
        Ok(k) => k,
        Err(e) => {
            proof {
                assert(false);
            }
            return Err(e);
        },
    };
    let out = match b.knot("out", KnotKind::signal_out("lamp", SignalDomain::Bool)) {
        Ok(k) => k,
        Err(e) => {
            proof {
                assert(false);
            }
            return Err(e);
        },
    };
    let ghost ks0 = b.spec_knots();
    proof {
        assert(knot_shapes(ks0) =~= b01_own_knots());
    }
    let hold = match b.add_pattern("hold1", pat) {
        Ok(h) => h,
        Err(e) => {
            return Err(e);
        },
    };
    let ghost ks1 = b.spec_knots();
    let ghost t0 = b.spec_threads();
    proof {
        lemma_export_at(hold.spec_inputs(), d.inputs@, "start"@);
        lemma_export_at(hold.spec_outputs(), d.outputs@, "active"@);
        assert(ks1[0] == ks0[0] && ks1[1] == ks0[1]) by {
            assert(ks1.subrange(0, 2)[0] == ks1[0]);
            assert(ks1.subrange(0, 2)[1] == ks1[1]);
        }
        assert(t0 =~= t0.subrange(0, t0.len() as int));
    }
    let from = match b.output(&btn, "out") {
        Ok(o) => o,
        Err(e) => {
            proof {
                assert(false);
            }
            return Err(e);
        },
    };
    let to = match hold.input("start") {
        Ok(i) => i,
        Err(e) => {
            return Err(e);
        },
    };
    let ghost si = export_at(d.inputs@, "start"@)->Some_0;
    proof {
        crate::catalog::lemma_find_port(port_table(ks1[0].kind), "out"@);
        assert(hold.spec_inputs()[si].1 == to);
    }
    match b.connect(from, to) {
        Ok(()) => {},
        Err(e) => {
            proof {
                assert(false);
            }
            return Err(e);
        },
    }
    let ghost t1 = b.spec_threads();
    let from2 = match hold.output("active") {
        Ok(o) => o,
        Err(e) => {
            return Err(e);
        },
    };
    let ghost ao = export_at(d.outputs@, "active"@)->Some_0;
    let to2 = match b.input(&out, "in") {
        Ok(i) => i,
        Err(e) => {
            proof {
                assert(false);
            }
            return Err(e);
        },
    };
    proof {
        crate::catalog::lemma_find_port(port_table(ks1[1].kind), "in"@);
        assert(hold.spec_outputs()[ao].1 == from2);
    }
    match b.connect(from2, to2) {
        Ok(()) => {},
        Err(e) => {
            proof {
                assert(false);
            }
            return Err(e);
        },
    }
    proof {
        let ks = b.spec_knots();
        let ts = b.spec_threads();
        let nt = d.inner.threads@.len();
        let ein = d.inputs@[si];
        let eout = d.outputs@[ao];
        let (ki, pi) = resolve(inner, ein.port.knot@, ein.port.port@)->Some_0;
        let (ko, po) = resolve(inner, eout.port.knot@, eout.port.port@)->Some_0;
        assert(export_fault(inner, ein.port.knot@, ein.port.port@, PortDir::In) is None);
        assert(export_fault(inner, eout.port.knot@, eout.port.port@, PortDir::Out) is None);
        crate::validate::lemma_find_knot(inner, ein.port.knot@);
        crate::validate::lemma_find_knot(inner, eout.port.knot@);
        crate::catalog::lemma_find_port(port_table(inner[ki].kind), ein.port.port@);
        crate::catalog::lemma_find_port(port_table(inner[ko].kind), eout.port.port@);
        assert(ks.subrange(2, ks.len() as int)[ki] == ks[2 + ki]);
        assert(ks.subrange(2, ks.len() as int)[ko] == ks[2 + ko]);
        assert(ts.subrange(0, nt as int) =~= t0);
        assert(ts.subrange(nt as int, nt + 2int)[0] == t1.last());
        assert(ts.subrange(nt as int, nt + 2int)[1] == ts.last());
        assert(ks.subrange(0, 2) =~= ks0);
        assert(b01_graph(ks, ts, d));
    }
    match b.build() {
        Ok(w) => Ok(w),
        Err(e) => Err(BuildError::Validation(e)),
    }
}

/// B01: the lamp holds for two frames after a press.
pub fn run_b01_monostable_pattern() -> (r: Result<(), CookbookError>) {
    run_b01_monostable_pattern_with(false)
}

/// The refusal of the monostable pattern under the id `pat/mono`.
pub open spec fn slashed_mono_fault() -> VFault {
    VFault::InvalidPatternId { pattern_id: "pat/mono"@, reason: "must be non-empty and contain no slash"@ }
}

/// B01 with a valid pattern id, or an invalid one whose validation error is
/// returned.
pub fn run_b01_monostable_pattern_with(invalid_pattern_id: bool) -> (r: Result<(), CookbookError>)
    ensures
        invalid_pattern_id ==> (r matches Err(CookbookError::Validation(e)) && e@ == slashed_mono_fault()),
{
    let pat = match monostable_pattern(invalid_pattern_id) {
        Ok(p) => p,
        Err(e) => {
            proof {
                if invalid_pattern_id {
                    let d = choose|d: PatternDef| is_monostable_def(d, monostable_id(true)) && #[trigger] pattern_fault(d) == Some(e@);
                    reveal_strlit("pat/mono");
                    assert("pat/mono"@[3] == '/');
                    assert(has_slash(d.id@));
                }
            }
            return Err(CookbookError::Validation(e));
        },
    };
    let weave = b01_monostable_pattern_weave(&pat)?;
    let mut rt = bind_default(&weave)?;
    let btn = sense(&rt, "btn")?;
    let mut host = ScriptedHost::new();
    handle_step(tick_senses(&mut host, &mut rt, &[(btn, ZERO)]))?;
    expect_truthy(&rt, "lamp", false)?;
    handle_step(tick_senses(&mut host, &mut rt, &[(btn, ONE)]))?;
    expect_truthy(&rt, "lamp", true)?;
    handle_step(tick_senses(&mut host, &mut rt, &[(btn, ZERO)]))?;
    expect_truthy(&rt, "lamp", true)?;
    handle_step(tick_senses(&mut host, &mut rt, &[(btn, ZERO)]))?;
    expect_truthy(&rt, "lamp", false)
}

/// Knots of B02.
pub open spec fn b02_knots() -> Seq<(Seq<char>, KnotShape)> {
    seq![
        ("plate_a"@, KnotShape::Plain(KnotKind::SignalIn { domain: SignalDomain::Bool })),
        ("plate_b"@, KnotShape::Plain(KnotKind::SignalIn { domain: SignalDomain::Bool })),
        ("both"@, KnotShape::Plain(KnotKind::And { arity: 2 })),
        ("door"@, KnotShape::Out { path: "door.open"@, domain: SignalDomain::Bool }),
    ]
}

/// Threads of B02.
pub open spec fn b02_threads() -> Seq<(Seq<char>, Seq<char>, Seq<char>, Seq<char>)> {
    seq![("plate_a"@, "out"@, "both"@, "in_0"@), ("plate_b"@, "out"@, "both"@, "in_1"@), ("both"@, "out"@, "door"@, "in"@)]
}

/// Topology of B02: two plates into `And` into the door request.
pub fn b02_two_plate_door_weave() -> (r: Result<Weave, BuildError>)
    ensures
        weave_built(r, "door"@, b02_knots(), b02_threads()),
{
    let knots = vec![
        knot_def("plate_a", KnotKind::signal_in(SignalDomain::Bool)),
        knot_def("plate_b", KnotKind::signal_in(SignalDomain::Bool)),
        knot_def("both", KnotKind::and2()),
        knot_def("door", KnotKind::signal_out("door.open", SignalDomain::Bool)),
    ];
    let threads: &[(&str, &str, &str, &str)] = &[("plate_a", "out", "both", "in_0"), ("plate_b", "out", "both", "in_1"), ("both", "out", "door", "in")];
    proof {
        assert(knot_shapes(knots@) =~= b02_knots());
        assert(thread_names(threads@) =~= b02_threads());
    }
    build_weave("door", knots, threads)
}

/// B02: the two-plate door through typed recipe handles.
pub fn run_b02_two_plate_door() -> (r: Result<(), CookbookError>) {
    let check = |scenario: &mut Scenario<B02TwoPlateDoorRecipe>|
        requires
            old(scenario).wf(),
        {
            scenario.frame(
                |frame| {
                    frame.set(|ports| ports.plate_a, ONE)?;
                    frame.set(|ports| ports.plate_b, ZERO)
                },
            )?;
            scenario.expect_value(|ports| ports.door, ZERO)?;
            scenario.frame(
                |frame| {
                    frame.set(|ports| ports.plate_a, ONE)?;
                    frame.set(|ports| ports.plate_b, ONE)
                },
            )?;
            scenario.expect_truthy(|ports| ports.door)
        };
    scenario_step(Scenario::<B02TwoPlateDoorRecipe>::run(check))
}

/// Knots of B03.
pub open spec fn b03_knots() -> Seq<(Seq<char>, KnotShape)> {
    seq![
        ("tog"@, KnotShape::Plain(KnotKind::SignalIn { domain: SignalDomain::Bool })),
        ("rst"@, KnotShape::Plain(KnotKind::SignalIn { domain: SignalDomain::Bool })),
        ("flag"@, KnotShape::Plain(KnotKind::Flag { priority: FlagPriority::ResetWins, enable_toggle: true })),
        ("out"@, KnotShape::Out { path: "lamp"@, domain: SignalDomain::Bool }),
    ]
}

/// Threads of B03.
pub open spec fn b03_threads() -> Seq<(Seq<char>, Seq<char>, Seq<char>, Seq<char>)> {
    seq![("tog"@, "out"@, "flag"@, "toggle"@), ("rst"@, "out"@, "flag"@, "reset"@), ("flag"@, "out"@, "out"@, "in"@)]
}

/// The knots of any weave with B03's shapes, as the kinds they must be.
proof fn lemma_b03_knots(ks: Seq<KnotDef>)
    requires
        knot_shapes(ks) == b03_knots(),
    ensures
        ks.len() == 4,
        ks[0].id@ == "tog"@ && ks[1].id@ == "rst"@ && ks[2].id@ == "flag"@ && ks[3].id@ == "out"@,
        ks[0].kind == (KnotKind::SignalIn { domain: SignalDomain::Bool }),
        ks[1].kind == (KnotKind::SignalIn { domain: SignalDomain::Bool }),
        ks[2].kind == (KnotKind::Flag { priority: FlagPriority::ResetWins, enable_toggle: true }),
        ks[3].kind matches KnotKind::SignalOut { path, domain } && path@ == "lamp"@ && domain == SignalDomain::Bool,
{
    assert(knot_shapes(ks).len() == ks.len());
    assert(knot_shapes(ks)[0] == (ks[0].id@, shape_of(ks[0].kind)));
    assert(knot_shapes(ks)[1] == (ks[1].id@, shape_of(ks[1].kind)));
    assert(knot_shapes(ks)[2] == (ks[2].id@, shape_of(ks[2].kind)));
    assert(knot_shapes(ks)[3] == (ks[3].id@, shape_of(ks[3].kind)));
}

/// B03's knots and threads assemble: ids distinct, every thread names
/// known knots and ports of the right direction.
proof fn lemma_b03_assembled()
    ensures
        assembly_fault("f"@, b03_knots(), b03_threads()) is None,
{
    reveal_strlit("f");
    reveal_strlit("tog");
    reveal_strlit("rst");
    reveal_strlit("flag");
    reveal_strlit("out");
    reveal_strlit("in");
    reveal_strlit("toggle");
    reveal_strlit("reset");
    reveal_strlit("set");
    reveal_with_fuel(find_shape_from, 5);
    reveal_with_fuel(crate::catalog::find_port, 5);
    reveal_with_fuel(scan_adds, 5);
    reveal_with_fuel(scan_wires, 4);
    assert("tog"@[0] != "rst"@[0] && "flag"@[0] != "out"@[0] && "toggle"@[0] != "reset"@[0] && "toggle"@[0] != "out"@[0] && "reset"@[0] != "out"@[0] && "set"@[0] != "out"@[0] && "set"@[0] != "toggle"@[0]);
    let d = b03_knots();
    assert(d.subrange(0, 0) =~= Seq::<(Seq<char>, KnotShape)>::empty());
    assert(d.subrange(0, 1) =~= seq![d[0]]);
    assert(d.subrange(0, 2) =~= seq![d[0], d[1]]);
    assert(d.subrange(0, 3) =~= seq![d[0], d[1], d[2]]);
    assert(add_fault(d, 0) is None);
    assert(add_fault(d, 1) is None);
    assert(add_fault(d, 2) is None);
    assert(add_fault(d, 3) is None);
    assert(scan_adds(d, 0) is None);
    let names = b03_threads();
    assert(wire_fault(d, names[0]) is None);
    assert(wire_fault(d, names[1]) is None);
    assert(wire_fault(d, names[2]) is None);
    assert(scan_wires(d, names, 0) is None);
}

/// B03's graph validates: ids distinct, every thread resolves Out to In
/// without fan-in, required inputs fed, no loop, acyclic.
proof fn lemma_b03_valid(ks: Seq<KnotDef>, ts: Seq<ThreadDef>)
    requires
        knot_shapes(ks) == b03_knots(),
        threads_named(ts, b03_threads()),
    ensures
        structural_fault("f"@, NumericPath::spec_compiled(), ks, ts) is None,
{
    reveal_strlit("f");
    reveal_strlit("tog");
    reveal_strlit("rst");
    reveal_strlit("flag");
    reveal_strlit("out");
    reveal_strlit("in");
    reveal_strlit("toggle");
    reveal_strlit("reset");
    reveal_strlit("set");
    reveal_with_fuel(find_knot_from, 5);
    reveal_with_fuel(crate::catalog::find_port, 5);
    reveal_with_fuel(crate::validate::scan_knots, 5);
    reveal_with_fuel(crate::validate::scan_threads, 4);
    reveal_with_fuel(crate::validate::scan_required, 5);
    reveal_with_fuel(crate::validate::scan_ports, 5);
    reveal_with_fuel(crate::validate::scan_self, 4);
    lemma_b03_knots(ks);
    assert("tog"@[0] != "rst"@[0] && "flag"@[0] != "out"@[0] && "toggle"@[0] != "reset"@[0] && "toggle"@[0] != "out"@[0] && "reset"@[0] != "out"@[0] && "set"@[0] != "out"@[0] && "set"@[0] != "toggle"@[0]);
    assert(ts.len() == 3);
    assert(ts[0].from.knot@ == "tog"@ && ts[0].from.port@ == "out"@ && ts[0].to.knot@ == "flag"@ && ts[0].to.port@ == "toggle"@);
    assert(ts[1].from.knot@ == "rst"@ && ts[1].from.port@ == "out"@ && ts[1].to.knot@ == "flag"@ && ts[1].to.port@ == "reset"@);
    assert(ts[2].from.knot@ == "flag"@ && ts[2].from.port@ == "out"@ && ts[2].to.knot@ == "out"@ && ts[2].to.port@ == "in"@);
    assert(find_knot(ks, "tog"@) == Some(0int));
    assert(find_knot(ks, "rst"@) == Some(1int));
    assert(find_knot(ks, "flag"@) == Some(2int));
    assert(find_knot(ks, "out"@) == Some(3int));
    assert(crate::validate::knot_fault(ks, 0) is None);
    assert(crate::validate::knot_fault(ks, 1) is None);
    assert(crate::validate::knot_fault(ks, 2) is None);
    assert(crate::validate::knot_fault(ks, 3) is None);
    assert(crate::validate::scan_knots(ks, 0) is None);
    assert(crate::validate::target_of(ks, ts[0]) == Some((2int, 2int)));
    assert(crate::validate::target_of(ks, ts[1]) == Some((2int, 1int)));
    assert(crate::validate::target_of(ks, ts[2]) == Some((3int, 0int)));
    assert(!crate::validate::earlier_same_target(ks, ts, 0));
    assert(!crate::validate::earlier_same_target(ks, ts, 1));
    assert(!crate::validate::earlier_same_target(ks, ts, 2));
    assert(crate::validate::thread_fault(ks, ts, 0) is None);
    assert(crate::validate::thread_fault(ks, ts, 1) is None);
    assert(crate::validate::thread_fault(ks, ts, 2) is None);
    assert(crate::validate::scan_threads(ks, ts, 0) is None);
    assert(crate::validate::wired(ks, ts, 2, 2));
    assert(crate::validate::wired(ks, ts, 2, 1));
    assert(crate::validate::wired(ks, ts, 3, 0));
    assert(crate::validate::scan_ports(ks, ts, Seq::empty(), 0, 0) is None);
    assert(crate::validate::scan_ports(ks, ts, Seq::empty(), 1, 0) is None);
    assert(crate::validate::scan_ports(ks, ts, Seq::empty(), 2, 0) is None);
    assert(crate::validate::scan_ports(ks, ts, Seq::empty(), 3, 0) is None);
    assert(crate::validate::scan_required(ks, ts, Seq::empty(), 0) is None);
    assert(crate::validate::scan_self(ks, ts, 0) is None);
    let e = crate::validate::knot_edges(ks, ts);
    assert(e[0] == (0usize, 2usize) && e[1] == (1usize, 2usize) && e[2] == (2usize, 3usize));
    assert(crate::graph::is_rank(4, e, seq![0int, 1, 2, 3]));
}

/// B03's graph is within the default budget.
proof fn lemma_b03_budget(ks: Seq<KnotDef>, ts: Seq<ThreadDef>)
    requires
        knot_shapes(ks) == b03_knots(),
        threads_named(ts, b03_threads()),
    ensures
        crate::validate::budget_fault(ks, ts, crate::validate::spec_default_budget()) is None,
        crate::runtime::delay_prefix(ks, 4) <= crate::validate::MAX_DENSE,
{
    lemma_b03_valid(ks, ts);
    lemma_b03_knots(ks);
    reveal_with_fuel(crate::validate::scan_fan_out, 5);
    reveal_with_fuel(crate::validate::out_count, 4);
    reveal_with_fuel(crate::validate::scan_depth, 5);
    reveal_with_fuel(crate::runtime::delay_prefix, 5);
    let e = crate::validate::knot_edges(ks, ts);
    let w = crate::validate::delay_weights(ks);
    reveal_strlit("tog");
    reveal_strlit("rst");
    reveal_strlit("flag");
    reveal_strlit("out");
    reveal_with_fuel(find_knot_from, 5);
    assert("tog"@[0] != "rst"@[0] && "flag"@[0] != "out"@[0]);
    assert(ts.len() == 3);
    assert(find_knot(ks, "tog"@) == Some(0int));
    assert(find_knot(ks, "rst"@) == Some(1int));
    assert(find_knot(ks, "flag"@) == Some(2int));
    assert(find_knot(ks, "out"@) == Some(3int));
    assert(e =~= seq![(0usize, 2usize), (1usize, 2usize), (2usize, 3usize)]);
    assert(w =~= seq![0u16, 0, 0, 0]);
    lemma_fan_in_depth(e, w, 0);
    lemma_fan_in_depth(e, w, 1);
    lemma_fan_in_depth(e, w, 2);
    lemma_fan_in_depth(e, w, 3);
    assert(crate::validate::scan_depth(e, w, crate::validate::spec_default_budget(), 0) is None);
}

/// The flag of B03 after a frame sensing `tog` and `rst`: reset wins, and a
/// rising toggle flips it.
spec fn b03_flag(tog: Signal, rst: Signal, prev: Signal, flag: bool) -> bool {
    flag_next(FlagPriority::ResetWins, false, truthy(rst), !truthy(prev) && truthy(tog), flag)
}

/// One settle of B03's tables: the flag steps on the sensed toggle and
/// reset (its set input unwired), and is sampled on `lamp`.
proof fn lemma_b03_settle(t: Tables, senses: Seq<Signal>, d: Dyn)
    requires
        t.tags.len() == 4,
        t.tags[0] is Sense,
        t.tags[1] is Sense,
        t.tags[2] == (KindTag::Flag { priority: FlagPriority::ResetWins, enable_toggle: true }),
        t.tags[3] is SignalOut,
        t.topo == seq![0u16, 1, 2, 3] || t.topo == seq![1u16, 0, 2, 3],
        t.inbound.len() == 4,
        t.inbound[2]@ == seq![(0u16, 0u8, 2u8), (1u16, 0u8, 1u8)],
        t.inbound[3]@ == seq![(2u16, 3u8, 0u8)],
        t.clear_mask.len() == 32,
        t.clear_mask[16],
        t.sense_seeds == seq![SenseSeed::SignalIn { kid: 0 }, SenseSeed::SignalIn { kid: 1 }],
        t.knot_path.len() == 4,
        t.knot_path[3] == 0,
        d.ports.len() == 32,
        d.prev_in.len() == 4,
        d.flag.len() == 4,
        senses.len() == 4,
    ensures
        ({
            let r = settle(t, senses, d);
            let f = b03_flag(senses[0], senses[1], d.prev_in[2], d.flag[2]);
            &&& r.out_signals == d.out_signals.push(
                SignalOutSample { path: HostPathId { owner: t.owner, index: 0 }, value: bool_signal(f) },
            )
            &&& r.prev_in == d.prev_in.update(2, senses[0])
            &&& r.flag == d.flag.update(2, f)
        }),
{
    let cleared = Dyn { ports: clear_ports(d.ports, t.clear_mask, t.clear_mask.len() as int), ..d };
    assert(cleared.ports.len() == 32 && cleared.ports[16] == ZERO);
    reveal_with_fuel(seeded, 3);
    let s0 = seeded(t, senses, cleared, 2);
    assert(s0.ports == cleared.ports.update(0, senses[0]).update(8, senses[1]));
    assert(s0.out_signals == d.out_signals && s0.prev_in == d.prev_in && s0.flag == d.flag);
    reveal_with_fuel(evaluated, 5);
    assert(evaluated(t, s0, 1) == s0);
    assert(evaluated(t, s0, 2) == s0);
    let g2 = gather_dyn(t, s0, 2);
    reveal_with_fuel(gather_ports, 3);
    assert(g2.ports == s0.ports.update(18, s0.ports[0]).update(17, s0.ports[8]));
    let e3 = evaluated(t, s0, 3);
    assert(e3 == eval_dyn(t, g2, 2));
    let p2 = knot_ports(g2.ports, 2);
    assert(p2[0] == ZERO && p2[1] == senses[1] && p2[2] == senses[0]);
    let f = b03_flag(senses[0], senses[1], d.prev_in[2], d.flag[2]);
    assert(e3.ports[19] == bool_signal(f));
    assert(e3.ports.len() == 32);
    assert(e3.out_signals == d.out_signals);
    assert(e3.prev_in == d.prev_in.update(2, senses[0]));
    assert(e3.flag == d.flag.update(2, f));
    let g3 = gather_dyn(t, e3, 3);
    assert(g3.ports == e3.ports.update(24, e3.ports[19]));
    let e4 = evaluated(t, s0, 4);
    assert(e4 == eval_dyn(t, g3, 3));
    assert(knot_ports(g3.ports, 3)[0] == bool_signal(f));
}

/// A runtime of B03: its tables, its one host path `lamp` and its senses
/// `tog` and `rst`.
spec fn b03_shaped(rt: Runtime) -> bool {
    let t = crate::settle::tables_of(rt);
    &&& rt.wf()
    &&& t.tags.len() == 4
    &&& t.tags[0] is Sense
    &&& t.tags[1] is Sense
    &&& t.tags[2] == (KindTag::Flag { priority: FlagPriority::ResetWins, enable_toggle: true })
    &&& t.tags[3] is SignalOut
    &&& (t.topo == seq![0u16, 1, 2, 3] || t.topo == seq![1u16, 0, 2, 3])
    &&& t.inbound.len() == 4
    &&& t.inbound[2]@ == seq![(0u16, 0u8, 2u8), (1u16, 0u8, 1u8)]
    &&& t.inbound[3]@ == seq![(2u16, 3u8, 0u8)]
    &&& t.clear_mask.len() == 32
    &&& t.clear_mask[16]
    &&& t.sense_seeds == seq![SenseSeed::SignalIn { kid: 0 }, SenseSeed::SignalIn { kid: 1 }]
    &&& t.knot_path.len() == 4
    &&& t.knot_path[3] == 0
    &&& t.owner == rt.spec_owner()
    &&& crate::validate::names_view(rt.spec_path_names()) == seq!["lamp"@]
    &&& rt.spec_knots().len() == 4
    &&& find_knot(rt.spec_knots(), "tog"@) == Some(0int)
    &&& find_knot(rt.spec_knots(), "rst"@) == Some(1int)
    &&& rt.spec_knots()[0].kind == (KnotKind::SignalIn { domain: SignalDomain::Bool })
    &&& rt.spec_knots()[1].kind == (KnotKind::SignalIn { domain: SignalDomain::Bool })
}

/// The tables of every bind of a weave with B03's knots and threads.
proof fn lemma_b03_tables(rt: Runtime, w: Weave, opts: crate::runtime::BindOpts)
    requires
        crate::runtime::bound_from(rt, w, opts),
        knot_shapes(w.spec_knots()) == b03_knots(),
        threads_named(w.spec_threads(), b03_threads()),
    ensures
        b03_shaped(rt),
{
    let ks = w.spec_knots();
    let ts = w.spec_threads();
    lemma_b03_knots(ks);
    lemma_b03_valid(ks, ts);
    reveal_strlit("tog");
    reveal_strlit("rst");
    reveal_strlit("flag");
    reveal_strlit("out");
    reveal_strlit("in");
    reveal_strlit("toggle");
    reveal_strlit("reset");
    reveal_strlit("set");
    reveal_strlit("lamp");
    reveal_with_fuel(find_knot_from, 5);
    assert("tog"@[0] != "rst"@[0] && "flag"@[0] != "out"@[0] && "toggle"@[0] != "reset"@[0] && "toggle"@[0] != "out"@[0] && "reset"@[0] != "out"@[0] && "set"@[0] != "out"@[0] && "set"@[0] != "toggle"@[0]);
    assert(find_knot(ks, "tog"@) == Some(0int));
    assert(find_knot(ks, "rst"@) == Some(1int));
    assert(find_knot(ks, "flag"@) == Some(2int));
    assert(find_knot(ks, "out"@) == Some(3int));
    let th = rt.spec_threads();
    assert(ts.len() == 3);
    reveal_with_fuel(crate::catalog::find_port, 5);
    assert(crate::catalog::find_port(crate::catalog::port_table(ks[2].kind), "toggle"@) == Some(2int));
    assert(crate::catalog::find_port(crate::catalog::port_table(ks[2].kind), "reset"@) == Some(1int));
    assert(crate::catalog::find_port(crate::catalog::port_table(ks[2].kind), "out"@) == Some(3int));
    assert(crate::catalog::find_port(crate::catalog::port_table(ks[3].kind), "in"@) == Some(0int));
    assert(crate::runtime::thread_resolved(ks, ts[0], th[0]));
    assert(crate::runtime::thread_resolved(ks, ts[1], th[1]));
    assert(crate::runtime::thread_resolved(ks, ts[2], th[2]));
    assert(th[0] == (0u16, 0u8, 2u16, 2u8));
    assert(th[1] == (1u16, 0u8, 2u16, 1u8));
    assert(th[2] == (2u16, 3u8, 3u16, 0u8));
    reveal_with_fuel(crate::runtime::into_prefix, 4);
    assert(rt.inbound@[2]@ =~= seq![(0u16, 0u8, 2u8), (1u16, 0u8, 1u8)]);
    assert(rt.inbound@[3]@ =~= seq![(2u16, 3u8, 0u8)]);
    // Tags.
    assert(crate::runtime::tag_refines(rt.tags@[2], ks[2].kind, rt.inbound@[2]@));
    assert(rt.tags@[0] is Sense);
    assert(rt.tags@[1] is Sense);
    assert(rt.tags@[3] is SignalOut);
    // The order: both inputs, then the flag, then the output.
    let tp = rt.topo@;
    assert(tp.len() == 4);
    assert(tp[0] < 4 && tp[1] < 4 && tp[2] < 4 && tp[3] < 4);
    assert(tp[0] != tp[1] && tp[0] != tp[2] && tp[0] != tp[3] && tp[1] != tp[2] && tp[1] != tp[3] && tp[2] != tp[3]);
    assert(th[0].0 != th[0].2 && th[1].0 != th[1].2 && th[2].0 != th[2].2);
    assert(tp =~= seq![0u16, 1, 2, 3] || tp =~= seq![1u16, 0, 2, 3]);
    // Seeds: the two keys, in order.
    let sd = rt.sense_seeds@;
    assert(crate::runtime::seeds_match(sd, ks));
    assert forall|j: int| 0 <= j < sd.len() implies (#[trigger] sd[j]).kid() <= 1 && sd[j] is SignalIn by {
        assert(sd[j].kid() < 4);
    }
    let j0 = choose|j: int| 0 <= j < sd.len() && #[trigger] sd[j].kid() == 0;
    let j1 = choose|j: int| 0 <= j < sd.len() && #[trigger] sd[j].kid() == 1;
    if sd.len() > 2 {
        assert(sd[0].kid() < sd[1].kid() && sd[1].kid() < sd[2].kid());
    }
    assert(sd.len() == 2);
    assert(sd[0].kid() < sd[1].kid());
    assert(sd[0] == SenseSeed::SignalIn { kid: 0 });
    assert(sd[1] == SenseSeed::SignalIn { kid: 1 });
    assert(sd =~= seq![SenseSeed::SignalIn { kid: 0 }, SenseSeed::SignalIn { kid: 1 }]);
    // The set input is left unwired.
    let iv = rt.inbound@.map_values(|v: Vec<(u16, u8, u8)>| v@);
    assert(iv[2] == seq![(0u16, 0u8, 2u8), (1u16, 0u8, 1u8)]);
    assert forall|j: int| 0 <= j < iv[2].len() implies (#[trigger] iv[2][j]).2 != 0 by {}
    assert(crate::runtime::clear_slot(ks, iv, 2, 0));
    assert(crate::runtime::port_index(2, 0) == 16);
    assert(rt.clear_mask@[crate::runtime::port_index(2, 0)]);
    // Paths: only "lamp".
    reveal_with_fuel(crate::runtime::paths_seen, 5);
    assert(crate::runtime::paths_seen(ks, 4) =~= seq!["lamp"@]);
    assert(rt.knot_path@[3] < rt.path_names@.len());
}

/// One B03 frame writing the Bools `vt` to `tog` and `vr` to `rst`: both are
/// accepted, the flag steps, and it is sampled on `lamp`.
proof fn lemma_b03_frame(
    before: Runtime,
    after: Runtime,
    a: SenseId,
    vt: Signal,
    b: SenseId,
    vr: Signal,
    r: Result<(), HandleError>,
)
    requires
        b03_shaped(before),
        after.wf(),
        after.same_tables(&before),
        a.spec_owner() == before.spec_owner(),
        a.spec_index() == 0,
        b.spec_owner() == before.spec_owner(),
        b.spec_index() == 1,
        vt == ZERO || vt == ONE,
        vr == ZERO || vr == ONE,
        crate::host::frame_ran(before, seq![(a, vt), (b, vr)], r, after),
    ensures
        r is Ok,
        b03_shaped(after),
        after.prev_in@[2] == vt,
        after.flag@[2] == b03_flag(vt, vr, before.prev_in@[2], before.flag@[2]),
        crate::cookbook::helpers::signal_out_of(after, "lamp"@) == Some(bool_signal(b03_flag(vt, vr, before.prev_in@[2], before.flag@[2]))),
{
    let senses = seq![(a, vt), (b, vr)];
    assert(crate::host::write_ok(before, senses[0].0, senses[0].1));
    assert(crate::host::write_ok(before, senses[1].0, senses[1].1));
    assert(crate::settle::tables_of(after) == crate::settle::tables_of(before));
    assert(after.spec_path_names() == before.spec_path_names());
    assert(after.spec_knots() == before.spec_knots());
    let sv = after.spec_sense_values();
    assert(sv == crate::host::senses_after(before.spec_sense_values(), senses, 2));
    reveal_with_fuel(crate::host::senses_after, 3);
    assert(sv == before.spec_sense_values().update(0, vt).update(1, vr));
    assert(sv[0] == vt && sv[1] == vr && sv.len() == 4);
    let d = crate::settle::frame_start(crate::settle::dyn_of(before));
    lemma_b03_settle(crate::settle::tables_of(before), sv, d);
    let out = bool_signal(b03_flag(vt, vr, before.prev_in@[2], before.flag@[2]));
    assert(after.out_signals@ == seq![SignalOutSample { path: HostPathId { owner: before.spec_owner(), index: 0 }, value: out }]);
    let names = after.spec_path_names();
    assert(crate::validate::names_view(names).len() == 1);
    assert(names.len() == 1);
    assert(names[0]@ == crate::validate::names_view(names)[0]);
    reveal_with_fuel(crate::runtime::find_name_from, 2);
    assert(crate::runtime::find_name(names, "lamp"@) == Some(0int));
    assert(crate::cookbook::helpers::path_handle(after, "lamp"@) == Some(HostPathId { owner: before.spec_owner(), index: 0 }));
    reveal_with_fuel(crate::cookbook::helpers::sample_of, 2);
}

/// Topology of B03: toggle and reset into a `Flag` into `lamp`.
pub fn b03_flag_toggle_weave() -> (r: Result<Weave, BuildError>)
    ensures
        weave_built(r, "f"@, b03_knots(), b03_threads()),
{
    let knots = vec![
        knot_def("tog", KnotKind::signal_in(SignalDomain::Bool)),
        knot_def("rst", KnotKind::signal_in(SignalDomain::Bool)),
        knot_def("flag", KnotKind::flag(FlagPriority::ResetWins, true)),
        knot_def("out", KnotKind::signal_out("lamp", SignalDomain::Bool)),
    ];
    let threads: &[(&str, &str, &str, &str)] = &[("tog", "out", "flag", "toggle"), ("rst", "out", "flag", "reset"), ("flag", "out", "out", "in")];
    proof {
        assert(knot_shapes(knots@) =~= b03_knots());
        assert(thread_names(threads@) =~= b03_threads());
    }
    build_weave("f", knots, threads)
}

/// B03: a rising toggle sets the flag, holding it does not toggle again,
/// and reset wins.
#[verifier::rlimit(60)]
pub fn run_b03_flag_toggle() -> (r: Result<(), CookbookError>)
    ensures
        r is Ok,
{
    let weave = match b03_flag_toggle_weave() {
        Ok(w) => w,
        Err(e) => {
            proof {
                lemma_b03_assembled();
                let (ks, ts) = choose|ks: Seq<KnotDef>, ts: Seq<ThreadDef>|
                    #![trigger knot_shapes(ks), threads_named(ts, b03_threads())]
                    knot_shapes(ks) == b03_knots() && threads_named(ts, b03_threads()) && structural_fault(
                        "f"@,
                        NumericPath::spec_compiled(),
                        ks,
                        ts,
                    ) is Some;
                lemma_b03_valid(ks, ts);
            }
            return Err(CookbookError::Build(e));
        },
    };
    proof {
        lemma_b03_budget(weave.spec_knots(), weave.spec_threads());
        lemma_b03_knots(weave.spec_knots());
    }
    let mut rt = match bind_default(&weave) {
        Ok(rt) => rt,
        Err(e) => {
            return Err(CookbookError::Bind(e));
        },
    };
    proof {
        lemma_b03_tables(rt, weave, crate::runtime::spec_default_bind_opts());
        assert(rt.prev_in@[2] == ZERO && !rt.flag@[2]);
    }
    let ghost rt0 = rt;
    let tog = sense(&rt, "tog")?;
    let rst = sense(&rt, "rst")?;
    let mut host = ScriptedHost::new();
    let f1 = [(tog, ONE), (rst, ZERO)];
    assert(host.pending().push(f1@)[0] == f1@);
    assert(f1@ == seq![(tog, ONE), (rst, ZERO)]);
    let r1 = tick_senses(&mut host, &mut rt, &f1);
    let ghost rt1 = rt;
    proof {
        lemma_b03_frame(rt0, rt1, tog, ONE, rst, ZERO, r1);
        assert(host.pending() =~= Seq::<Seq<(SenseId, Signal)>>::empty());
    }
    handle_step(r1)?;
    expect_truthy(&rt, "lamp", true)?;
    assert(host.pending().push(f1@)[0] == f1@);
    let r2 = tick_senses(&mut host, &mut rt, &f1);
    let ghost rt2 = rt;
    proof {
        lemma_b03_frame(rt1, rt2, tog, ONE, rst, ZERO, r2);
        assert(host.pending() =~= Seq::<Seq<(SenseId, Signal)>>::empty());
    }
    handle_step(r2)?;
    expect_truthy(&rt, "lamp", true)?;
    let f3 = [(tog, ZERO), (rst, ONE)];
    assert(host.pending().push(f3@)[0] == f3@);
    assert(f3@ == seq![(tog, ZERO), (rst, ONE)]);
    let r3 = tick_senses(&mut host, &mut rt, &f3);
    proof {
        lemma_b03_frame(rt2, rt, tog, ZERO, rst, ONE, r3);
    }
    handle_step(r3)?;
    expect_truthy(&rt, "lamp", false)
}

/// Knots of B04.
pub open spec fn b04_knots() -> Seq<(Seq<char>, KnotShape)> {
    seq![
        ("inc"@, KnotShape::Plain(KnotKind::SignalIn { domain: SignalDomain::Bool })),
        ("cnt"@, KnotShape::Plain(KnotKind::Counter)),
        ("cmp"@, KnotShape::Plain(KnotKind::Compare { domain: SignalDomain::Count, op: CompareOp::Gte, rhs_const: Some(2) })),
        ("out"@, KnotShape::Out { path: "ready"@, domain: SignalDomain::Bool }),
    ]
}

/// Threads of B04.
pub open spec fn b04_threads() -> Seq<(Seq<char>, Seq<char>, Seq<char>, Seq<char>)> {
    seq![("inc"@, "out"@, "cnt"@, "inc"@), ("cnt"@, "count"@, "cmp"@, "lhs"@), ("cmp"@, "out"@, "out"@, "in"@)]
}

/// Along a four-knot chain every path steps to the next knot, and visits
/// only the chain's knots.
proof fn lemma_chain4_path(e: crate::graph::Edges, p: Seq<usize>)
    requires
        e == seq![(0usize, 1usize), (1usize, 2usize), (2usize, 3usize)],
        crate::graph::is_path(e, p),
        p.last() < 4,
    ensures
        p.len() - 1 <= p.last(),
        forall|i: int| 0 <= i < p.len() ==> #[trigger] p[i] < 4,
    decreases p.len(),
{
    if p.len() >= 2 {
        let q = p.drop_last();
        assert(crate::graph::is_path(e, q)) by {
            assert forall|i: int| 0 <= i < q.len() - 1 implies crate::graph::has_edge(e, #[trigger] q[i], q[i + 1]) by {
                assert(crate::graph::has_edge(e, p[i], p[i + 1]));
            }
        }
        let i = p.len() - 2;
        assert(crate::graph::has_edge(e, p[i], p[i + 1]));
        let k = choose|k: int| 0 <= k < e.len() && #[trigger] e[k] == (p[i], p[i + 1]);
        assert(q.last() == p[i]);
        lemma_chain4_path(e, q);
        assert forall|j: int| 0 <= j < p.len() implies #[trigger] p[j] < 4 by {
            if j < p.len() - 1 {
                assert(p[j] == q[j]);
            }
        }
    }
}

/// The longest path and the heaviest delay sum into knot `v` of a
/// delay-free four-knot chain.
proof fn lemma_chain4_depth(e: crate::graph::Edges, w: Seq<u16>, v: usize)
    requires
        e == seq![(0usize, 1usize), (1usize, 2usize), (2usize, 3usize)],
        w == seq![0u16, 0, 0, 0],
        v < 4,
    ensures
        crate::validate::longest(e, v) == v,
        crate::validate::heaviest(e, w, v) == 0,
{
    let full = Seq::new((v + 1) as nat, |i: int| i as usize);
    assert(crate::graph::is_path(e, full)) by {
        assert forall|i: int| 0 <= i < full.len() - 1 implies crate::graph::has_edge(e, #[trigger] full[i], full[i + 1]) by {
            assert(e[i] == (full[i], full[i + 1]));
        }
    }
    assert forall|i: int| 0 <= i < full.len() implies #[trigger] full[i] < 4 by {}
    crate::cookbook::tier_c::lemma_fan_in_weight(w, full);
    assert forall|p: Seq<usize>| #[trigger] crate::graph::is_path(e, p) && p.last() == v implies p.len() - 1 <= v
        && crate::graph::path_weight(w, p) <= 0 by {
        lemma_chain4_path(e, p);
        crate::cookbook::tier_c::lemma_fan_in_weight(w, p);
    }
    assert(crate::graph::longest_path_to(e, v, v as nat));
    assert(crate::graph::heaviest_path_to(e, w, v, 0));
    crate::validate::lemma_longest_is(e, v, v as nat);
    crate::validate::lemma_heaviest_is(e, w, v, 0);
}

/// The knots of any weave with B04's shapes, as the kinds they must be.
proof fn lemma_b04_knots(ks: Seq<KnotDef>)
    requires
        knot_shapes(ks) == b04_knots(),
    ensures
        ks.len() == 4,
        ks[0].id@ == "inc"@ && ks[1].id@ == "cnt"@ && ks[2].id@ == "cmp"@ && ks[3].id@ == "out"@,
        ks[0].kind == (KnotKind::SignalIn { domain: SignalDomain::Bool }),
        ks[1].kind == KnotKind::Counter,
        ks[2].kind == (KnotKind::Compare { domain: SignalDomain::Count, op: CompareOp::Gte, rhs_const: Some(2) }),
        ks[3].kind matches KnotKind::SignalOut { path, domain } && path@ == "ready"@ && domain == SignalDomain::Bool,
{
    assert(knot_shapes(ks).len() == ks.len());
    assert(knot_shapes(ks)[0] == (ks[0].id@, shape_of(ks[0].kind)));
    assert(knot_shapes(ks)[1] == (ks[1].id@, shape_of(ks[1].kind)));
    assert(knot_shapes(ks)[2] == (ks[2].id@, shape_of(ks[2].kind)));
    assert(knot_shapes(ks)[3] == (ks[3].id@, shape_of(ks[3].kind)));
}

/// B04's knots and threads assemble: ids distinct, every thread names
/// known knots and ports of the right direction.
proof fn lemma_b04_assembled()
    ensures
        assembly_fault("c"@, b04_knots(), b04_threads()) is None,
{
    reveal_strlit("c");
    reveal_strlit("inc");
    reveal_strlit("cnt");
    reveal_strlit("cmp");
    reveal_strlit("out");
    reveal_strlit("in");
    reveal_strlit("count");
    reveal_strlit("lhs");
    reveal_strlit("rhs");
    reveal_strlit("dec");
    reveal_strlit("reset");
    reveal_with_fuel(find_shape_from, 5);
    reveal_with_fuel(crate::catalog::find_port, 5);
    reveal_with_fuel(scan_adds, 5);
    reveal_with_fuel(scan_wires, 4);
    assert("inc"@[0] != "cnt"@[0] && "inc"@[0] != "cmp"@[0] && "cnt"@[1] != "cmp"@[1] && "cmp"@[0] != "out"@[0] && "inc"@[0] != "out"@[0] && "cnt"@[0] != "out"@[0] && "count"@[0] != "inc"@[0] && "count"@[0] != "dec"@[0] && "count"@[0] != "reset"@[0] && "lhs"@[0] != "out"@[0] && "rhs"@[0] != "out"@[0] && "lhs"@[0] != "rhs"@[0]);
    let d = b04_knots();
    assert(d.subrange(0, 0) =~= Seq::<(Seq<char>, KnotShape)>::empty());
    assert(d.subrange(0, 1) =~= seq![d[0]]);
    assert(d.subrange(0, 2) =~= seq![d[0], d[1]]);
    assert(d.subrange(0, 3) =~= seq![d[0], d[1], d[2]]);
    assert(add_fault(d, 0) is None);
    assert(add_fault(d, 1) is None);
    assert(add_fault(d, 2) is None);
    assert(add_fault(d, 3) is None);
    assert(scan_adds(d, 0) is None);
    let names = b04_threads();
    assert(wire_fault(d, names[0]) is None);
    assert(wire_fault(d, names[1]) is None);
    assert(wire_fault(d, names[2]) is None);
    assert(scan_wires(d, names, 0) is None);
}

/// B04's graph validates: ids distinct, every thread resolves Out to In
/// without fan-in, required inputs fed, no loop, acyclic.
proof fn lemma_b04_valid(ks: Seq<KnotDef>, ts: Seq<ThreadDef>)
    requires
        knot_shapes(ks) == b04_knots(),
        threads_named(ts, b04_threads()),
    ensures
        structural_fault("c"@, NumericPath::spec_compiled(), ks, ts) is None,
{
    reveal_strlit("c");
    reveal_strlit("inc");
    reveal_strlit("cnt");
    reveal_strlit("cmp");
    reveal_strlit("out");
    reveal_strlit("in");
    reveal_strlit("count");
    reveal_strlit("lhs");
    reveal_strlit("rhs");
    reveal_strlit("dec");
    reveal_strlit("reset");
    reveal_with_fuel(find_knot_from, 5);
    reveal_with_fuel(crate::catalog::find_port, 5);
    reveal_with_fuel(crate::validate::scan_knots, 5);
    reveal_with_fuel(crate::validate::scan_threads, 4);
    reveal_with_fuel(crate::validate::scan_required, 5);
    reveal_with_fuel(crate::validate::scan_ports, 5);
    reveal_with_fuel(crate::validate::scan_self, 4);
    lemma_b04_knots(ks);
    assert("inc"@[0] != "cnt"@[0] && "inc"@[0] != "cmp"@[0] && "cnt"@[1] != "cmp"@[1] && "cmp"@[0] != "out"@[0] && "inc"@[0] != "out"@[0] && "cnt"@[0] != "out"@[0] && "count"@[0] != "inc"@[0] && "count"@[0] != "dec"@[0] && "count"@[0] != "reset"@[0] && "lhs"@[0] != "out"@[0] && "rhs"@[0] != "out"@[0] && "lhs"@[0] != "rhs"@[0]);
    assert(ts.len() == 3);
    assert(ts[0].from.knot@ == "inc"@ && ts[0].from.port@ == "out"@ && ts[0].to.knot@ == "cnt"@ && ts[0].to.port@ == "inc"@);
    assert(ts[1].from.knot@ == "cnt"@ && ts[1].from.port@ == "count"@ && ts[1].to.knot@ == "cmp"@ && ts[1].to.port@ == "lhs"@);
    assert(ts[2].from.knot@ == "cmp"@ && ts[2].from.port@ == "out"@ && ts[2].to.knot@ == "out"@ && ts[2].to.port@ == "in"@);
    assert(find_knot(ks, "inc"@) == Some(0int));
    assert(find_knot(ks, "cnt"@) == Some(1int));
    assert(find_knot(ks, "cmp"@) == Some(2int));
    assert(find_knot(ks, "out"@) == Some(3int));
    assert(crate::validate::knot_fault(ks, 0) is None);
    assert(crate::validate::knot_fault(ks, 1) is None);
    assert(crate::validate::knot_fault(ks, 2) is None);
    assert(crate::validate::knot_fault(ks, 3) is None);
    assert(crate::validate::scan_knots(ks, 0) is None);
    assert(crate::validate::target_of(ks, ts[0]) == Some((1int, 0int)));
    assert(crate::validate::target_of(ks, ts[1]) == Some((2int, 0int)));
    assert(crate::validate::target_of(ks, ts[2]) == Some((3int, 0int)));
    assert(!crate::validate::earlier_same_target(ks, ts, 0));
    assert(!crate::validate::earlier_same_target(ks, ts, 1));
    assert(!crate::validate::earlier_same_target(ks, ts, 2));
    assert(crate::validate::thread_fault(ks, ts, 0) is None);
    assert(crate::validate::thread_fault(ks, ts, 1) is None);
    assert(crate::validate::thread_fault(ks, ts, 2) is None);
    assert(crate::validate::scan_threads(ks, ts, 0) is None);
    assert(crate::validate::wired(ks, ts, 1, 0));
    assert(crate::validate::wired(ks, ts, 2, 0));
    assert(crate::validate::wired(ks, ts, 3, 0));
    assert(crate::validate::scan_ports(ks, ts, Seq::empty(), 0, 0) is None);
    assert(crate::validate::scan_ports(ks, ts, Seq::empty(), 1, 0) is None);
    assert(crate::validate::scan_ports(ks, ts, Seq::empty(), 2, 0) is None);
    assert(crate::validate::scan_ports(ks, ts, Seq::empty(), 3, 0) is None);
    assert(crate::validate::scan_required(ks, ts, Seq::empty(), 0) is None);
    assert(crate::validate::scan_self(ks, ts, 0) is None);
    let e = crate::validate::knot_edges(ks, ts);
    assert(e[0] == (0usize, 1usize) && e[1] == (1usize, 2usize) && e[2] == (2usize, 3usize));
    assert(crate::graph::is_rank(4, e, seq![0int, 1, 2, 3]));
}

/// B04's graph is within the default budget.
proof fn lemma_b04_budget(ks: Seq<KnotDef>, ts: Seq<ThreadDef>)
    requires
        knot_shapes(ks) == b04_knots(),
        threads_named(ts, b04_threads()),
    ensures
        crate::validate::budget_fault(ks, ts, crate::validate::spec_default_budget()) is None,
        crate::runtime::delay_prefix(ks, 4) <= crate::validate::MAX_DENSE,
{
    lemma_b04_valid(ks, ts);
    lemma_b04_knots(ks);
    reveal_with_fuel(crate::validate::scan_fan_out, 5);
    reveal_with_fuel(crate::validate::out_count, 4);
    reveal_with_fuel(crate::validate::scan_depth, 5);
    reveal_with_fuel(crate::runtime::delay_prefix, 5);
    let e = crate::validate::knot_edges(ks, ts);
    let w = crate::validate::delay_weights(ks);
    reveal_strlit("inc");
    reveal_strlit("cnt");
    reveal_strlit("cmp");
    reveal_strlit("out");
    reveal_with_fuel(find_knot_from, 5);
    assert("inc"@[0] != "cnt"@[0] && "inc"@[0] != "cmp"@[0] && "cnt"@[1] != "cmp"@[1] && "cmp"@[0] != "out"@[0] && "inc"@[0] != "out"@[0] && "cnt"@[0] != "out"@[0]);
    assert(ts.len() == 3);
    assert(find_knot(ks, "inc"@) == Some(0int));
    assert(find_knot(ks, "cnt"@) == Some(1int));
    assert(find_knot(ks, "cmp"@) == Some(2int));
    assert(find_knot(ks, "out"@) == Some(3int));
    assert(e =~= seq![(0usize, 1usize), (1usize, 2usize), (2usize, 3usize)]);
    assert(w =~= seq![0u16, 0, 0, 0]);
    lemma_chain4_depth(e, w, 0);
    lemma_chain4_depth(e, w, 1);
    lemma_chain4_depth(e, w, 2);
    lemma_chain4_depth(e, w, 3);
    assert(crate::validate::scan_depth(e, w, crate::validate::spec_default_budget(), 0) is None);
}

/// The count of B04 after a frame sensing `v`: one more on a rising input.
spec fn b04_count(v: Signal, prev: Signal, c: i32) -> i32 {
    if !truthy(prev) && truthy(v) {
        crate::signal::sat(c + 1)
    } else {
        c
    }
}

/// One settle of B04's tables: the counter steps on the sensed value (its
/// decrement and reset unwired), and its comparison with 2 is sampled on
/// `ready`.
proof fn lemma_b04_settle(t: Tables, senses: Seq<Signal>, d: Dyn)
    requires
        t.tags.len() == 4,
        t.tags[0] is Sense,
        t.tags[1] == KindTag::Counter,
        t.tags[2] == (KindTag::Compare { op: CompareOp::Gte, rhs_const: Some(2) }),
        t.tags[3] is SignalOut,
        t.topo == seq![0u16, 1, 2, 3],
        t.inbound.len() == 4,
        t.inbound[1]@ == seq![(0u16, 0u8, 0u8)],
        t.inbound[2]@ == seq![(1u16, 3u8, 0u8)],
        t.inbound[3]@ == seq![(2u16, 2u8, 0u8)],
        t.clear_mask.len() == 32,
        t.clear_mask[9] && t.clear_mask[10],
        t.sense_seeds == seq![SenseSeed::SignalIn { kid: 0 }],
        t.knot_path.len() == 4,
        t.knot_path[3] == 0,
        d.ports.len() == 32,
        d.prev_in.len() == 4,
        d.counter.len() == 4,
        senses.len() == 4,
    ensures
        ({
            let r = settle(t, senses, d);
            let c = b04_count(senses[0], d.prev_in[1], d.counter[1]);
            &&& r.out_signals == d.out_signals.push(
                SignalOutSample { path: HostPathId { owner: t.owner, index: 0 }, value: bool_signal(c >= 2) },
            )
            &&& r.prev_in[1] == senses[0]
            &&& r.counter[1] == c
            &&& r.prev_in.len() == 4
            &&& r.counter.len() == 4
        }),
{
    let v = senses[0];
    let cleared = Dyn { ports: clear_ports(d.ports, t.clear_mask, t.clear_mask.len() as int), ..d };
    assert(cleared.ports.len() == 32 && cleared.ports[9] == ZERO && cleared.ports[10] == ZERO);
    reveal_with_fuel(seeded, 2);
    let s0 = seeded(t, senses, cleared, 1);
    assert(s0.ports == cleared.ports.update(0, v));
    assert(s0.out_signals == d.out_signals && s0.prev_in == d.prev_in && s0.counter == d.counter);
    reveal_with_fuel(evaluated, 5);
    assert(evaluated(t, s0, 1) == s0);
    let g1 = gather_dyn(t, s0, 1);
    reveal_with_fuel(gather_ports, 2);
    assert(g1.ports == s0.ports.update(8, s0.ports[0]));
    let e2 = evaluated(t, s0, 2);
    assert(e2 == eval_dyn(t, g1, 1));
    let p1 = knot_ports(g1.ports, 1);
    assert(p1[0] == v && p1[1] == ZERO && p1[2] == ZERO);
    let c = b04_count(v, d.prev_in[1], d.counter[1]);
    assert(e2.ports[11] == c);
    assert(e2.ports.len() == 32);
    assert(e2.out_signals == d.out_signals);
    assert(e2.prev_in[1] == v && e2.counter[1] == c);
    let g2 = gather_dyn(t, e2, 2);
    assert(g2.ports == e2.ports.update(16, e2.ports[11]));
    let e3 = evaluated(t, s0, 3);
    assert(e3 == eval_dyn(t, g2, 2));
    assert(knot_ports(g2.ports, 2)[0] == c);
    assert(e3.ports[18] == bool_signal(c >= 2));
    assert(e3.ports.len() == 32);
    assert(e3.out_signals == d.out_signals);
    assert(e3.prev_in == e2.prev_in && e3.counter == e2.counter);
    let g3 = gather_dyn(t, e3, 3);
    assert(g3.ports == e3.ports.update(24, e3.ports[18]));
    let e4 = evaluated(t, s0, 4);
    assert(e4 == eval_dyn(t, g3, 3));
    assert(knot_ports(g3.ports, 3)[0] == bool_signal(c >= 2));
}

/// A runtime of B04: its tables, its one host path `ready` and its sense
/// `inc`.
spec fn b04_shaped(rt: Runtime) -> bool {
    let t = crate::settle::tables_of(rt);
    &&& rt.wf()
    &&& t.tags.len() == 4
    &&& t.tags[0] is Sense
    &&& t.tags[1] == KindTag::Counter
    &&& t.tags[2] == (KindTag::Compare { op: CompareOp::Gte, rhs_const: Some(2) })
    &&& t.tags[3] is SignalOut
    &&& t.topo == seq![0u16, 1, 2, 3]
    &&& t.inbound.len() == 4
    &&& t.inbound[1]@ == seq![(0u16, 0u8, 0u8)]
    &&& t.inbound[2]@ == seq![(1u16, 3u8, 0u8)]
    &&& t.inbound[3]@ == seq![(2u16, 2u8, 0u8)]
    &&& t.clear_mask.len() == 32
    &&& t.clear_mask[9] && t.clear_mask[10]
    &&& t.sense_seeds == seq![SenseSeed::SignalIn { kid: 0 }]
    &&& t.knot_path.len() == 4
    &&& t.knot_path[3] == 0
    &&& t.owner == rt.spec_owner()
    &&& crate::validate::names_view(rt.spec_path_names()) == seq!["ready"@]
    &&& rt.spec_knots().len() == 4
    &&& find_knot(rt.spec_knots(), "inc"@) == Some(0int)
    &&& rt.spec_knots()[0].kind == (KnotKind::SignalIn { domain: SignalDomain::Bool })
}

/// The tables of every bind of a weave with B04's knots and threads.
proof fn lemma_b04_tables(rt: Runtime, w: Weave, opts: crate::runtime::BindOpts)
    requires
        crate::runtime::bound_from(rt, w, opts),
        knot_shapes(w.spec_knots()) == b04_knots(),
        threads_named(w.spec_threads(), b04_threads()),
    ensures
        b04_shaped(rt),
{
    let ks = w.spec_knots();
    let ts = w.spec_threads();
    lemma_b04_knots(ks);
    lemma_b04_valid(ks, ts);
    reveal_strlit("inc");
    reveal_strlit("cnt");
    reveal_strlit("cmp");
    reveal_strlit("out");
    reveal_strlit("in");
    reveal_strlit("count");
    reveal_strlit("lhs");
    reveal_strlit("rhs");
    reveal_strlit("dec");
    reveal_strlit("reset");
    reveal_strlit("ready");
    reveal_with_fuel(find_knot_from, 5);
    assert("inc"@[0] != "cnt"@[0] && "inc"@[0] != "cmp"@[0] && "cnt"@[1] != "cmp"@[1] && "cmp"@[0] != "out"@[0] && "inc"@[0] != "out"@[0] && "cnt"@[0] != "out"@[0] && "count"@[0] != "inc"@[0] && "count"@[0] != "dec"@[0] && "count"@[0] != "reset"@[0] && "lhs"@[0] != "out"@[0] && "rhs"@[0] != "out"@[0] && "lhs"@[0] != "rhs"@[0]);
    assert(find_knot(ks, "inc"@) == Some(0int));
    assert(find_knot(ks, "cnt"@) == Some(1int));
    assert(find_knot(ks, "cmp"@) == Some(2int));
    assert(find_knot(ks, "out"@) == Some(3int));
    let th = rt.spec_threads();
    assert(ts.len() == 3);
    reveal_with_fuel(crate::catalog::find_port, 5);
    assert(crate::catalog::find_port(crate::catalog::port_table(ks[1].kind), "inc"@) == Some(0int));
    assert(crate::catalog::find_port(crate::catalog::port_table(ks[1].kind), "count"@) == Some(3int));
    assert(crate::catalog::find_port(crate::catalog::port_table(ks[2].kind), "lhs"@) == Some(0int));
    assert(crate::catalog::find_port(crate::catalog::port_table(ks[2].kind), "out"@) == Some(2int));
    assert(crate::catalog::find_port(crate::catalog::port_table(ks[3].kind), "in"@) == Some(0int));
    assert(crate::runtime::thread_resolved(ks, ts[0], th[0]));
    assert(crate::runtime::thread_resolved(ks, ts[1], th[1]));
    assert(crate::runtime::thread_resolved(ks, ts[2], th[2]));
    assert(th[0] == (0u16, 0u8, 1u16, 0u8));
    assert(th[1] == (1u16, 3u8, 2u16, 0u8));
    assert(th[2] == (2u16, 2u8, 3u16, 0u8));
    reveal_with_fuel(crate::runtime::into_prefix, 4);
    assert(rt.inbound@[1]@ =~= seq![(0u16, 0u8, 0u8)]);
    assert(rt.inbound@[2]@ =~= seq![(1u16, 3u8, 0u8)]);
    assert(rt.inbound@[3]@ =~= seq![(2u16, 2u8, 0u8)]);
    // Tags.
    assert(crate::runtime::tag_refines(rt.tags@[1], ks[1].kind, rt.inbound@[1]@));
    assert(crate::runtime::tag_refines(rt.tags@[2], ks[2].kind, rt.inbound@[2]@));
    assert(rt.tags@[0] is Sense);
    assert(rt.tags@[3] is SignalOut);
    // The order: the chain itself.
    let tp = rt.topo@;
    assert(tp.len() == 4);
    assert(tp[0] < 4 && tp[1] < 4 && tp[2] < 4 && tp[3] < 4);
    assert(tp[0] != tp[1] && tp[0] != tp[2] && tp[0] != tp[3] && tp[1] != tp[2] && tp[1] != tp[3] && tp[2] != tp[3]);
    assert(th[0].0 != th[0].2 && th[1].0 != th[1].2 && th[2].0 != th[2].2);
    assert(tp =~= seq![0u16, 1, 2, 3]);
    // Seeds: only knot 0 is seeded.
    let sd = rt.sense_seeds@;
    assert(crate::runtime::seeds_match(sd, ks));
    assert forall|j: int| 0 <= j < sd.len() implies (#[trigger] sd[j]).kid() == 0 by {
        assert(sd[j].kid() < 4);
    }
    let j0 = choose|j: int| 0 <= j < sd.len() && #[trigger] sd[j].kid() == 0;
    if sd.len() > 1 {
        assert(sd[0].kid() < sd[1].kid());
    }
    assert(sd.len() == 1);
    assert(sd[0] == SenseSeed::SignalIn { kid: 0 });
    assert(sd =~= seq![SenseSeed::SignalIn { kid: 0 }]);
    // The counter's decrement and reset are left unwired.
    let iv = rt.inbound@.map_values(|v: Vec<(u16, u8, u8)>| v@);
    assert(iv[1] == seq![(0u16, 0u8, 0u8)]);
    assert forall|j: int| 0 <= j < iv[1].len() implies (#[trigger] iv[1][j]).2 != 1 && iv[1][j].2 != 2 by {}
    assert(crate::runtime::clear_slot(ks, iv, 1, 1));
    assert(crate::runtime::clear_slot(ks, iv, 1, 2));
    assert(crate::runtime::port_index(1, 1) == 9 && crate::runtime::port_index(1, 2) == 10);
    assert(rt.clear_mask@[crate::runtime::port_index(1, 1)]);
    assert(rt.clear_mask@[crate::runtime::port_index(1, 2)]);
    // Paths: only "ready".
    reveal_with_fuel(crate::runtime::paths_seen, 5);
    assert(crate::runtime::paths_seen(ks, 4) =~= seq!["ready"@]);
    assert(rt.knot_path@[3] < rt.path_names@.len());
}

/// One B04 frame writing the Bool `v` to `inc`: it is accepted, the counter
/// steps, and its comparison with 2 is sampled on `ready`.
proof fn lemma_b04_frame(before: Runtime, after: Runtime, id: SenseId, v: Signal, r: Result<(), HandleError>)
    requires
        b04_shaped(before),
        after.wf(),
        after.same_tables(&before),
        id.spec_owner() == before.spec_owner(),
        id.spec_index() == 0,
        v == ZERO || v == ONE,
        crate::host::frame_ran(before, seq![(id, v)], r, after),
    ensures
        r is Ok,
        b04_shaped(after),
        after.prev_in@[1] == v,
        after.counter@[1] == b04_count(v, before.prev_in@[1], before.counter@[1]),
        crate::cookbook::helpers::signal_out_of(after, "ready"@) == Some(
            bool_signal(b04_count(v, before.prev_in@[1], before.counter@[1]) >= 2),
        ),
{
    let senses = seq![(id, v)];
    assert(crate::host::write_ok(before, senses[0].0, senses[0].1));
    assert(crate::settle::tables_of(after) == crate::settle::tables_of(before));
    assert(after.spec_path_names() == before.spec_path_names());
    assert(after.spec_knots() == before.spec_knots());
    let sv = after.spec_sense_values();
    assert(sv == crate::host::senses_after(before.spec_sense_values(), senses, 1));
    reveal_with_fuel(crate::host::senses_after, 2);
    assert(sv == before.spec_sense_values().update(0, v));
    assert(sv[0] == v && sv.len() == 4);
    let d = crate::settle::frame_start(crate::settle::dyn_of(before));
    lemma_b04_settle(crate::settle::tables_of(before), sv, d);
    let out = bool_signal(b04_count(v, before.prev_in@[1], before.counter@[1]) >= 2);
    assert(after.out_signals@ == seq![SignalOutSample { path: HostPathId { owner: before.spec_owner(), index: 0 }, value: out }]);
    let names = after.spec_path_names();
    assert(crate::validate::names_view(names).len() == 1);
    assert(names.len() == 1);
    assert(names[0]@ == crate::validate::names_view(names)[0]);
    reveal_with_fuel(crate::runtime::find_name_from, 2);
    assert(crate::runtime::find_name(names, "ready"@) == Some(0int));
    assert(crate::cookbook::helpers::path_handle(after, "ready"@) == Some(HostPathId { owner: before.spec_owner(), index: 0 }));
    reveal_with_fuel(crate::cookbook::helpers::sample_of, 2);
}

/// Topology of B04: a `Counter` compared with 2 into `ready`.
pub fn b04_counter_threshold_weave() -> (r: Result<Weave, BuildError>)
    ensures
        weave_built(r, "c"@, b04_knots(), b04_threads()),
{
    let knots = vec![
        knot_def("inc", KnotKind::signal_in(SignalDomain::Bool)),
        knot_def("cnt", KnotKind::counter()),
        knot_def("cmp", KnotKind::compare(CompareOp::Gte, Some(from_count(2)), SignalDomain::Count)),
        knot_def("out", KnotKind::signal_out("ready", SignalDomain::Bool)),
    ];
    let threads: &[(&str, &str, &str, &str)] = &[("inc", "out", "cnt", "inc"), ("cnt", "count", "cmp", "lhs"), ("cmp", "out", "out", "in")];
    proof {
        assert(knot_shapes(knots@) =~= b04_knots());
        assert(thread_names(threads@) =~= b04_threads());
    }
    build_weave("c", knots, threads)
}

/// B04: the counter counts rising edges; `ready` rises at two.
#[verifier::rlimit(60)]
pub fn run_b04_counter_threshold() -> (r: Result<(), CookbookError>)
    ensures
        r is Ok,
{
    let weave = match b04_counter_threshold_weave() {
        Ok(w) => w,
        Err(e) => {
            proof {
                lemma_b04_assembled();
                let (ks, ts) = choose|ks: Seq<KnotDef>, ts: Seq<ThreadDef>|
                    #![trigger knot_shapes(ks), threads_named(ts, b04_threads())]
                    knot_shapes(ks) == b04_knots() && threads_named(ts, b04_threads()) && structural_fault(
                        "c"@,
                        NumericPath::spec_compiled(),
                        ks,
                        ts,
                    ) is Some;
                lemma_b04_valid(ks, ts);
            }
            return Err(CookbookError::Build(e));
        },
    };
    proof {
        lemma_b04_budget(weave.spec_knots(), weave.spec_threads());
        lemma_b04_knots(weave.spec_knots());
    }
    let mut rt = match bind_default(&weave) {
        Ok(rt) => rt,
        Err(e) => {
            return Err(CookbookError::Bind(e));
        },
    };
    proof {
        lemma_b04_tables(rt, weave, crate::runtime::spec_default_bind_opts());
        assert(rt.prev_in@[1] == ZERO && rt.counter@[1] == 0);
    }
    let ghost rt0 = rt;
    let inc = sense(&rt, "inc")?;
    let mut host = ScriptedHost::new();
    let f1 = [(inc, ONE)];
    assert(host.pending().push(f1@)[0] == f1@);
    assert(f1@ == seq![(inc, ONE)]);
    let r1 = tick_senses(&mut host, &mut rt, &f1);
    let ghost rt1 = rt;
    proof {
        lemma_b04_frame(rt0, rt1, inc, ONE, r1);
        assert(host.pending() =~= Seq::<Seq<(SenseId, Signal)>>::empty());
    }
    handle_step(r1)?;
    expect_truthy(&rt, "ready", false)?;
    let f2 = [(inc, ZERO)];
    assert(host.pending().push(f2@)[0] == f2@);
    assert(f2@ == seq![(inc, ZERO)]);
    let r2 = tick_senses(&mut host, &mut rt, &f2);
    let ghost rt2 = rt;
    proof {
        lemma_b04_frame(rt1, rt2, inc, ZERO, r2);
        assert(host.pending() =~= Seq::<Seq<(SenseId, Signal)>>::empty());
    }
    handle_step(r2)?;
    expect_truthy(&rt, "ready", false)?;
    assert(host.pending().push(f1@)[0] == f1@);
    let r3 = tick_senses(&mut host, &mut rt, &f1);
    proof {
        lemma_b04_frame(rt2, rt, inc, ONE, r3);
    }
    handle_step(r3)?;
    expect_truthy(&rt, "ready", true)
}

/// Knots of B05.
pub open spec fn b05_knots() -> Seq<(Seq<char>, KnotShape)> {
    seq![
        ("in"@, KnotShape::Plain(KnotKind::SignalIn { domain: SignalDomain::Level })),
        ("del"@, KnotShape::Plain(KnotKind::Delay { ticks: 2 })),
        ("out"@, KnotShape::Out { path: "y"@, domain: SignalDomain::Level }),
    ]
}

/// Threads of B05.
pub open spec fn b05_threads() -> Seq<(Seq<char>, Seq<char>, Seq<char>, Seq<char>)> {
    seq![("in"@, "out"@, "del"@, "in"@), ("del"@, "out"@, "out"@, "in"@)]
}

/// Along a three-knot chain every path steps to the next knot.
pub(crate) proof fn lemma_chain3_path(e: crate::graph::Edges, p: Seq<usize>)
    requires
        e == seq![(0usize, 1usize), (1usize, 2usize)],
        crate::graph::is_path(e, p),
    ensures
        p.len() <= 3,
        forall|i: int| 0 <= i < p.len() ==> #[trigger] p[i] == p[0] + i,
    decreases p.len(),
{
    if p.len() >= 2 {
        let q = p.drop_last();
        assert(crate::graph::is_path(e, q)) by {
            assert forall|i: int| 0 <= i < q.len() - 1 implies crate::graph::has_edge(e, #[trigger] q[i], q[i + 1]) by {
                assert(crate::graph::has_edge(e, p[i], p[i + 1]));
            }
        }
        lemma_chain3_path(e, q);
        let i = p.len() - 2;
        assert(crate::graph::has_edge(e, p[i], p[i + 1]));
        let k = choose|k: int| 0 <= k < e.len() && #[trigger] e[k] == (p[i], p[i + 1]);
        assert(p[i + 1] == p[i] + 1);
        assert forall|j: int| 0 <= j < p.len() implies #[trigger] p[j] == p[0] + j by {
            if j < p.len() - 1 {
                assert(p[j] == q[j]);
            }
        }
        assert(p[i + 1] <= 2);
    }
}

/// The weight of a path of consecutive knots of a three-knot chain whose
/// middle knot weighs `m`.
pub(crate) proof fn lemma_chain3_weight(w: Seq<u16>, p: Seq<usize>, m: u16)
    requires
        w == seq![0u16, m, 0],
        1 <= p.len() <= 3,
        forall|i: int| 0 <= i < p.len() ==> #[trigger] p[i] == p[0] + i,
        p.last() <= 2,
    ensures
        crate::graph::path_weight(w, p) == if p[0] <= 1 && 1 <= p.last() {
            m as nat
        } else {
            0nat
        },
    decreases p.len(),
{
    let q = p.drop_last();
    assert(crate::graph::path_weight(w, p) == crate::graph::path_weight(w, q) + w[p.last() as int]);
    if p.len() > 1 {
        assert forall|i: int| 0 <= i < q.len() implies #[trigger] q[i] == q[0] + i by {
            assert(q[i] == p[i]);
        }
        assert(q.last() == p.last() - 1);
        lemma_chain3_weight(w, q, m);
    } else {
        assert(crate::graph::path_weight(w, q) == 0);
    }
}

/// The longest path and the heaviest delay sum into knot `v` of a
/// three-knot chain whose middle knot weighs `m`.
pub(crate) proof fn lemma_chain3_depth(e: crate::graph::Edges, w: Seq<u16>, v: usize, m: u16)
    requires
        e == seq![(0usize, 1usize), (1usize, 2usize)],
        w == seq![0u16, m, 0],
        v < 3,
    ensures
        crate::validate::longest(e, v) == v,
        crate::validate::heaviest(e, w, v) == if v >= 1 {
            m as nat
        } else {
            0nat
        },
{
    let full = Seq::new((v + 1) as nat, |i: int| i as usize);
    assert(crate::graph::is_path(e, full)) by {
        assert forall|i: int| 0 <= i < full.len() - 1 implies crate::graph::has_edge(e, #[trigger] full[i], full[i + 1]) by {
            assert(e[i] == (full[i], full[i + 1]));
        }
    }
    let hv: nat = if v >= 1 {
        m as nat
    } else {
        0
    };
    lemma_chain3_weight(w, full, m);
    assert forall|p: Seq<usize>| #[trigger] crate::graph::is_path(e, p) && p.last() == v implies p.len() - 1 <= v
        && crate::graph::path_weight(w, p) <= hv by {
        lemma_chain3_path(e, p);
        lemma_chain3_weight(w, p, m);
    }
    assert(crate::graph::longest_path_to(e, v, v as nat));
    assert(crate::graph::heaviest_path_to(e, w, v, hv));
    crate::validate::lemma_longest_is(e, v, v as nat);
    crate::validate::lemma_heaviest_is(e, w, v, hv);
}

/// B05's graph is within the default budget.
pub proof fn lemma_b05_budget(ks: Seq<KnotDef>, ts: Seq<ThreadDef>)
    requires
        knot_shapes(ks) == b05_knots(),
        threads_named(ts, b05_threads()),
    ensures
        crate::validate::budget_fault(ks, ts, crate::validate::spec_default_budget()) is None,
        crate::runtime::delay_prefix(ks, 3) <= crate::validate::MAX_DENSE,
{
    lemma_b05_valid(ks, ts);
    lemma_b05_knots(ks);
    reveal_with_fuel(crate::validate::scan_fan_out, 3);
    reveal_with_fuel(crate::validate::out_count, 3);
    reveal_with_fuel(crate::validate::scan_depth, 4);
    reveal_with_fuel(crate::runtime::delay_prefix, 4);
    let e = crate::validate::knot_edges(ks, ts);
    let w = crate::validate::delay_weights(ks);
    reveal_strlit("in");
    reveal_strlit("del");
    reveal_strlit("out");
    reveal_with_fuel(find_knot_from, 4);
    assert("del"@[0] != "out"@[0]);
    assert(ts.len() == 2);
    assert(find_knot(ks, "in"@) == Some(0int));
    assert(find_knot(ks, "del"@) == Some(1int));
    assert(find_knot(ks, "out"@) == Some(2int));
    assert(e =~= seq![(0usize, 1usize), (1usize, 2usize)]);
    assert(w =~= seq![0u16, 2, 0]);
    lemma_chain3_depth(e, w, 0, 2);
    lemma_chain3_depth(e, w, 1, 2);
    lemma_chain3_depth(e, w, 2, 2);
    assert(crate::validate::scan_depth(e, w, crate::validate::spec_default_budget(), 0) is None);
}

/// The knots of any weave with B05's shapes, as the kinds they must be.
pub proof fn lemma_b05_knots(ks: Seq<KnotDef>)
    requires
        knot_shapes(ks) == b05_knots(),
    ensures
        ks.len() == 3,
        ks[0].id@ == "in"@ && ks[1].id@ == "del"@ && ks[2].id@ == "out"@,
        ks[0].kind == (KnotKind::SignalIn { domain: SignalDomain::Level }),
        ks[1].kind == (KnotKind::Delay { ticks: 2 }),
        ks[2].kind matches KnotKind::SignalOut { path, domain } && path@ == "y"@ && domain == SignalDomain::Level,
{
    assert(knot_shapes(ks).len() == ks.len());
    assert(knot_shapes(ks)[0] == (ks[0].id@, shape_of(ks[0].kind)));
    assert(knot_shapes(ks)[1] == (ks[1].id@, shape_of(ks[1].kind)));
    assert(knot_shapes(ks)[2] == (ks[2].id@, shape_of(ks[2].kind)));
}

/// B05's knots and threads assemble: ids distinct, every thread names
/// known knots and ports of the right direction.
proof fn lemma_b05_assembled()
    ensures
        assembly_fault("d"@, b05_knots(), b05_threads()) is None,
{
    reveal_strlit("d");
    reveal_strlit("in");
    reveal_strlit("del");
    reveal_strlit("out");
    reveal_with_fuel(find_shape_from, 4);
    reveal_with_fuel(crate::catalog::find_port, 3);
    reveal_with_fuel(scan_adds, 4);
    reveal_with_fuel(scan_wires, 3);
    assert("del"@[0] != "out"@[0]);
    let d = b05_knots();
    assert(d.subrange(0, 1) =~= seq![d[0]]);
    assert(d.subrange(0, 2) =~= seq![d[0], d[1]]);
    assert(d.subrange(0, 0) =~= Seq::<(Seq<char>, KnotShape)>::empty());
    assert(add_fault(d, 0) is None);
    assert(add_fault(d, 1) is None);
    assert(add_fault(d, 2) is None);
    assert(scan_adds(d, 0) is None);
    let names = b05_threads();
    assert(wire_fault(d, names[0]) is None);
    assert(wire_fault(d, names[1]) is None);
    assert(scan_wires(d, names, 0) is None);
}

/// B05's graph is authored and validates: ids distinct, every thread
/// resolves Out to In without fan-in, required inputs fed, no loop, acyclic.
pub proof fn lemma_b05_valid(ks: Seq<KnotDef>, ts: Seq<ThreadDef>)
    requires
        knot_shapes(ks) == b05_knots(),
        threads_named(ts, b05_threads()),
    ensures
        assembly_fault("d"@, b05_knots(), b05_threads()) is None,
        structural_fault("d"@, NumericPath::spec_compiled(), ks, ts) is None,
{
    reveal_strlit("d");
    reveal_strlit("in");
    reveal_strlit("del");
    reveal_strlit("out");
    reveal_with_fuel(find_shape_from, 4);
    reveal_with_fuel(find_knot_from, 4);
    reveal_with_fuel(crate::catalog::find_port, 3);
    reveal_with_fuel(crate::validate::scan_knots, 4);
    reveal_with_fuel(crate::validate::scan_threads, 3);
    reveal_with_fuel(crate::validate::scan_required, 4);
    reveal_with_fuel(crate::validate::scan_ports, 3);
    reveal_with_fuel(crate::validate::scan_self, 3);
    reveal_with_fuel(scan_adds, 4);
    reveal_with_fuel(scan_wires, 3);
    lemma_b05_knots(ks);
    assert("del"@[0] != "out"@[0]);
    let d = b05_knots();
    assert(d.subrange(0, 1) =~= seq![d[0]]);
    assert(d.subrange(0, 2) =~= seq![d[0], d[1]]);
    assert(d.subrange(0, 0) =~= Seq::<(Seq<char>, KnotShape)>::empty());
    assert(add_fault(d, 0) is None);
    assert(add_fault(d, 1) is None);
    assert(add_fault(d, 2) is None);
    assert(scan_adds(d, 0) is None);
    let names = b05_threads();
    assert(wire_fault(d, names[0]) is None);
    assert(wire_fault(d, names[1]) is None);
    assert(scan_wires(d, names, 0) is None);
    assert(ts.len() == 2);
    assert(ts[0].from.knot@ == "in"@ && ts[0].from.port@ == "out"@ && ts[0].to.knot@ == "del"@ && ts[0].to.port@ == "in"@);
    assert(ts[1].from.knot@ == "del"@ && ts[1].from.port@ == "out"@ && ts[1].to.knot@ == "out"@ && ts[1].to.port@ == "in"@);
    assert(find_knot(ks, "in"@) == Some(0int));
    assert(find_knot(ks, "del"@) == Some(1int));
    assert(find_knot(ks, "out"@) == Some(2int));
    assert(crate::validate::knot_fault(ks, 0) is None);
    assert(crate::validate::knot_fault(ks, 1) is None);
    assert(crate::validate::knot_fault(ks, 2) is None);
    assert(crate::validate::scan_knots(ks, 0) is None);
    assert(crate::validate::target_of(ks, ts[0]) == Some((1int, 0int)));
    assert(crate::validate::target_of(ks, ts[1]) == Some((2int, 0int)));
    assert(!crate::validate::earlier_same_target(ks, ts, 0));
    assert(!crate::validate::earlier_same_target(ks, ts, 1));
    assert(crate::validate::thread_fault(ks, ts, 0) is None);
    assert(crate::validate::thread_fault(ks, ts, 1) is None);
    assert(crate::validate::scan_threads(ks, ts, 0) is None);
    assert(crate::validate::wired(ks, ts, 1, 0));
    assert(crate::validate::wired(ks, ts, 2, 0));
    assert(crate::validate::scan_ports(ks, ts, Seq::empty(), 0, 0) is None);
    assert(crate::validate::scan_ports(ks, ts, Seq::empty(), 1, 0) is None);
    assert(crate::validate::scan_ports(ks, ts, Seq::empty(), 2, 0) is None);
    assert(crate::validate::scan_required(ks, ts, Seq::empty(), 0) is None);
    assert(crate::validate::scan_self(ks, ts, 0) is None);
    let e = crate::validate::knot_edges(ks, ts);
    assert(e[0] == (0usize, 1usize) && e[1] == (1usize, 2usize));
    assert(crate::graph::is_rank(3, e, seq![0int, 1, 2]));
}

/// One settle of B05's tables: the delayed value leaves the ring into the
/// output sample, and the sensed value enters it.
proof fn lemma_b05_settle(t: Tables, senses: Seq<Signal>, d: Dyn)
    requires
        t.tags.len() == 3,
        t.tags[0] is Sense,
        t.tags[1] == (KindTag::Delay { ticks: 2 }),
        t.tags[2] is SignalOut,
        t.topo == seq![0u16, 1, 2],
        t.inbound.len() == 3,
        t.inbound[1]@ == seq![(0u16, 0u8, 0u8)],
        t.inbound[2]@ == seq![(1u16, 1u8, 0u8)],
        t.clear_mask.len() == 24,
        forall|i: int| 0 <= i < 24 ==> !#[trigger] t.clear_mask[i],
        t.sense_seeds == seq![SenseSeed::SignalIn { kid: 0 }],
        t.delay_off.len() == 3,
        t.delay_off[1] == 0,
        t.knot_path.len() == 3,
        t.knot_path[2] == 0,
        d.ports.len() == 24,
        d.delay_buf.len() == 2,
        d.delay_head.len() == 3,
        d.delay_head[1] < 2,
        senses.len() == 3,
    ensures
        ({
            let r = settle(t, senses, d);
            let h = d.delay_head[1] as int;
            &&& r.out_signals == d.out_signals.push(
                SignalOutSample { path: HostPathId { owner: t.owner, index: 0 }, value: d.delay_buf[h] },
            )
            &&& r.delay_buf == d.delay_buf.update(h, senses[0])
            &&& r.delay_head == d.delay_head.update(1, ((h + 1) % 2) as u16)
            &&& r.ports.len() == 24
        }),
{
    let h = d.delay_head[1] as int;
    let cleared = Dyn { ports: clear_ports(d.ports, t.clear_mask, t.clear_mask.len() as int), ..d };
    assert(cleared.ports =~= d.ports);
    reveal_with_fuel(seeded, 2);
    let s0 = seeded(t, senses, cleared, 1);
    assert(s0.ports == d.ports.update(0, senses[0]));
    assert(s0.delay_buf == d.delay_buf && s0.delay_head == d.delay_head && s0.out_signals == d.out_signals);
    reveal_with_fuel(evaluated, 4);
    let e1 = evaluated(t, s0, 1);
    assert(e1 == s0);
    let g1 = gather_dyn(t, e1, 1);
    reveal_with_fuel(gather_ports, 2);
    assert(g1.ports == s0.ports.update(8, s0.ports[0]));
    let e2 = evaluated(t, s0, 2);
    assert(e2 == eval_dyn(t, g1, 1));
    let p1 = knot_ports(g1.ports, 1);
    assert(p1[0] == senses[0]);
    assert(e2.ports[9] == d.delay_buf[h]);
    assert(e2.ports.len() == 24);
    assert(e2.delay_buf == d.delay_buf.update(h, senses[0]));
    assert(e2.delay_head == d.delay_head.update(1, ((h + 1) % 2) as u16));
    assert(e2.out_signals == d.out_signals);
    let g2 = gather_dyn(t, e2, 2);
    assert(g2.ports == e2.ports.update(16, e2.ports[9]));
    let e3 = evaluated(t, s0, 3);
    assert(e3 == eval_dyn(t, g2, 2));
    assert(knot_ports(g2.ports, 2)[0] == d.delay_buf[h]);
}

/// A runtime of B05: its tables, its one host path `y` and its sense `in`.
spec fn b05_shaped(rt: Runtime) -> bool {
    let t = crate::settle::tables_of(rt);
    &&& rt.wf()
    &&& t.tags.len() == 3
    &&& t.tags[0] is Sense
    &&& t.tags[1] == (KindTag::Delay { ticks: 2 })
    &&& t.tags[2] is SignalOut
    &&& t.topo == seq![0u16, 1, 2]
    &&& t.inbound.len() == 3
    &&& t.inbound[1]@ == seq![(0u16, 0u8, 0u8)]
    &&& t.inbound[2]@ == seq![(1u16, 1u8, 0u8)]
    &&& t.clear_mask.len() == 24
    &&& forall|i: int| 0 <= i < 24 ==> !#[trigger] t.clear_mask[i]
    &&& t.sense_seeds == seq![SenseSeed::SignalIn { kid: 0 }]
    &&& t.delay_off.len() == 3
    &&& t.delay_off[1] == 0
    &&& t.knot_path.len() == 3
    &&& t.knot_path[2] == 0
    &&& t.owner == rt.spec_owner()
    &&& crate::validate::names_view(rt.spec_path_names()) == seq!["y"@]
    &&& rt.spec_knots().len() == 3
    &&& find_knot(rt.spec_knots(), "in"@) == Some(0int)
    &&& rt.spec_knots()[0].kind == (KnotKind::SignalIn { domain: SignalDomain::Level })
    &&& rt.delay_buf@.len() == 2
}

/// The tables of every bind of a weave with B05's knots and threads.
proof fn lemma_b05_tables(rt: Runtime, w: Weave, opts: crate::runtime::BindOpts)
    requires
        crate::runtime::bound_from(rt, w, opts),
        knot_shapes(w.spec_knots()) == b05_knots(),
        threads_named(w.spec_threads(), b05_threads()),
    ensures
        b05_shaped(rt),
{
    let ks = w.spec_knots();
    let ts = w.spec_threads();
    lemma_b05_knots(ks);
    lemma_b05_valid(ks, ts);
    reveal_strlit("in");
    reveal_strlit("del");
    reveal_strlit("out");
    reveal_strlit("y");
    reveal_with_fuel(find_knot_from, 4);
    assert("del"@[0] != "out"@[0]);
    assert(find_knot(ks, "in"@) == Some(0int));
    assert(find_knot(ks, "del"@) == Some(1int));
    assert(find_knot(ks, "out"@) == Some(2int));
    let th = rt.spec_threads();
    assert(ts.len() == 2);
    reveal_with_fuel(crate::catalog::find_port, 3);
    assert("in"@[0] != "out"@[0]);
    assert(crate::catalog::find_port(crate::catalog::port_table(ks[1].kind), "out"@) == Some(1int));
    assert(crate::catalog::find_port(crate::catalog::port_table(ks[1].kind), "in"@) == Some(0int));
    assert(crate::catalog::find_port(crate::catalog::port_table(ks[2].kind), "in"@) == Some(0int));
    assert(crate::runtime::thread_resolved(ks, ts[0], th[0]));
    assert(crate::runtime::thread_resolved(ks, ts[1], th[1]));
    assert(th[0] == (0u16, 0u8, 1u16, 0u8));
    assert(th[1] == (1u16, 1u8, 2u16, 0u8));
    reveal_with_fuel(crate::runtime::into_prefix, 3);
    assert(rt.inbound@[1]@ =~= seq![(0u16, 0u8, 0u8)]);
    assert(rt.inbound@[2]@ =~= seq![(1u16, 1u8, 0u8)]);
    assert(rt.inbound@[0]@ =~= Seq::<(u16, u8, u8)>::empty());
    // Tags.
    assert(crate::runtime::tag_refines(rt.tags@[1], ks[1].kind, rt.inbound@[1]@));
    assert(rt.tags@[0] is Sense);
    assert(rt.tags@[2] is SignalOut);
    // The order: three distinct knots, each thread forward.
    let tp = rt.topo@;
    assert(tp.len() == 3);
    assert(tp[0] < 3 && tp[1] < 3 && tp[2] < 3);
    assert(tp[0] != tp[1] && tp[0] != tp[2] && tp[1] != tp[2]);
    assert(th[0].0 != th[0].2 && th[1].0 != th[1].2);
    assert(tp =~= seq![0u16, 1, 2]);
    // Seeds: only knot 0 is seeded.
    let sd = rt.sense_seeds@;
    assert(crate::runtime::seeds_match(sd, ks));
    assert forall|j: int| 0 <= j < sd.len() implies (#[trigger] sd[j]).kid() == 0 by {
        assert(sd[j].kid() < 3);
    }
    let j0 = choose|j: int| 0 <= j < sd.len() && #[trigger] sd[j].kid() == 0;
    if sd.len() > 1 {
        assert(sd[0].kid() < sd[1].kid());
    }
    assert(sd.len() == 1);
    assert(sd[0] == SenseSeed::SignalIn { kid: 0 });
    assert(sd =~= seq![SenseSeed::SignalIn { kid: 0 }]);
    // No input is left unwired.
    let iv = rt.inbound@.map_values(|v: Vec<(u16, u8, u8)>| v@);
    assert(iv[1] == seq![(0u16, 0u8, 0u8)]);
    assert(iv[2] == seq![(1u16, 1u8, 0u8)]);
    assert(iv[1][0].2 == 0 && iv[2][0].2 == 0);
    assert(crate::runtime::wired_slot(iv[1], 0));
    assert(crate::runtime::wired_slot(iv[2], 0));
    assert forall|i: int| 0 <= i < 24 implies !#[trigger] rt.clear_mask@[i] by {
        let k = i / 8;
        let q = i % 8;
        assert(i == crate::runtime::port_index(k, q));
        assert(!crate::runtime::clear_slot(ks, iv, k, q));
    }
    // The ring of the delay starts the buffer.
    reveal_with_fuel(crate::runtime::delay_prefix, 4);
    assert(rt.tags@[1] == KindTag::Delay { ticks: 2 });
    // Paths: only "y".
    reveal_with_fuel(crate::runtime::paths_seen, 4);
    assert(crate::runtime::paths_seen(ks, 3) =~= seq!["y"@]);
    assert(rt.knot_path@[2] < rt.path_names@.len());
    assert(rt.delay_buf@.len() == 2);
}

/// One B05 frame writing `ONE` to the sense `in`: it is accepted, the
/// delayed value is sampled on `y`, and the ring takes the new value.
proof fn lemma_b05_frame(before: Runtime, after: Runtime, id: SenseId, r: Result<(), HandleError>)
    requires
        b05_shaped(before),
        after.wf(),
        after.same_tables(&before),
        id.spec_owner() == before.spec_owner(),
        id.spec_index() == 0,
        crate::host::frame_ran(before, seq![(id, ONE)], r, after),
    ensures
        r is Ok,
        b05_shaped(after),
        ({
            let h = before.delay_head@[1] as int;
            &&& h < 2
            &&& after.delay_buf@ == before.delay_buf@.update(h, ONE)
            &&& after.delay_head@[1] == (h + 1) % 2
            &&& crate::cookbook::helpers::signal_out_of(after, "y"@) == Some(before.delay_buf@[h])
        }),
{
    let senses = seq![(id, ONE)];
    assert(crate::host::write_ok(before, senses[0].0, senses[0].1));
    assert(crate::settle::tables_of(after) == crate::settle::tables_of(before));
    assert(after.spec_path_names() == before.spec_path_names());
    assert(after.spec_knots() == before.spec_knots());
    assert(before.tags@[1] == KindTag::Delay { ticks: 2 });
    assert(before.delay_head@[1] < 2);
    let sv = after.spec_sense_values();
    assert(sv == crate::host::senses_after(before.spec_sense_values(), senses, 1));
    reveal_with_fuel(crate::host::senses_after, 2);
    assert(sv == before.spec_sense_values().update(0, ONE));
    assert(sv[0] == ONE && sv.len() == 3);
    let d = crate::settle::frame_start(crate::settle::dyn_of(before));
    lemma_b05_settle(crate::settle::tables_of(before), sv, d);
    let h = before.delay_head@[1] as int;
    assert(after.out_signals@ == seq![SignalOutSample { path: HostPathId { owner: before.spec_owner(), index: 0 }, value: before.delay_buf@[h] }]);
    let names = after.spec_path_names();
    assert(crate::validate::names_view(names).len() == 1);
    assert(names.len() == 1);
    assert(names[0]@ == crate::validate::names_view(names)[0]);
    reveal_with_fuel(crate::runtime::find_name_from, 2);
    assert(crate::runtime::find_name(names, "y"@) == Some(0int));
    assert(crate::cookbook::helpers::path_handle(after, "y"@) == Some(HostPathId { owner: before.spec_owner(), index: 0 }));
    reveal_with_fuel(crate::cookbook::helpers::sample_of, 2);
    assert(after.delay_buf@ == before.delay_buf@.update(h, ONE));
    assert(after.delay_head@[1] == (h + 1) % 2);
}

/// Topology of B05: a two-tick `Delay` between input and output.
pub fn b05_delayed_pulse_weave() -> (r: Result<Weave, BuildError>)
    ensures
        weave_built(r, "d"@, b05_knots(), b05_threads()),
{
    let knots = vec![
        knot_def("in", KnotKind::signal_in(SignalDomain::Level)),
        knot_def("del", KnotKind::Delay { ticks: 2 }),
        knot_def("out", KnotKind::signal_out("y", SignalDomain::Level)),
    ];
    let threads: &[(&str, &str, &str, &str)] = &[("in", "out", "del", "in"), ("del", "out", "out", "in")];
    proof {
        assert(knot_shapes(knots@) =~= b05_knots());
        assert(thread_names(threads@) =~= b05_threads());
    }
    build_weave("d", knots, threads)
}

/// B05: the level arrives two frames late.
#[verifier::rlimit(50)]
pub fn run_b05_delayed_pulse() -> (r: Result<(), CookbookError>)
    ensures
        r is Ok,
{
    let weave = match b05_delayed_pulse_weave() {
        Ok(w) => w,
        Err(e) => {
            proof {
                let (ks, ts) = choose|ks: Seq<KnotDef>, ts: Seq<ThreadDef>|
                    #![trigger knot_shapes(ks), threads_named(ts, b05_threads())]
                    knot_shapes(ks) == b05_knots() && threads_named(ts, b05_threads()) && structural_fault(
                        "d"@,
                        NumericPath::spec_compiled(),
                        ks,
                        ts,
                    ) is Some;
                lemma_b05_assembled();
                lemma_b05_valid(ks, ts);
            }
            return Err(CookbookError::Build(e));
        },
    };
    proof {
        lemma_b05_budget(weave.spec_knots(), weave.spec_threads());
        lemma_b05_knots(weave.spec_knots());
    }
    let mut rt = match bind_default(&weave) {
        Ok(rt) => rt,
        Err(e) => {
            return Err(CookbookError::Bind(e));
        },
    };
    proof {
        lemma_b05_tables(rt, weave, crate::runtime::spec_default_bind_opts());
    }
    let ghost rt0 = rt;
    let id = sense(&rt, "in")?;
    let mut host = ScriptedHost::new();
    let frame = [(id, ONE)];
    assert(host.pending().push(frame@)[0] == frame@);
    assert(frame@ == seq![(id, ONE)]);
    let r1 = tick_senses(&mut host, &mut rt, &frame);
    let ghost rt1 = rt;
    proof {
        lemma_b05_frame(rt0, rt1, id, r1);
        assert(host.pending() =~= Seq::<Seq<(SenseId, Signal)>>::empty());
    }
    handle_step(r1)?;
    expect_truthy(&rt, "y", false)?;
    assert(host.pending().push(frame@)[0] == frame@);
    let r2 = tick_senses(&mut host, &mut rt, &frame);
    let ghost rt2 = rt;
    proof {
        lemma_b05_frame(rt1, rt2, id, r2);
        assert(host.pending() =~= Seq::<Seq<(SenseId, Signal)>>::empty());
    }
    handle_step(r2)?;
    expect_truthy(&rt, "y", false)?;
    assert(host.pending().push(frame@)[0] == frame@);
    let r3 = tick_senses(&mut host, &mut rt, &frame);
    proof {
        lemma_b05_frame(rt2, rt, id, r3);
    }
    handle_step(r3)?;
    expect_truthy(&rt, "y", true)
}

} // verus!
