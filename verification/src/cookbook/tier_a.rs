//! Tier A: single-knot foundations and the typed host boundary. A recipe
//! resolves its named endpoints once after bind; a scenario then drives
//! frames through the typed handles.

use vstd::prelude::*;

use crate::builder::BuildError;
use crate::catalog::{KnotKind, SignalDomain};
use crate::cookbook::helpers::{build_weave, knot_def, knot_shapes, thread_names, weave_built, KnotShape};
use crate::handles::{HostPathId, SenseId};
use crate::runtime::{BindOpts, Runtime};
use crate::runtime_error::{RecipeEndpoint, CookbookError, RecipeError, RecipeResolveError, ScenarioError};
use crate::recipe::{has_path, has_sense, path_found, resolve_error_is, sense_found, sense_missing, Recipe};
use crate::scenario::{Frame, Scenario};
use crate::signal::{from_count, ONE, ZERO};
use crate::builder::BFault;
use crate::catalog::{find_port, NumericPath};
use crate::cookbook::helpers::{assembly_fault, find_shape, find_shape_from, scan_adds, scan_wires, shape_of, shape_table, threads_named, wire_fault};
use crate::validate::{find_knot, find_knot_from, knot_fault, scan_knots, structural_fault, VFault, ValidationError};
use crate::weave::{KnotDef, ThreadDef, Weave};

verus! {

/// A scenario failure as a cookbook failure.
pub fn scenario_step(r: Result<(), ScenarioError>) -> (c: Result<(), CookbookError>)
    ensures
        c is Ok <==> r is Ok,
{
    match r {
        Ok(()) => Ok(()),
        Err(e) => Err(CookbookError::Scenario(e)),
    }
}

/// A recipe failure as a cookbook failure.
pub fn recipe_failure(e: RecipeError) -> (c: CookbookError)
    ensures
        c == CookbookError::Scenario(ScenarioError::Recipe(e)),
{
    CookbookError::Scenario(ScenarioError::Recipe(e))
}

/// Ports of the A01 recipe.
pub struct A01HelloInvertPorts {
    pub inverted: HostPathId,
}

/// A01 recipe: a constant, inverted, to `debug.inverted`.
pub struct A01HelloInvertRecipe;

impl Recipe for A01HelloInvertRecipe {
    type Ports = A01HelloInvertPorts;

    fn weave() -> (r: Result<Weave, BuildError>)
        ensures
            weave_built(r, "a01"@, a01_knots(), a01_threads()),
    {
        a01_hello_invert_weave()
    }

    fn resolve_ports(rt: &Runtime) -> (r: Result<A01HelloInvertPorts, RecipeResolveError>)
        ensures
            match r {
                Ok(p) => path_found(*rt, "debug.inverted"@, p.inverted),
                Err(e) => {
                    !has_path(*rt, "debug.inverted"@) && resolve_error_is(e, RecipeEndpoint::SignalOut, "debug.inverted"@, None)
                },
            },
    {
        match rt.required_path("debug.inverted") {
            Ok(inverted) => Ok(A01HelloInvertPorts { inverted }),
            Err(e) => Err(e),
        }
    }
}

/// Ports of the A02 recipe.
pub struct A02TwoPlateAndPorts {
    pub plate_a: SenseId,
    pub plate_b: SenseId,
    pub door: HostPathId,
}

/// A02 recipe: two plates through `And` to `door.open`.
pub struct A02TwoPlateAndRecipe;

impl Recipe for A02TwoPlateAndRecipe {
    type Ports = A02TwoPlateAndPorts;

    fn weave() -> (r: Result<Weave, BuildError>)
        ensures
            weave_built(r, "a02"@, a02_knots(), a02_threads()),
    {
        a02_two_plate_and_weave()
    }

    fn resolve_ports(rt: &Runtime) -> (r: Result<A02TwoPlateAndPorts, RecipeResolveError>)
        ensures
            match r {
                Ok(p) => sense_found(*rt, "plate_a"@, p.plate_a) && sense_found(*rt, "plate_b"@, p.plate_b) && path_found(*rt, "door.open"@, p.door),
                Err(e) => if !has_sense(*rt, "plate_a"@) {
                    sense_missing(*rt, "plate_a"@, e)
                } else if !has_sense(*rt, "plate_b"@) {
                    sense_missing(*rt, "plate_b"@, e)
                } else {
                    !has_path(*rt, "door.open"@) && resolve_error_is(e, RecipeEndpoint::SignalOut, "door.open"@, None)
                },
            },
    {
        let plate_a = match rt.required_sense("plate_a") {
            Ok(x) => x,
            Err(e) => {
                return Err(e);
            },
        };
        let plate_b = match rt.required_sense("plate_b") {
            Ok(x) => x,
            Err(e) => {
                return Err(e);
            },
        };
        match rt.required_path("door.open") {
            Ok(door) => Ok(A02TwoPlateAndPorts { plate_a, plate_b, door }),
            Err(e) => Err(e),
        }
    }
}

/// Ports of the A03 recipe.
pub struct A03BindSampleLoomPorts {
    pub input: SenseId,
    pub output: HostPathId,
}

/// A03 recipe: an input, inverted, to `y`.
pub struct A03BindSampleLoomRecipe;

impl Recipe for A03BindSampleLoomRecipe {
    type Ports = A03BindSampleLoomPorts;

    fn weave() -> (r: Result<Weave, BuildError>)
        ensures
            weave_built(r, "a03"@, a03_knots(), a03_threads()),
    {
        a03_bind_sample_loom_weave()
    }

    fn resolve_ports(rt: &Runtime) -> (r: Result<A03BindSampleLoomPorts, RecipeResolveError>)
        ensures
            match r {
                Ok(p) => sense_found(*rt, "in"@, p.input) && path_found(*rt, "y"@, p.output),
                Err(e) => if !has_sense(*rt, "in"@) {
                    sense_missing(*rt, "in"@, e)
                } else {
                    !has_path(*rt, "y"@) && resolve_error_is(e, RecipeEndpoint::SignalOut, "y"@, None)
                },
            },
    {
        let input = match rt.required_sense("in") {
            Ok(x) => x,
            Err(e) => {
                return Err(e);
            },
        };
        match rt.required_path("y") {
            Ok(output) => Ok(A03BindSampleLoomPorts { input, output }),
            Err(e) => Err(e),
        }
    }
}

/// Ports of the A04 recipe.
pub struct A04HostTickOncePorts {
    pub input: SenseId,
    pub lamp: HostPathId,
}

/// A04 recipe: an input straight to `lamp`.
pub struct A04HostTickOnceRecipe;

impl Recipe for A04HostTickOnceRecipe {
    type Ports = A04HostTickOncePorts;

    fn weave() -> (r: Result<Weave, BuildError>)
        ensures
            weave_built(r, "a04"@, a04_knots(), a04_threads()),
    {
        a04_host_tick_once_weave()
    }

    fn resolve_ports(rt: &Runtime) -> (r: Result<A04HostTickOncePorts, RecipeResolveError>)
        ensures
            match r {
                Ok(p) => sense_found(*rt, "in"@, p.input) && path_found(*rt, "lamp"@, p.lamp),
                Err(e) => if !has_sense(*rt, "in"@) {
                    sense_missing(*rt, "in"@, e)
                } else {
                    !has_path(*rt, "lamp"@) && resolve_error_is(e, RecipeEndpoint::SignalOut, "lamp"@, None)
                },
            },
    {
        let input = match rt.required_sense("in") {
            Ok(x) => x,
            Err(e) => {
                return Err(e);
            },
        };
        match rt.required_path("lamp") {
            Ok(lamp) => Ok(A04HostTickOncePorts { input, lamp }),
            Err(e) => Err(e),
        }
    }
}

/// Knots of A01.
pub open spec fn a01_knots() -> Seq<(Seq<char>, KnotShape)> {
    seq![
        ("c"@, KnotShape::Plain(KnotKind::Constant { domain: SignalDomain::Bool, value: ONE })),
        ("n"@, KnotShape::Plain(KnotKind::Not)),
        ("o"@, KnotShape::Out { path: "debug.inverted"@, domain: SignalDomain::Bool }),
    ]
}

/// Threads of A01.
pub open spec fn a01_threads() -> Seq<(Seq<char>, Seq<char>, Seq<char>, Seq<char>)> {
    seq![("c"@, "out"@, "n"@, "in"@), ("n"@, "out"@, "o"@, "in"@)]
}

/// Topology of A01: `Constant(ONE)` into `Not` into a `SignalOut`.
pub fn a01_hello_invert_weave() -> (r: Result<Weave, BuildError>)
    ensures
        weave_built(r, "a01"@, a01_knots(), a01_threads()),
{
    let knots = vec![
        knot_def("c", KnotKind::constant(ONE, SignalDomain::Bool)),
        knot_def("n", KnotKind::not()),
        knot_def("o", KnotKind::signal_out("debug.inverted", SignalDomain::Bool)),
    ];
    let threads: &[(&str, &str, &str, &str)] = &[("c", "out", "n", "in"), ("n", "out", "o", "in")];
    proof {
        assert(knot_shapes(knots@) =~= a01_knots());
        assert(thread_names(threads@) =~= a01_threads());
    }
    build_weave("a01", knots, threads)
}

/// A01: the inverted constant settles falsey.
pub fn run_a01_hello_invert() -> (r: Result<(), CookbookError>) {
    let check = |scenario: &mut Scenario<A01HelloInvertRecipe>|
        requires
            old(scenario).wf(),
        {
            scenario.frame(|_frame| Ok(()))?;
            scenario.expect_value(|ports| ports.inverted, ZERO)
        };
    scenario_step(Scenario::<A01HelloInvertRecipe>::run(check))
}

/// Knots of A02.
pub open spec fn a02_knots() -> Seq<(Seq<char>, KnotShape)> {
    seq![
        ("plate_a"@, KnotShape::Plain(KnotKind::SignalIn { domain: SignalDomain::Bool })),
        ("plate_b"@, KnotShape::Plain(KnotKind::SignalIn { domain: SignalDomain::Bool })),
        ("both"@, KnotShape::Plain(KnotKind::And { arity: 2 })),
        ("door"@, KnotShape::Out { path: "door.open"@, domain: SignalDomain::Bool }),
    ]
}

/// Threads of A02.
pub open spec fn a02_threads() -> Seq<(Seq<char>, Seq<char>, Seq<char>, Seq<char>)> {
    seq![("plate_a"@, "out"@, "both"@, "in_0"@), ("plate_b"@, "out"@, "both"@, "in_1"@), ("both"@, "out"@, "door"@, "in"@)]
}

/// Topology of A02: two plates into `And` into `door.open`.
pub fn a02_two_plate_and_weave() -> (r: Result<Weave, BuildError>)
    ensures
        weave_built(r, "a02"@, a02_knots(), a02_threads()),
{
    let knots = vec![
        knot_def("plate_a", KnotKind::signal_in(SignalDomain::Bool)),
        knot_def("plate_b", KnotKind::signal_in(SignalDomain::Bool)),
        knot_def("both", KnotKind::and2()),
        knot_def("door", KnotKind::signal_out("door.open", SignalDomain::Bool)),
    ];
    let threads: &[(&str, &str, &str, &str)] = &[("plate_a", "out", "both", "in_0"), ("plate_b", "out", "both", "in_1"), ("both", "out", "door", "in")];
    proof {
        assert(knot_shapes(knots@) =~= a02_knots());
        assert(thread_names(threads@) =~= a02_threads());
    }
    build_weave("a02", knots, threads)
}

/// A02: the door request is raised only while both plates are pressed.
pub fn run_a02_two_plate_and() -> (r: Result<(), CookbookError>) {
    let check = |scenario: &mut Scenario<A02TwoPlateAndRecipe>|
        requires
            old(scenario).wf(),
        {
            scenario.frame(
                |frame| {
                    frame.set(|ports| ports.plate_a, ONE)?;
                    frame.set(|ports| ports.plate_b, ZERO)
                },
            )?;
            scenario.expect_value(|ports| ports.door, ZERO)?;
            scenario.frame(
                |frame| {
                    frame.set(|ports| ports.plate_a, ONE)?;
                    frame.set(|ports| ports.plate_b, ONE)
                },
            )?;
            scenario.expect_truthy(|ports| ports.door)
        };
    scenario_step(Scenario::<A02TwoPlateAndRecipe>::run(check))
}

/// Knots of A03.
pub open spec fn a03_knots() -> Seq<(Seq<char>, KnotShape)> {
    seq![
        ("in"@, KnotShape::Plain(KnotKind::SignalIn { domain: SignalDomain::Bool })),
        ("n"@, KnotShape::Plain(KnotKind::Not)),
        ("o"@, KnotShape::Out { path: "y"@, domain: SignalDomain::Bool }),
    ]
}

/// Threads of A03.
pub open spec fn a03_threads() -> Seq<(Seq<char>, Seq<char>, Seq<char>, Seq<char>)> {
    seq![("in"@, "out"@, "n"@, "in"@), ("n"@, "out"@, "o"@, "in"@)]
}

/// Topology of A03: an input into `Not` into `y`.
pub fn a03_bind_sample_loom_weave() -> (r: Result<Weave, BuildError>)
    ensures
        weave_built(r, "a03"@, a03_knots(), a03_threads()),
{
    let knots = vec![
        knot_def("in", KnotKind::signal_in(SignalDomain::Bool)),
        knot_def("n", KnotKind::not()),
        knot_def("o", KnotKind::signal_out("y", SignalDomain::Bool)),
    ];
    let threads: &[(&str, &str, &str, &str)] = &[("in", "out", "n", "in"), ("n", "out", "o", "in")];
    proof {
        assert(knot_shapes(knots@) =~= a03_knots());
        assert(thread_names(threads@) =~= a03_threads());
    }
    build_weave("a03", knots, threads)
}

/// A03: write a sense, settle, read the inverted output.
pub fn run_a03_bind_sample_loom() -> (r: Result<(), CookbookError>) {
    let check = |scenario: &mut Scenario<A03BindSampleLoomRecipe>|
        requires
            old(scenario).wf(),
        {
            scenario.frame(|frame| frame.set(|ports| ports.input, ZERO))?;
            scenario.expect_truthy(|ports| ports.output)?;
            scenario.frame(|frame| frame.set(|ports| ports.input, ONE))?;
            scenario.expect_value(|ports| ports.output, ZERO)
        };
    scenario_step(Scenario::<A03BindSampleLoomRecipe>::run(check))
}

/// Knots of A04.
pub open spec fn a04_knots() -> Seq<(Seq<char>, KnotShape)> {
    seq![
        ("in"@, KnotShape::Plain(KnotKind::SignalIn { domain: SignalDomain::Bool })),
        ("o"@, KnotShape::Out { path: "lamp"@, domain: SignalDomain::Bool }),
    ]
}

/// Threads of A04.
pub open spec fn a04_threads() -> Seq<(Seq<char>, Seq<char>, Seq<char>, Seq<char>)> {
    seq![("in"@, "out"@, "o"@, "in"@)]
}

/// Topology of A04: an input straight to `lamp`.
pub fn a04_host_tick_once_weave() -> (r: Result<Weave, BuildError>)
    ensures
        weave_built(r, "a04"@, a04_knots(), a04_threads()),
{
    let knots = vec![
        knot_def("in", KnotKind::signal_in(SignalDomain::Bool)),
        knot_def("o", KnotKind::signal_out("lamp", SignalDomain::Bool)),
    ];
    let threads: &[(&str, &str, &str, &str)] = &[("in", "out", "o", "in")];
    proof {
        assert(knot_shapes(knots@) =~= a04_knots());
        assert(thread_names(threads@) =~= a04_threads());
    }
    build_weave("a04", knots, threads)
}

/// A04: two frames, the lamp following the input.
pub fn run_a04_host_tick_once() -> (r: Result<(), CookbookError>) {
    let check = |scenario: &mut Scenario<A04HostTickOnceRecipe>|
        requires
            old(scenario).wf(),
        {
            scenario.frame(|frame| frame.set(|ports| ports.input, ZERO))?;
            scenario.expect_value(|ports| ports.lamp, ZERO)?;
            scenario.frame(|frame| frame.set(|ports| ports.input, ONE))?;
            scenario.expect_truthy(|ports| ports.lamp)
        };
    scenario_step(Scenario::<A04HostTickOnceRecipe>::run(check))
}

/// Knots of A05; the `Map` input range starts at 5 (inverted) unless
/// `valid_map`, where it starts at 0.
pub open spec fn a05_knots(valid_map: bool) -> Seq<(Seq<char>, KnotShape)> {
    seq![
        ("c"@, KnotShape::Plain(KnotKind::Constant { domain: SignalDomain::Level, value: ONE })),
        ("map"@, KnotShape::Plain(KnotKind::MapRange {
            domain: SignalDomain::Level,
            in_min: if valid_map { 0 } else { 5 },
            in_max: 1,
            out_min: ZERO,
            out_max: ONE,
        })),
        ("o"@, KnotShape::Out { path: "y"@, domain: SignalDomain::Level }),
    ]
}

/// Threads of A05.
pub open spec fn a05_threads() -> Seq<(Seq<char>, Seq<char>, Seq<char>, Seq<char>)> {
    seq![("c"@, "out"@, "map"@, "in"@), ("map"@, "out"@, "o"@, "in"@)]
}

/// The parameter fault the A05 lesson is about.
pub open spec fn a05_fault() -> VFault {
    VFault::InvalidParameter { knot_id: "map"@, parameter: "in_min"@, reason: "must not exceed in_max"@ }
}

/// The A05 topology, over either range, is authored without complaint.
pub proof fn lemma_a05_authored(valid_map: bool)
    ensures
        assembly_fault("a05"@, a05_knots(valid_map), a05_threads()) is None,
{
    reveal_strlit("a05");
    reveal_strlit("c");
    reveal_strlit("map");
    reveal_strlit("o");
    reveal_strlit("in");
    reveal_strlit("out");
    reveal_with_fuel(find_shape_from, 4);
    let d = a05_knots(valid_map);
    let names = a05_threads();
    assert(d.subrange(0, 0) =~= Seq::<(Seq<char>, KnotShape)>::empty());
    assert(d.subrange(0, 1) =~= seq![d[0]]);
    assert(d.subrange(0, 2) =~= seq![d[0], d[1]]);
    assert(find_shape_from(d.subrange(0, 1), "map"@, 1) is None);
    assert(find_shape(d.subrange(0, 1), "map"@) is None);
    assert("c"@ != "o"@) by {
        assert("c"@[0] != "o"@[0]);
    }
    assert(find_shape_from(d.subrange(0, 2), "o"@, 2) is None);
    assert(find_shape_from(d.subrange(0, 2), "o"@, 1) is None);
    assert(find_shape(d.subrange(0, 2), "o"@) is None);
    assert(scan_adds(d, 3) is None);
    assert(scan_adds(d, 2) is None);
    assert(scan_adds(d, 1) is None);
    assert(scan_adds(d, 0) is None);
    assert(find_shape(d, "c"@) == Some(0int));
    assert(find_shape(d, "map"@) == Some(1int));
    assert(find_shape(d, "o"@) == Some(2int));
    let t_out = shape_table(d[0].1);
    let t_map = shape_table(d[1].1);
    let t_o = shape_table(d[2].1);
    assert(find_port(t_out, "out"@) == Some(0int));
    assert(find_port(t_map, "in"@) == Some(0int));
    assert(find_port(t_map.drop_first(), "out"@) == Some(0int));
    assert(t_map[0].name == "in"@);
    assert("in"@.len() != "out"@.len());
    assert(t_map[0].name != "out"@);
    assert(find_port(t_map, "out"@) == Some(1int));
    assert(find_port(t_o, "in"@) == Some(0int));
    assert(wire_fault(d, names[0]) is None);
    assert(wire_fault(d, names[1]) is None);
    assert(scan_wires(d, names, 2) is None);
    assert(scan_wires(d, names, 1) is None);
    assert(scan_wires(d, names, 0) is None);
}

/// Every weave with the inverted A05 knots and threads fails validation on
/// the `Map` range.
pub proof fn lemma_a05_refused(ks: Seq<KnotDef>, ts: Seq<ThreadDef>)
    requires
        knot_shapes(ks) == a05_knots(false),
        threads_named(ts, a05_threads()),
    ensures
        structural_fault("a05"@, NumericPath::spec_compiled(), ks, ts) == Some(a05_fault()),
{
    reveal_strlit("a05");
    reveal_strlit("c");
    reveal_strlit("map");
    assert(knot_shapes(ks).len() == ks.len());
    assert(ks.len() == 3);
    reveal_with_fuel(find_knot_from, 3);
    reveal_with_fuel(scan_knots, 3);
    assert(knot_shapes(ks)[0].0 == "c"@ && knot_shapes(ks)[1].0 == "map"@);
    assert(knot_shapes(ks)[0].1 == shape_of(ks[0].kind));
    assert(knot_shapes(ks)[1].1 == shape_of(ks[1].kind));
    assert(ks[0].id@ == "c"@ && ks[1].id@ == "map"@);
    assert(ks[0].kind == KnotKind::Constant { domain: SignalDomain::Level, value: ONE });
    assert(ks[1].kind == KnotKind::MapRange { domain: SignalDomain::Level, in_min: 5, in_max: 1, out_min: ZERO, out_max: ONE });
    assert(find_knot(ks, "c"@) == Some(0int));
    assert(find_knot(ks, "map"@) == Some(1int));
    assert(knot_fault(ks, 0) is None);
    assert(knot_fault(ks, 1) == Some(a05_fault()));
    assert(scan_knots(ks, 0) == Some(a05_fault()));
}

/// Building the inverted A05 topology ends in the `Map` range refusal.
pub proof fn lemma_a05_outcome(w: Result<Weave, BuildError>)
    requires
        weave_built(w, "a05"@, a05_knots(false), a05_threads()),
    ensures
        w is Err && w->Err_0@ == BFault::Validation(a05_fault()),
{
    lemma_a05_authored(false);
    match w {
        Ok(x) => {
            lemma_a05_refused(x.spec_knots(), x.spec_threads());
        },
        Err(e) => {
            let (ks, ts) = choose|ks: Seq<KnotDef>, ts: Seq<ThreadDef>|
                #![trigger knot_shapes(ks), threads_named(ts, a05_threads())]
                knot_shapes(ks) == a05_knots(false) && threads_named(ts, a05_threads()) && structural_fault(
                    "a05"@,
                    NumericPath::spec_compiled(),
                    ks,
                    ts,
                ) is Some && e@ == BFault::Validation(structural_fault("a05"@, NumericPath::spec_compiled(), ks, ts)->Some_0);
            lemma_a05_refused(ks, ts);
        },
    }
}

/// Topology of A05, invalid because its `Map` input range is inverted.
pub fn a05_validate_fails_weave() -> (r: Result<Weave, BuildError>)
    ensures
        weave_built(r, "a05"@, a05_knots(false), a05_threads()),
        r is Err && r->Err_0@ == BFault::Validation(a05_fault()),
{
    let r = a05_validate_fails_weave_with(false);
    proof {
        lemma_a05_outcome(r);
    }
    r
}

/// Topology of A05 with an inverted (`valid_map` false) or ordered input
/// range.
pub fn a05_validate_fails_weave_with(valid_map: bool) -> (r: Result<Weave, BuildError>)
    ensures
        weave_built(r, "a05"@, a05_knots(valid_map), a05_threads()),
{
    let in_min = if valid_map {
        from_count(0)
    } else {
        from_count(5)
    };
    let knots = vec![
        knot_def("c", KnotKind::constant(ONE, SignalDomain::Level)),
        knot_def("map", KnotKind::map(in_min, from_count(1), ZERO, ONE, SignalDomain::Level)),
        knot_def("o", KnotKind::signal_out("y", SignalDomain::Level)),
    ];
    let threads: &[(&str, &str, &str, &str)] = &[("c", "out", "map", "in"), ("map", "out", "o", "in")];
    proof {
        assert(knot_shapes(knots@) =~= a05_knots(valid_map));
        assert(thread_names(threads@) =~= a05_threads());
    }
    build_weave("a05", knots, threads)
}

/// How A05 reports the outcome `w` of building its weave: the expected
/// parameter refusal passes, another build error is itself, and an accepted
/// weave is reported as the refusal the lesson expects.
pub open spec fn a05_verdict(w: Result<Weave, BuildError>, r: Result<(), CookbookError>) -> bool {
    match w {
        Err(BuildError::Validation(ValidationError::InvalidParameter { .. })) => r is Ok,
        Err(e) => r == Err::<(), CookbookError>(CookbookError::Build(e)),
        Ok(_) => r matches Err(CookbookError::Validation(v)) && v@ == a05_fault(),
    }
}

/// A05: validation refuses the inverted `Map` range. Any other outcome is
/// reported: another build error as itself, and an accepted weave as the
/// parameter error the lesson expects.
pub fn run_a05_validate_fails() -> (r: Result<(), CookbookError>)
    ensures
        r is Ok,
{
    let r = run_a05_validate_fails_with(false);
    proof {
        let w = choose|w: Result<Weave, BuildError>|
            weave_built(w, "a05"@, a05_knots(false), a05_threads()) && #[trigger] a05_verdict(w, r);
        lemma_a05_outcome(w);
    }
    r
}

/// A05 over the chosen range.
pub fn run_a05_validate_fails_with(valid_map: bool) -> (r: Result<(), CookbookError>)
    ensures
        exists|w: Result<Weave, BuildError>|
            weave_built(w, "a05"@, a05_knots(valid_map), a05_threads()) && #[trigger] a05_verdict(w, r),
{
    let w = a05_validate_fails_weave_with(valid_map);
    let ghost gw = w;
    let r = match w {
        Err(BuildError::Validation(ValidationError::InvalidParameter { .. })) => Ok(()),
        Err(e) => Err(CookbookError::Build(e)),
        Ok(_) => Err(
            CookbookError::Validation(
                ValidationError::InvalidParameter { knot_id: crate::text::to_owned_string("map"), parameter: "in_min", reason: "must not exceed in_max" },
            ),
        ),
    };
    proof {
        assert(a05_verdict(gw, r));
    }
    r
}

} // verus!
