//! Shared checks, frame drivers and graph assembly for the tutorial recipes.

use vstd::prelude::*;

use crate::builder::{port_handle_fault, row_ok, BFault, KnotRef, WeaveBuilder};
use crate::catalog::{find_port, lemma_find_port, port_table, KnotKind, NumericPath, PortDir, PortSpec, SignalDomain};
use crate::handles::{HostPathId, SenseId};
use crate::host::{apply_senses, tick_once, writes_result, ScriptedHost};
use crate::outbox::{Emit, SignalOutSample};
use crate::recipe::resolve_error_is;
use crate::runtime::{find_name, BindOpts, HostTime, Runtime};
use crate::runtime_error::{BindError, CookbookError, HandleError, RecipeEndpoint, RecipeError, ScenarioError};
use crate::signal::{is_truthy, truthy, Signal, ZERO};
use crate::text::{str_eq, to_owned_string};
use crate::validate::{find_knot, find_knot_from, find_knot_index, port_names, structural_fault, VFault, ValidationError, MAX_DENSE};
use crate::weave::{KnotDef, ThreadDef, Weave};

verus! {

/// The first sample written for `path` in `signals`.
pub open spec fn sample_of(signals: Seq<SignalOutSample>, path: HostPathId) -> Option<Signal>
    decreases signals.len(),
{
    if signals.len() == 0 {
        None
    } else if signals[0].path == path {
        Some(signals[0].value)
    } else {
        sample_of(signals.drop_first(), path)
    }
}

/// The handle of host path `path` in `rt`, if it is bound.
pub open(crate) spec fn path_handle(rt: Runtime, path: Seq<char>) -> Option<HostPathId> {
    match find_name(rt.spec_path_names(), path) {
        Some(i) => Some(HostPathId { owner: rt.spec_owner(), index: i as u16 }),
        None => None,
    }
}

/// The sample of host path `path` in `rt`'s current outbox.
pub open spec fn signal_out_of(rt: Runtime, path: Seq<char>) -> Option<Signal> {
    match path_handle(rt, path) {
        Some(h) => sample_of(rt.spec_outbox().0, h),
        None => None,
    }
}

/// Whether emit `e` stands for the command named `name` in `rt`.
pub open spec fn emit_named(rt: Runtime, e: Emit, name: Seq<char>) -> bool {
    &&& e.cmd.spec_owner() == rt.spec_owner()
    &&& e.cmd.spec_index() < rt.spec_cmd_names().len()
    &&& rt.spec_cmd_names()[e.cmd.spec_index() as int]@ == name
}

/// How many of `emits` stand for the command `name`.
pub open spec fn count_named(rt: Runtime, emits: Seq<Emit>, name: Seq<char>) -> nat
    decreases emits.len(),
{
    if emits.len() == 0 {
        0
    } else {
        count_named(rt, emits.drop_last(), name) + if emit_named(rt, emits.last(), name) {
            1nat
        } else {
            0nat
        }
    }
}

/// A knot kind with its text fields taken as character sequences.
pub enum KnotShape {
    Plain(KnotKind),
    Out { path: Seq<char>, domain: SignalDomain },
    Emit { name: Seq<char> },
}

/// The shape of `k`.
pub open spec fn shape_of(k: KnotKind) -> KnotShape {
    match k {
        KnotKind::SignalOut { path, domain } => KnotShape::Out { path: path@, domain },
        KnotKind::EmitCommand { name } => KnotShape::Emit { name: name@ },
        _ => KnotShape::Plain(k),
    }
}

/// The port table of a knot of shape `s` (the text fields do not matter).
pub open spec fn shape_table(s: KnotShape) -> Seq<PortSpec> {
    match s {
        KnotShape::Plain(k) => port_table(k),
        KnotShape::Out { domain, .. } => port_table(KnotKind::SignalOut { path: arbitrary(), domain }),
        KnotShape::Emit { .. } => port_table(KnotKind::EmitCommand { name: arbitrary() }),
    }
}

/// Ids and shapes of `ks`, in order.
pub open spec fn knot_shapes(ks: Seq<KnotDef>) -> Seq<(Seq<char>, KnotShape)> {
    ks.map_values(|k: KnotDef| (k.id@, shape_of(k.kind)))
}

/// Threads given as `(from knot, from port, to knot, to port)` names.
pub open spec fn thread_names(ts: Seq<(&str, &str, &str, &str)>) -> Seq<(Seq<char>, Seq<char>, Seq<char>, Seq<char>)> {
    ts.map_values(|t: (&str, &str, &str, &str)| (t.0@, t.1@, t.2@, t.3@))
}

/// Index of the first entry at or after `i` of `d` named `name`.
pub open spec fn find_shape_from(d: Seq<(Seq<char>, KnotShape)>, name: Seq<char>, i: int) -> Option<int>
    decreases d.len() - i,
{
    if i < 0 || i >= d.len() {
        None
    } else if d[i].0 == name {
        Some(i)
    } else {
        find_shape_from(d, name, i + 1)
    }
}

/// Index of the first entry of `d` named `name`.
pub open spec fn find_shape(d: Seq<(Seq<char>, KnotShape)>, name: Seq<char>) -> Option<int> {
    find_shape_from(d, name, 0)
}

/// Why adding the knot `d[i]` after `d[0..i]` is refused.
pub open spec fn add_fault(d: Seq<(Seq<char>, KnotShape)>, i: int) -> Option<BFault> {
    let id = d[i].0;
    if id.len() == 0 {
        Some(BFault::InvalidId { id, reason: "knot ids must be non-empty"@ })
    } else if i > MAX_DENSE {
        Some(BFault::RepresentationOverflow { what: "knot"@, actual: i as nat, limit: MAX_DENSE as nat })
    } else if find_shape(d.subrange(0, i), id) is Some {
        Some(BFault::DuplicateKnotId { knot_id: id })
    } else {
        None
    }
}

/// The first refused knot addition at or after `i`.
pub open spec fn scan_adds(d: Seq<(Seq<char>, KnotShape)>, i: int) -> Option<BFault>
    decreases d.len() - i,
{
    if i < 0 || i >= d.len() {
        None
    } else if add_fault(d, i) is Some {
        add_fault(d, i)
    } else {
        scan_adds(d, i + 1)
    }
}

/// Why port `port` of the knot `d[k]` cannot be taken in direction `dir`.
pub open spec fn end_fault(d: Seq<(Seq<char>, KnotShape)>, k: int, port: Seq<char>, dir: PortDir) -> Option<BFault> {
    let t = shape_table(d[k].1);
    match find_port(t, port) {
        None => Some(BFault::UnknownPort { knot_id: d[k].0, port, expected: port_names(t) }),
        Some(p) => if t[p].dir != dir {
            Some(BFault::WrongPortDirection { knot_id: d[k].0, port, expected: dir, actual: t[p].dir })
        } else {
            None
        },
    }
}

/// Why the thread `th` cannot be wired among the knots `d`.
pub open spec fn wire_fault(d: Seq<(Seq<char>, KnotShape)>, th: (Seq<char>, Seq<char>, Seq<char>, Seq<char>)) -> Option<BFault> {
    match find_shape(d, th.0) {
        None => Some(BFault::Validation(VFault::UnknownKnot { knot_id: th.0 })),
        Some(fi) => match find_shape(d, th.2) {
            None => Some(BFault::Validation(VFault::UnknownKnot { knot_id: th.2 })),
            Some(ti) => if end_fault(d, fi, th.1, PortDir::Out) is Some {
                end_fault(d, fi, th.1, PortDir::Out)
            } else {
                end_fault(d, ti, th.3, PortDir::In)
            },
        },
    }
}

/// The first thread at or after `j` that cannot be wired.
pub open spec fn scan_wires(
    d: Seq<(Seq<char>, KnotShape)>,
    names: Seq<(Seq<char>, Seq<char>, Seq<char>, Seq<char>)>,
    j: int,
) -> Option<BFault>
    decreases names.len() - j,
{
    if j < 0 || j >= names.len() {
        None
    } else if wire_fault(d, names[j]) is Some {
        wire_fault(d, names[j])
    } else {
        scan_wires(d, names, j + 1)
    }
}

/// The first authoring failure of the weave `id` with knots `d` and
/// threads `names`, before validation.
pub open spec fn assembly_fault(
    id: Seq<char>,
    d: Seq<(Seq<char>, KnotShape)>,
    names: Seq<(Seq<char>, Seq<char>, Seq<char>, Seq<char>)>,
) -> Option<BFault> {
    if id.len() == 0 {
        Some(BFault::InvalidId { id, reason: "weave ids must be non-empty"@ })
    } else if scan_adds(d, 0) is Some {
        scan_adds(d, 0)
    } else {
        scan_wires(d, names, 0)
    }
}

/// `ts` are the threads named by `names`, in order.
pub open spec fn threads_named(ts: Seq<ThreadDef>, names: Seq<(Seq<char>, Seq<char>, Seq<char>, Seq<char>)>) -> bool {
    &&& ts.len() == names.len()
    &&& forall|j: int|
        0 <= j < ts.len() ==> (#[trigger] ts[j]).from.knot@ == names[j].0 && ts[j].from.port@ == names[j].1
            && ts[j].to.knot@ == names[j].2 && ts[j].to.port@ == names[j].3
}

/// `r` is the outcome of authoring the weave `id` from the knots `d` and
/// the threads `names`, in order, and validating it: the weave itself, the
/// first authoring failure, or the validation failure.
pub open spec fn weave_built(
    r: Result<Weave, crate::builder::BuildError>,
    id: Seq<char>,
    d: Seq<(Seq<char>, KnotShape)>,
    names: Seq<(Seq<char>, Seq<char>, Seq<char>, Seq<char>)>,
) -> bool {
    match r {
        Ok(w) => {
            &&& assembly_fault(id, d, names) is None
            &&& w.spec_id() == id
            &&& w.spec_numeric() == NumericPath::spec_compiled()
            &&& knot_shapes(w.spec_knots()) == d
            &&& threads_named(w.spec_threads(), names)
            &&& structural_fault(id, NumericPath::spec_compiled(), w.spec_knots(), w.spec_threads()) is None
        },
        Err(e) => match assembly_fault(id, d, names) {
            Some(f) => e@ == f,
            None => exists|ks: Seq<KnotDef>, ts: Seq<ThreadDef>|
                #![trigger knot_shapes(ks), threads_named(ts, names)]
                knot_shapes(ks) == d && threads_named(ts, names) && structural_fault(
                    id,
                    NumericPath::spec_compiled(),
                    ks,
                    ts,
                ) is Some && e@ == BFault::Validation(
                    structural_fault(id, NumericPath::spec_compiled(), ks, ts)->Some_0,
                ),
        },
    }
}

/// No entry of `d` at or after `i` is named `name`.
pub proof fn lemma_find_shape_from_none(d: Seq<(Seq<char>, KnotShape)>, name: Seq<char>, i: int)
    requires
        0 <= i,
        forall|j: int| i <= j < d.len() ==> (#[trigger] d[j]).0 != name,
    ensures
        find_shape_from(d, name, i) is None,
    decreases d.len() - i,
{
    if i < d.len() {
        lemma_find_shape_from_none(d, name, i + 1);
    }
}

/// Knot additions that are all accepted can be skipped when looking for the
/// first refused one.
pub proof fn lemma_scan_adds_skip(d: Seq<(Seq<char>, KnotShape)>, a: int, b: int)
    requires
        0 <= a <= b <= d.len(),
        forall|i: int| a <= i < b ==> #[trigger] add_fault(d, i) is None,
    ensures
        scan_adds(d, a) == scan_adds(d, b),
    decreases b - a,
{
    if a < b {
        lemma_scan_adds_skip(d, a + 1, b);
    }
}

/// The knot `d[i]` is accepted when its id is non-empty, within capacity,
/// and differs from every earlier id.
pub proof fn lemma_add_ok(d: Seq<(Seq<char>, KnotShape)>, i: int)
    requires
        0 <= i < d.len(),
        i <= MAX_DENSE,
        d[i].0.len() > 0,
        forall|j: int| 0 <= j < i ==> (#[trigger] d[j]).0 != d[i].0,
    ensures
        add_fault(d, i) is None,
{
    let p = d.subrange(0, i);
    assert forall|j: int| 0 <= j < p.len() implies (#[trigger] p[j]).0 != d[i].0 by {
        assert(p[j] == d[j]);
    }
    lemma_find_shape_from_none(p, d[i].0, 0);
}

proof fn lemma_find_shape_from(ks: Seq<KnotDef>, name: Seq<char>, i: int)
    ensures
        find_knot_from(ks, name, i) == find_shape_from(knot_shapes(ks), name, i),
    decreases ks.len() - i,
{
    if 0 <= i < ks.len() && ks[i].id@ != name {
        lemma_find_shape_from(ks, name, i + 1);
    }
}

/// Looking a knot up by name sees only the ids.
proof fn lemma_find_shape(ks: Seq<KnotDef>, name: Seq<char>)
    ensures
        find_knot(ks, name) == find_shape(knot_shapes(ks), name),
{
    lemma_find_shape_from(ks, name, 0);
}

/// Taking a port of a knot of this builder sees only its id and shape.
proof fn lemma_end_fault(ks: Seq<KnotDef>, owner: u64, k: u16, port: Seq<char>, dir: PortDir)
    requires
        k < ks.len(),
    ensures
        port_handle_fault(ks, owner, owner, k, port, dir) == end_fault(knot_shapes(ks), k as int, port, dir),
{
    assert(port_table(ks[k as int].kind) == shape_table(shape_of(ks[k as int].kind)));
}

/// The sample `rt` wrote this frame for the host path `path`, if any.
pub fn signal_out_sample(rt: &Runtime, path: &str) -> (r: Option<Signal>)
    requires
        rt.wf(),
    ensures
        r == signal_out_of(*rt, path@),
{
    let pid = match rt.path_id(path) {
        Some(pid) => pid,
        None => {
            return None;
        },
    };
    let ob = rt.outbox();
    let signals = ob.signals();
    let ghost all = signals@;
    proof {
        assert(all.subrange(0, all.len() as int) =~= all);
        assert(path_handle(*rt, path@) == Some(pid));
    }
    let mut i: usize = 0;
    while i < signals.len()
        invariant
            i <= all.len(),
            all == signals@,
            all == rt.spec_outbox().0,
            path_handle(*rt, path@) == Some(pid),
            sample_of(all, pid) == sample_of(all.subrange(i as int, all.len() as int), pid),
        decreases all.len() - i,
    {
        let ghost rest = all.subrange(i as int, all.len() as int);
        assert(rest.drop_first() =~= all.subrange(i + 1, all.len() as int));
        if signals[i].path == pid {
            return Some(signals[i].value);
        }
        i = i + 1;
    }
    None
}

/// The sample `rt` wrote this frame for the bound host path `path`.
pub fn signal_out_value(rt: &Runtime, path: &str) -> (v: Signal)
    requires
        rt.wf(),
        signal_out_of(*rt, path@) is Some,
    ensures
        Some(v) == signal_out_of(*rt, path@),
{
    match signal_out_sample(rt, path) {
        Some(v) => v,
        None => ZERO,
    }
}

/// Whether the bound host path `path` got a truthy sample this frame.
pub fn signal_out_truthy(rt: &Runtime, path: &str) -> (b: bool)
    requires
        rt.wf(),
        signal_out_of(*rt, path@) is Some,
    ensures
        b == truthy(signal_out_of(*rt, path@).unwrap()),
{
    is_truthy(signal_out_value(rt, path))
}

/// How many emits of this frame stand for the command `cmd_name`.
pub fn emit_count(rt: &Runtime, cmd_name: &str) -> (n: usize)
    ensures
        n == count_named(*rt, rt.spec_outbox().1, cmd_name@),
{
    let ob = rt.outbox();
    let emits = ob.emits();
    let ghost all = emits@;
    let mut n: usize = 0;
    let mut i: usize = 0;
    while i < emits.len()
        invariant
            i <= all.len(),
            all == emits@,
            all == rt.spec_outbox().1,
            n == count_named(*rt, all.subrange(0, i as int), cmd_name@),
            n <= i,
        decreases all.len() - i,
    {
        let e = emits[i];
        let hit = match rt.cmd_name(e.cmd) {
            Ok(name) => str_eq(name, cmd_name),
            Err(_) => false,
        };
        assert(all.subrange(0, i + 1).drop_last() =~= all.subrange(0, i as int));
        if hit {
            n = n + 1;
        }
        i = i + 1;
    }
    assert(all.subrange(0, all.len() as int) =~= all);
    n
}

/// Bind `weave` with the default options.
pub fn bind_default(weave: &Weave) -> (r: Result<Runtime, BindError>)
    ensures
        match r {
            Ok(rt) => crate::runtime::bound_from(rt, *weave, crate::runtime::spec_default_bind_opts()),
            Err(e) => crate::runtime::bind_refused(*weave, crate::runtime::spec_default_bind_opts(), e),
        },
{
    Runtime::bind(weave.copy(), BindOpts::default())
}

/// Begin frame `tick`, write `senses` in order, and settle.
pub fn sample_loom(rt: &mut Runtime, tick: u64, senses: &[(SenseId, Signal)]) -> (r: Result<(), HandleError>)
    requires
        old(rt).wf(),
    ensures
        final(rt).wf(),
        final(rt).same_tables(old(rt)),
        final(rt).spec_tick() == tick,
        final(rt).spec_phase() == if r is Ok {
            2u8
        } else {
            1u8
        },
        r is Ok <==> forall|j: int| 0 <= j < senses@.len() ==> crate::host::write_ok(*old(rt), #[trigger] senses@[j].0, senses@[j].1),
        crate::host::frame_ran(*old(rt), senses@, r, *final(rt)),
{
    rt.begin_frame(HostTime { tick });
    let ghost begun = *rt;
    match apply_senses(rt, senses) {
        Ok(()) => {},
        Err(e) => {
            proof {
                let j = choose|j: int|
                    {
                        &&& 0 <= j < senses@.len()
                        &&& forall|q: int| 0 <= q < j ==> crate::host::write_ok(begun, #[trigger] senses@[q].0, senses@[q].1)
                        &&& crate::outbox::set_sense_result(begun, senses@[j].0, senses@[j].1, Err(e), begun)
                    };
                assert(!crate::host::write_ok(*old(rt), senses@[j].0, senses@[j].1));
                assert(crate::settle::dyn_of(*rt) =~= crate::settle::dyn_of(begun));
                assert forall|q: int| 0 <= q < j implies crate::host::write_ok(*old(rt), #[trigger] senses@[q].0, senses@[q].1) by {
                    assert(crate::host::write_ok(begun, senses@[q].0, senses@[q].1));
                }
                assert(begun.spec_sense_values() == old(rt).spec_sense_values());
                assert(crate::outbox::set_sense_result(*old(rt), senses@[j].0, senses@[j].1, Err(e), *old(rt)));
            }
            return Err(e);
        },
    }
    proof {
        assert forall|j: int| 0 <= j < senses@.len() implies crate::host::write_ok(*old(rt), #[trigger] senses@[j].0, senses@[j].1) by {
            assert(crate::host::write_ok(begun, senses@[j].0, senses@[j].1));
        }
        assert(crate::settle::dyn_of(*rt) =~= crate::settle::dyn_of(begun));
        assert(crate::settle::tables_of(*rt) =~= crate::settle::tables_of(*old(rt)));
    }
    rt.loom();
    Ok(())
}

/// Queue one frame of sense writes on `host` behind those already queued,
/// and run the host's next frame: `senses` itself when nothing was queued.
pub fn tick_senses(host: &mut ScriptedHost, rt: &mut Runtime, senses: &[(SenseId, Signal)]) -> (r: Result<(), HandleError>)
    requires
        old(host).host_wf(),
        old(rt).wf(),
        old(host).spec_tick() < u64::MAX,
    ensures
        final(host).host_wf(),
        final(rt).wf(),
        final(rt).same_tables(old(rt)),
        final(rt).spec_tick() == old(host).spec_tick(),
        final(host).pending() == old(host).pending().push(senses@).drop_first(),
        ({
            let f = old(host).pending().push(senses@)[0];
            &&& r is Ok <==> forall|j: int| 0 <= j < f.len() ==> crate::host::write_ok(*old(rt), #[trigger] f[j].0, f[j].1)
            &&& crate::host::frame_ran(*old(rt), f, r, *final(rt))
        }),
        match r {
            Ok(()) => final(rt).spec_phase() == 2 && final(host).spec_tick() == old(host).spec_tick() + 1,
            Err(_) => final(rt).spec_phase() == 1 && final(host).spec_tick() == old(host).spec_tick(),
        },
{
    host.push_frame(senses);
    assert(crate::host::queued(*host) == old(host).pending().push(senses@)[0]);
    tick_once(host, rt)
}

/// A knot definition.
pub fn knot_def(id: &str, kind: KnotKind) -> (k: KnotDef)
    ensures
        k.id@ == id@,
        k.kind == kind,
{
    KnotDef { id: to_owned_string(id), kind }
}

/// `ks` lists knots with exactly the ids and kinds of `defs`.
pub open spec fn same_knots(ks: Seq<KnotDef>, defs: Seq<KnotDef>) -> bool {
    &&& ks.len() == defs.len()
    &&& forall|i: int| 0 <= i < ks.len() ==> (#[trigger] ks[i]).id@ == defs[i].id@ && ks[i].kind == defs[i].kind
}

/// Connect output `from_port` of `from` to input `to_port` of `to`.
pub fn wire(b: &mut WeaveBuilder, from: &KnotRef, from_port: &str, to: &KnotRef, to_port: &str) -> (r: Result<(), crate::builder::BuildError>)
    requires
        old(b).wf(),
    ensures
        final(b).wf(),
        final(b).spec_id() == old(b).spec_id(),
        final(b).spec_numeric() == old(b).spec_numeric(),
        final(b).spec_knots() == old(b).spec_knots(),
        final(b).spec_owner() == old(b).spec_owner(),
        ({
            let ks = old(b).spec_knots();
            let out_fault = port_handle_fault(ks, old(b).spec_owner(), from.spec_owner(), from.spec_index(), from_port@, PortDir::Out);
            let in_fault = port_handle_fault(ks, old(b).spec_owner(), to.spec_owner(), to.spec_index(), to_port@, PortDir::In);
            match r {
                Ok(()) => {
                    let t = final(b).spec_threads().last();
                    &&& out_fault is None
                    &&& in_fault is None
                    &&& final(b).spec_threads().len() == old(b).spec_threads().len() + 1
                    &&& final(b).spec_threads().drop_last() == old(b).spec_threads()
                    &&& t.from.knot@ == ks[from.spec_index() as int].id@
                    &&& t.from.port@ == from_port@
                    &&& t.to.knot@ == ks[to.spec_index() as int].id@
                    &&& t.to.port@ == to_port@
                },
                Err(e) => {
                    &&& final(b).spec_threads() == old(b).spec_threads()
                    &&& if out_fault is Some {
                        e@ == out_fault->Some_0
                    } else {
                        in_fault is Some && e@ == in_fault->Some_0
                    }
                },
            }
        }),
{
    let o = match b.output(from, from_port) {
        Ok(o) => o,
        Err(e) => {
            return Err(e);
        },
    };
    let i = match b.input(to, to_port) {
        Ok(i) => i,
        Err(e) => {
            return Err(e);
        },
    };
    proof {
        let ks = b.spec_knots();
        let ft = port_table(ks[o.spec_knot() as int].kind);
        let tt = port_table(ks[i.spec_knot() as int].kind);
        lemma_find_port(ft, from_port@);
        lemma_find_port(tt, to_port@);
        assert(row_ok(ks, o.spec_knot(), o.spec_row(), PortDir::Out));
        assert(row_ok(ks, i.spec_knot(), i.spec_row(), PortDir::In));
    }
    b.connect(o, i)
}

/// Assemble and validate the weave `id` from knots and
/// `(from knot, from port, to knot, to port)` threads.
pub fn build_weave(id: &str, knots: Vec<KnotDef>, threads: &[(&str, &str, &str, &str)]) -> (r: Result<Weave, crate::builder::BuildError>)
    ensures
        weave_built(r, id@, knot_shapes(knots@), thread_names(threads@)),
{
    let ghost d = knot_shapes(knots@);
    let ghost names = thread_names(threads@);
    let mut b = match Weave::builder(id) {
        Ok(b) => b,
        Err(e) => {
            return Err(e);
        },
    };
    let mut refs: Vec<KnotRef> = Vec::new();
    let n = knots.len();
    let mut i: usize = 0;
    while i < n
        invariant
            n == knots@.len(),
            d == knot_shapes(knots@),
            id@.len() > 0,
            i <= n,
            b.wf(),
            b.spec_id() == id@,
            b.spec_numeric() == NumericPath::spec_compiled(),
            b.spec_threads().len() == 0,
            knot_shapes(b.spec_knots()) == d.subrange(0, i as int),
            refs@.len() == i,
            forall|j: int| 0 <= j < i ==> (#[trigger] refs@[j]).spec_index() == j && refs@[j].spec_owner() == b.spec_owner(),
            scan_adds(d, 0) == scan_adds(d, i as int),
        decreases n - i,
    {
        let ghost before = b.spec_knots();
        proof {
            lemma_find_shape(before, knots@[i as int].id@);
            assert(knot_shapes(before).len() == i);
        }
        let kind = crate::weave::copy_kind(&knots[i].kind);
        match b.knot(knots[i].id.as_str(), kind) {
            Ok(k) => {
                refs.push(k);
            },
            Err(e) => {
                proof {
                    assert(add_fault(d, i as int) is Some);
                }
                return Err(e);
            },
        }
        proof {
            assert(add_fault(d, i as int) is None);
            assert(knot_shapes(b.spec_knots()) =~= d.subrange(0, i + 1)) by {
                assert(knot_shapes(b.spec_knots()).drop_last() == knot_shapes(before));
            }
        }
        i = i + 1;
    }
    proof {
        assert(d.subrange(0, n as int) =~= d);
        assert(scan_adds(d, n as int) is None);
    }
    let mut t: usize = 0;
    while t < threads.len()
        invariant
            n == knots@.len(),
            d == knot_shapes(knots@),
            names == thread_names(threads@),
            id@.len() > 0,
            scan_adds(d, 0) is None,
            t <= threads@.len(),
            b.wf(),
            b.spec_id() == id@,
            b.spec_numeric() == NumericPath::spec_compiled(),
            knot_shapes(b.spec_knots()) == d,
            threads_named(b.spec_threads(), names.subrange(0, t as int)),
            refs@.len() == n,
            forall|j: int| 0 <= j < n ==> (#[trigger] refs@[j]).spec_index() == j && refs@[j].spec_owner() == b.spec_owner(),
            scan_wires(d, names, 0) == scan_wires(d, names, t as int),
        decreases threads@.len() - t,
    {
        let (fk, fp, tk, tp) = threads[t];
        let ghost th = names[t as int];
        proof {
            lemma_find_shape(knots@, fk@);
            lemma_find_shape(knots@, tk@);
        }
        let fi = match find_knot_index(&knots, fk) {
            Some(x) => x,
            None => {
                proof {
                    assert(wire_fault(d, th) is Some);
                }
                return Err(crate::builder::BuildError::Validation(ValidationError::UnknownKnot { knot_id: to_owned_string(fk) }));
            },
        };
        let ti = match find_knot_index(&knots, tk) {
            Some(x) => x,
            None => {
                proof {
                    assert(wire_fault(d, th) is Some);
                }
                return Err(crate::builder::BuildError::Validation(ValidationError::UnknownKnot { knot_id: to_owned_string(tk) }));
            },
        };
        proof {
            crate::validate::lemma_find_knot(knots@, fk@);
            crate::validate::lemma_find_knot(knots@, tk@);
            lemma_end_fault(b.spec_knots(), b.spec_owner(), fi as u16, fp@, PortDir::Out);
            lemma_end_fault(b.spec_knots(), b.spec_owner(), ti as u16, tp@, PortDir::In);
        }
        let ghost before = b.spec_threads();
        match wire(&mut b, &refs[fi], fp, &refs[ti], tp) {
            Ok(()) => {},
            Err(e) => {
                proof {
                    assert(wire_fault(d, th) is Some);
                }
                return Err(e);
            },
        }
        proof {
            assert(wire_fault(d, th) is None);
            let ts = b.spec_threads();
            let ns = names.subrange(0, t + 1);
            assert forall|j: int| 0 <= j < ts.len() implies (#[trigger] ts[j]).from.knot@ == ns[j].0 && ts[j].from.port@ == ns[j].1
                && ts[j].to.knot@ == ns[j].2 && ts[j].to.port@ == ns[j].3 by {
                if j < t {
                    assert(ts[j] == before[j]);
                    assert(ns[j] == names.subrange(0, t as int)[j]);
                }
            }
        }
        t = t + 1;
    }
    proof {
        assert(names.subrange(0, threads@.len() as int) =~= names);
        assert(scan_wires(d, names, threads@.len() as int) is None);
    }
    match b.build() {
        Ok(w) => Ok(w),
        Err(e) => {
            proof {
                assert(knot_shapes(b.spec_knots()) == d && threads_named(b.spec_threads(), names));
            }
            Err(crate::builder::BuildError::Validation(e))
        },
    }
}

/// The tick a check reports: the frame the runtime last began.
fn check_tick(rt: &Runtime) -> (t: u64)
    ensures
        t == rt.spec_tick(),
{
    rt.tick
}

/// Check that host path `path` got a sample this frame whose truthiness is
/// `want`.
pub fn expect_truthy(rt: &Runtime, path: &str, want: bool) -> (r: Result<(), CookbookError>)
    requires
        rt.wf(),
    ensures
        r is Ok <==> (signal_out_of(*rt, path@) is Some && truthy(signal_out_of(*rt, path@).unwrap()) == want),
{
    match signal_out_sample(rt, path) {
        None => Err(CookbookError::Scenario(ScenarioError::MissingSignal { path: to_owned_string(path), tick: check_tick(rt) })),
        Some(v) => {
            if is_truthy(v) == want {
                Ok(())
            } else if want {
                Err(CookbookError::Scenario(ScenarioError::ExpectedTruthy { path: to_owned_string(path), actual: v, tick: check_tick(rt) }))
            } else {
                Err(
                    CookbookError::Scenario(
                        ScenarioError::UnexpectedSignal { path: to_owned_string(path), expected: ZERO, actual: v, tick: check_tick(rt) },
                    ),
                )
            }
        },
    }
}

/// Check that host path `path` got the sample `expected` this frame.
pub fn expect_value(rt: &Runtime, path: &str, expected: Signal) -> (r: Result<(), CookbookError>)
    requires
        rt.wf(),
    ensures
        r is Ok <==> signal_out_of(*rt, path@) == Some(expected),
{
    match signal_out_sample(rt, path) {
        None => Err(CookbookError::Scenario(ScenarioError::MissingSignal { path: to_owned_string(path), tick: check_tick(rt) })),
        Some(v) => {
            if v == expected {
                Ok(())
            } else {
                Err(
                    CookbookError::Scenario(
                        ScenarioError::UnexpectedSignal { path: to_owned_string(path), expected, actual: v, tick: check_tick(rt) },
                    ),
                )
            }
        },
    }
}

/// Check that the command `cmd` fired exactly `expected` times this frame.
pub fn expect_emits(rt: &Runtime, cmd: &str, expected: usize) -> (r: Result<(), CookbookError>)
    ensures
        r is Ok <==> count_named(*rt, rt.spec_outbox().1, cmd@) == expected,
{
    let actual = emit_count(rt, cmd);
    if actual == expected {
        Ok(())
    } else {
        Err(
            CookbookError::Scenario(
                ScenarioError::UnexpectedEmits { command: to_owned_string(cmd), expected, actual, tick: check_tick(rt) },
            ),
        )
    }
}

/// The sense handle of the `SignalIn` knot `name`.
pub fn sense(rt: &Runtime, name: &str) -> (r: Result<SenseId, CookbookError>)
    requires
        rt.wf(),
    ensures
        match r {
            Ok(id) => find_knot(rt.spec_knots(), name@) == Some(id.spec_index() as int)
                && rt.spec_knots()[id.spec_index() as int].kind is SignalIn && id.spec_owner() == rt.spec_owner(),
            Err(e) => !(find_knot(rt.spec_knots(), name@) matches Some(k) && rt.spec_knots()[k].kind is SignalIn),
        },
{
    match rt.required_sense(name) {
        Ok(id) => Ok(id),
        Err(e) => Err(CookbookError::Scenario(ScenarioError::Recipe(RecipeError::Resolve(e)))),
    }
}

} // verus!
