//! Structural validation of authored graphs, and budget validation of a
//! [`Weave`].
//!
//! Structural validation decides whether a [`WeaveDef`] may become a
//! [`Weave`]: representable sizes, a non-empty id and knot list, the compiled
//! numeric path, well-formed knots, resolvable and correctly directed threads
//! without fan-in, wired required inputs, and an acyclic graph. The first
//! violation, in that order, is reported.
//!
//! Budget validation checks a `Weave` against hard limits (knots, threads,
//! fan-out, chain depth, delay path sum) and reports soft-limit warnings.

use vstd::prelude::*;

use crate::catalog::{
    find_port, find_port_index, port_table, ports_of, CompareOp, KnotKind, NumericPath, PortDir,
    PortSpec, SignalDomain,
};
use crate::graph::{
    acyclic, edges_in_range, heaviest_path_to, longest_path_to, longest_paths, no_self_loops, path_weight,
    topo_sort, Edges, is_path,
};
use crate::text::{copy_string, push_str, push_u64, str_eq};
use crate::weave::{KnotDef, ThreadDef, Weave, WeaveDef};

verus! {

/// Largest number of knots or threads a graph may hold (dense `u16` ids).
pub const MAX_DENSE: usize = 65535;

/// Structural or budget validation failure, with the offending context.
#[derive(Clone, Debug, PartialEq, Eq)]
pub enum ValidationError {
    InvalidWeaveId { weave_id: String, reason: &'static str },
    InvalidKnotId { knot_id: String, reason: &'static str },
    EmptyWeave { weave_id: String },
    DuplicateKnotId { knot_id: String },
    UnknownKnot { knot_id: String },
    UnknownPort { knot_id: String, port: String, expected: Vec<String> },
    WrongPortDirection { knot_id: String, port: String, expected: PortDir, actual: PortDir },
    FanIn { knot_id: String, port: String },
    Cycle { at_knot: Option<String> },
    UnconnectedRequired { knot_id: String, port: String },
    BudgetExceeded {
        metric: &'static str,
        actual: u64,
        limit: u64,
        at_knot: Option<String>,
    },
    NumericMismatch { expected: NumericPath, actual: NumericPath },
    InvalidParameter { knot_id: String, parameter: &'static str, reason: &'static str },
    RepresentationOverflow { what: &'static str, actual: usize, limit: usize },
    InvalidPatternId { pattern_id: String, reason: &'static str },
    DuplicateExport { export: String },
    DuplicatePatternInput {
        knot_id: String,
        port: String,
        first_export: String,
        duplicate_export: String,
    },
    PatternInputAlreadyConnected { export: String, knot_id: String, port: String },
}

/// A validation failure as a mathematical value.
pub enum VFault {
    InvalidWeaveId { weave_id: Seq<char>, reason: Seq<char> },
    InvalidKnotId { knot_id: Seq<char>, reason: Seq<char> },
    EmptyWeave { weave_id: Seq<char> },
    DuplicateKnotId { knot_id: Seq<char> },
    UnknownKnot { knot_id: Seq<char> },
    UnknownPort { knot_id: Seq<char>, port: Seq<char>, expected: Seq<Seq<char>> },
    WrongPortDirection { knot_id: Seq<char>, port: Seq<char>, expected: PortDir, actual: PortDir },
    FanIn { knot_id: Seq<char>, port: Seq<char> },
    Cycle { at_knot: Option<Seq<char>> },
    UnconnectedRequired { knot_id: Seq<char>, port: Seq<char> },
    BudgetExceeded { metric: Seq<char>, actual: nat, limit: nat, at_knot: Option<Seq<char>> },
    NumericMismatch { expected: NumericPath, actual: NumericPath },
    InvalidParameter { knot_id: Seq<char>, parameter: Seq<char>, reason: Seq<char> },
    RepresentationOverflow { what: Seq<char>, actual: nat, limit: nat },
    InvalidPatternId { pattern_id: Seq<char>, reason: Seq<char> },
    DuplicateExport { export: Seq<char> },
    DuplicatePatternInput {
        knot_id: Seq<char>,
        port: Seq<char>,
        first_export: Seq<char>,
        duplicate_export: Seq<char>,
    },
    PatternInputAlreadyConnected { export: Seq<char>, knot_id: Seq<char>, port: Seq<char> },
}

pub open spec fn opt_view(o: Option<String>) -> Option<Seq<char>> {
    match o {
        Some(s) => Some(s@),
        None => None,
    }
}

pub open spec fn names_view(v: Seq<String>) -> Seq<Seq<char>> {
    v.map_values(|s: String| s@)
}

impl View for ValidationError {
    type V = VFault;

    open spec fn view(&self) -> VFault {
        match *self {
            ValidationError::InvalidWeaveId { weave_id, reason } => VFault::InvalidWeaveId {
                weave_id: weave_id@,
                reason: reason@,
            },
            ValidationError::InvalidKnotId { knot_id, reason } => VFault::InvalidKnotId {
                knot_id: knot_id@,
                reason: reason@,
            },
            ValidationError::EmptyWeave { weave_id } => VFault::EmptyWeave { weave_id: weave_id@ },
            ValidationError::DuplicateKnotId { knot_id } => VFault::DuplicateKnotId { knot_id: knot_id@ },
            ValidationError::UnknownKnot { knot_id } => VFault::UnknownKnot { knot_id: knot_id@ },
            ValidationError::UnknownPort { knot_id, port, expected } => VFault::UnknownPort {
                knot_id: knot_id@,
                port: port@,
                expected: names_view(expected@),
            },
            ValidationError::WrongPortDirection { knot_id, port, expected, actual } =>
                VFault::WrongPortDirection { knot_id: knot_id@, port: port@, expected, actual },
            ValidationError::FanIn { knot_id, port } => VFault::FanIn { knot_id: knot_id@, port: port@ },
            ValidationError::Cycle { at_knot } => VFault::Cycle { at_knot: opt_view(at_knot) },
            ValidationError::UnconnectedRequired { knot_id, port } => VFault::UnconnectedRequired {
                knot_id: knot_id@,
                port: port@,
            },
            ValidationError::BudgetExceeded { metric, actual, limit, at_knot } =>
                VFault::BudgetExceeded {
                    metric: metric@,
                    actual: actual as nat,
                    limit: limit as nat,
                    at_knot: opt_view(at_knot),
                },
            ValidationError::NumericMismatch { expected, actual } => VFault::NumericMismatch {
                expected,
                actual,
            },
            ValidationError::InvalidParameter { knot_id, parameter, reason } =>
                VFault::InvalidParameter { knot_id: knot_id@, parameter: parameter@, reason: reason@ },
            ValidationError::RepresentationOverflow { what, actual, limit } =>
                VFault::RepresentationOverflow { what: what@, actual: actual as nat, limit: limit as nat },
            ValidationError::InvalidPatternId { pattern_id, reason } => VFault::InvalidPatternId {
                pattern_id: pattern_id@,
                reason: reason@,
            },
            ValidationError::DuplicateExport { export } => VFault::DuplicateExport { export: export@ },
            ValidationError::DuplicatePatternInput { knot_id, port, first_export, duplicate_export } =>
                VFault::DuplicatePatternInput {
                knot_id: knot_id@,
                port: port@,
                first_export: first_export@,
                duplicate_export: duplicate_export@,
            },
            ValidationError::PatternInputAlreadyConnected { export, knot_id, port } =>
                VFault::PatternInputAlreadyConnected { export: export@, knot_id: knot_id@, port: port@ },
        }
    }
}

// ---------------------------------------------------------------------------
// Name resolution
// ---------------------------------------------------------------------------

/// Index of the first knot at or after `i` whose id is `name`.
pub open spec fn find_knot_from(ks: Seq<KnotDef>, name: Seq<char>, i: int) -> Option<int>
    decreases ks.len() - i,
{
    if i < 0 || i >= ks.len() {
        None
    } else if ks[i].id@ == name {
        Some(i)
    } else {
        find_knot_from(ks, name, i + 1)
    }
}

/// Index of the first knot whose id is `name`.
pub open spec fn find_knot(ks: Seq<KnotDef>, name: Seq<char>) -> Option<int> {
    find_knot_from(ks, name, 0)
}

pub proof fn lemma_find_knot_from(ks: Seq<KnotDef>, name: Seq<char>, i: int)
    requires
        0 <= i,
    ensures
        match find_knot_from(ks, name, i) {
            Some(j) => i <= j < ks.len() && ks[j].id@ == name && forall|k: int| i <= k < j ==> ks[k].id@ != name,
            None => forall|k: int| i <= k < ks.len() ==> ks[k].id@ != name,
        },
    decreases ks.len() - i,
{
    if i < ks.len() && ks[i].id@ != name {
        lemma_find_knot_from(ks, name, i + 1);
    }
}

pub proof fn lemma_find_knot(ks: Seq<KnotDef>, name: Seq<char>)
    ensures
        match find_knot(ks, name) {
            Some(j) => 0 <= j < ks.len() && ks[j].id@ == name && forall|k: int| 0 <= k < j ==> ks[k].id@ != name,
            None => forall|k: int| 0 <= k < ks.len() ==> ks[k].id@ != name,
        },
{
    lemma_find_knot_from(ks, name, 0);
}

/// First index of a knot named `name`.
pub fn find_knot_index(ks: &Vec<KnotDef>, name: &str) -> (r: Option<usize>)
    ensures
        match r {
            Some(j) => find_knot(ks@, name@) == Some(j as int),
            None => find_knot(ks@, name@) is None,
        },
{
    let mut j: usize = 0;
    while j < ks.len()
        invariant
            j <= ks@.len(),
            find_knot(ks@, name@) == find_knot_from(ks@, name@, j as int),
        decreases ks@.len() - j,
    {
        if str_eq(ks[j].id.as_str(), name) {
            return Some(j);
        }
        j = j + 1;
    }
    None
}

// ---------------------------------------------------------------------------
// Knot well-formedness
// ---------------------------------------------------------------------------

/// The parameter that makes `kind` invalid, with the reason.
pub open spec fn param_fault(kind: KnotKind) -> Option<(Seq<char>, Seq<char>)> {
    match kind {
        KnotKind::And { arity } | KnotKind::Or { arity } => if 2 <= arity <= 4 {
            None
        } else {
            Some(("arity"@, "gate arity must be between 2 and 4"@))
        },
        KnotKind::Compare { domain, op, .. } => if domain == SignalDomain::Bool && !(op
            == CompareOp::Eq || op == CompareOp::Ne) {
            Some(("domain"@, "comparison operator does not support the selected domain"@))
        } else {
            None
        },
        KnotKind::Clamp { min, max, .. } => if min > max {
            Some(("min"@, "must not exceed max"@))
        } else {
            None
        },
        KnotKind::MapRange { in_min, in_max, .. } => if in_min > in_max {
            Some(("in_min"@, "must not exceed in_max"@))
        } else {
            None
        },
        KnotKind::Threshold { high, low, use_hysteresis, .. } => if use_hysteresis && low > high {
            Some(("low"@, "must not exceed high"@))
        } else {
            None
        },
        _ => None,
    }
}

pub open spec fn knot_fault(ks: Seq<KnotDef>, i: int) -> Option<VFault> {
    let k = ks[i];
    if k.id@.len() == 0 {
        Some(VFault::InvalidKnotId { knot_id: k.id@, reason: "knot ids must be non-empty"@ })
    } else if find_knot(ks, k.id@) != Some(i) {
        Some(VFault::DuplicateKnotId { knot_id: k.id@ })
    } else {
        match param_fault(k.kind) {
            Some((p, r)) => Some(VFault::InvalidParameter { knot_id: k.id@, parameter: p, reason: r }),
            None => None,
        }
    }
}

/// The first knot fault at or after index `i`.
pub open spec fn scan_knots(ks: Seq<KnotDef>, i: int) -> Option<VFault>
    decreases ks.len() - i,
{
    if i < 0 || i >= ks.len() {
        None
    } else if knot_fault(ks, i) is Some {
        knot_fault(ks, i)
    } else {
        scan_knots(ks, i + 1)
    }
}

pub proof fn lemma_scan_knots_none(ks: Seq<KnotDef>, i: int)
    requires
        0 <= i,
        scan_knots(ks, i) is None,
    ensures
        forall|k: int| i <= k < ks.len() ==> knot_fault(ks, k) is None,
    decreases ks.len() - i,
{
    if i < ks.len() {
        lemma_scan_knots_none(ks, i + 1);
    }
}

fn param_fault_exec(kind: &KnotKind) -> (r: Option<(&'static str, &'static str)>)
    ensures
        match r {
            Some((p, q)) => param_fault(*kind) == Some((p@, q@)),
            None => param_fault(*kind) is None,
        },
{
    match kind {
        KnotKind::And { arity } | KnotKind::Or { arity } => {
            if 2 <= *arity && *arity <= 4 {
                None
            } else {
                Some(("arity", "gate arity must be between 2 and 4"))
            }
        },
        KnotKind::Compare { domain, op, .. } => {
            let bool_domain = match domain {
                SignalDomain::Bool => true,
                _ => false,
            };
            let equality = match op {
                CompareOp::Eq | CompareOp::Ne => true,
                _ => false,
            };
            if bool_domain && !equality {
                Some(("domain", "comparison operator does not support the selected domain"))
            } else {
                None
            }
        },
        KnotKind::Clamp { min, max, .. } => {
            if *min > *max {
                Some(("min", "must not exceed max"))
            } else {
                None
            }
        },
        KnotKind::MapRange { in_min, in_max, .. } => {
            if *in_min > *in_max {
                Some(("in_min", "must not exceed in_max"))
            } else {
                None
            }
        },
        KnotKind::Threshold { high, low, use_hysteresis, .. } => {
            if *use_hysteresis && *low > *high {
                Some(("low", "must not exceed high"))
            } else {
                None
            }
        },
        _ => None,
    }
}

fn check_knot(ks: &Vec<KnotDef>, i: usize) -> (r: Result<(), ValidationError>)
    requires
        i < ks@.len(),
    ensures
        match r {
            Ok(()) => knot_fault(ks@, i as int) is None,
            Err(e) => knot_fault(ks@, i as int) == Some(e@),
        },
{
    let k = &ks[i];
    if k.id.as_str().is_empty() {
        return Err(ValidationError::InvalidKnotId { knot_id: copy_string(&k.id), reason: "knot ids must be non-empty" });
    }
    match find_knot_index(ks, k.id.as_str()) {
        Some(j) => {
            if j != i {
                return Err(ValidationError::DuplicateKnotId { knot_id: copy_string(&k.id) });
            }
        },
        None => {
            proof {
                lemma_find_knot(ks@, k.id@);
            }
            return Err(ValidationError::DuplicateKnotId { knot_id: copy_string(&k.id) });
        },
    }
    match param_fault_exec(&k.kind) {
        Some((p, q)) => Err(ValidationError::InvalidParameter { knot_id: copy_string(&k.id), parameter: p, reason: q }),
        None => Ok(()),
    }
}


// ---------------------------------------------------------------------------
// Thread resolution
// ---------------------------------------------------------------------------

/// Names of the ports of a table, in slot order.
pub open spec fn port_names(t: Seq<PortSpec>) -> Seq<Seq<char>> {
    t.map_values(|r: PortSpec| r.name)
}

/// The (knot index, port row) an endpoint resolves to.
pub open spec fn resolve(ks: Seq<KnotDef>, knot: Seq<char>, port: Seq<char>) -> Option<(int, int)> {
    match find_knot(ks, knot) {
        Some(i) => match find_port(port_table(ks[i].kind), port) {
            Some(p) => Some((i, p)),
            None => None,
        },
        None => None,
    }
}

pub open spec fn target_of(ks: Seq<KnotDef>, t: ThreadDef) -> Option<(int, int)> {
    resolve(ks, t.to.knot@, t.to.port@)
}

pub open spec fn source_of(ks: Seq<KnotDef>, t: ThreadDef) -> Option<(int, int)> {
    resolve(ks, t.from.knot@, t.from.port@)
}

/// Some thread before `t` feeds the same input port.
pub open spec fn earlier_same_target(ks: Seq<KnotDef>, ts: Seq<ThreadDef>, t: int) -> bool {
    exists|s: int| 0 <= s < t && #[trigger] target_of(ks, ts[s]) == target_of(ks, ts[t])
}

pub open spec fn thread_fault(ks: Seq<KnotDef>, ts: Seq<ThreadDef>, t: int) -> Option<VFault> {
    let th = ts[t];
    match (find_knot(ks, th.from.knot@), find_knot(ks, th.to.knot@)) {
        (None, _) => Some(VFault::UnknownKnot { knot_id: th.from.knot@ }),
        (Some(_), None) => Some(VFault::UnknownKnot { knot_id: th.to.knot@ }),
        (Some(fi), Some(ti)) => {
            let ft = port_table(ks[fi].kind);
            let tt = port_table(ks[ti].kind);
            match (find_port(ft, th.from.port@), find_port(tt, th.to.port@)) {
                (None, _) => Some(
                    VFault::UnknownPort { knot_id: th.from.knot@, port: th.from.port@, expected: port_names(ft) },
                ),
                (Some(_), None) => Some(
                    VFault::UnknownPort { knot_id: th.to.knot@, port: th.to.port@, expected: port_names(tt) },
                ),
                (Some(fp), Some(tp)) => if ft[fp].dir != PortDir::Out {
                    Some(
                        VFault::WrongPortDirection {
                            knot_id: th.from.knot@,
                            port: th.from.port@,
                            expected: PortDir::Out,
                            actual: ft[fp].dir,
                        },
                    )
                } else if tt[tp].dir != PortDir::In {
                    Some(
                        VFault::WrongPortDirection {
                            knot_id: th.to.knot@,
                            port: th.to.port@,
                            expected: PortDir::In,
                            actual: tt[tp].dir,
                        },
                    )
                } else if earlier_same_target(ks, ts, t) {
                    Some(VFault::FanIn { knot_id: th.to.knot@, port: th.to.port@ })
                } else {
                    None
                },
            }
        },
    }
}

/// The first thread fault at or after index `t`.
pub open spec fn scan_threads(ks: Seq<KnotDef>, ts: Seq<ThreadDef>, t: int) -> Option<VFault>
    decreases ts.len() - t,
{
    if t < 0 || t >= ts.len() {
        None
    } else if thread_fault(ks, ts, t) is Some {
        thread_fault(ks, ts, t)
    } else {
        scan_threads(ks, ts, t + 1)
    }
}

pub proof fn lemma_scan_threads_none(ks: Seq<KnotDef>, ts: Seq<ThreadDef>, t: int)
    requires
        0 <= t,
        scan_threads(ks, ts, t) is None,
    ensures
        forall|k: int| t <= k < ts.len() ==> thread_fault(ks, ts, k) is None,
    decreases ts.len() - t,
{
    if t < ts.len() {
        lemma_scan_threads_none(ks, ts, t + 1);
    }
}

/// The names of the ports of `kind`, as owned strings.
pub fn port_name_list(kind: &KnotKind) -> (r: Vec<String>)
    ensures
        names_view(r@) == port_names(port_table(*kind)),
{
    let ports = ports_of(kind);
    let mut r: Vec<String> = Vec::new();
    let mut j: usize = 0;
    while j < ports.len()
        invariant
            j <= ports@.len(),
            crate::catalog::ports_match(ports@, port_table(*kind)),
            r@.len() == j,
            forall|k: int| 0 <= k < j ==> #[trigger] r@[k]@ == port_table(*kind)[k].name,
        decreases ports@.len() - j,
    {
        r.push(ports[j].name.to_owned());
        proof {
            assert(ports@[j as int].spec() == port_table(*kind)[j as int]);
        }
        j = j + 1;
    }
    assert(names_view(r@) =~= port_names(port_table(*kind)));
    r
}

/// Resolve a port name on `kind` to its row, with the row's direction.
pub fn resolve_port_row(kind: &KnotKind, name: &str) -> (r: Option<(usize, PortDir)>)
    ensures
        match r {
            Some((p, d)) => find_port(port_table(*kind), name@) == Some(p as int) && port_table(
                *kind,
            )[p as int].dir == d,
            None => find_port(port_table(*kind), name@) is None,
        },
{
    let ports = ports_of(kind);
    let r = find_port_index(&ports, name);
    proof {
        let t = port_table(*kind);
        crate::catalog::lemma_find_port(t, name@);
        assert forall|k: int| 0 <= k < t.len() implies #[trigger] t[k].name == ports@[k].name@ by {
            assert(ports@[k].spec() == t[k]);
        }
    }
    match r {
        Some(j) => {
            proof {
                crate::catalog::lemma_find_port_is(port_table(*kind), name@, j as int);
                assert(ports@[j as int].spec() == port_table(*kind)[j as int]);
            }
            Some((j, ports[j].dir))
        },
        None => {
            proof {
                crate::catalog::lemma_find_port_none(port_table(*kind), name@);
            }
            None
        },
    }
}

fn dir_eq(a: PortDir, b: PortDir) -> (r: bool)
    ensures
        r == (a == b),
{
    match (a, b) {
        (PortDir::In, PortDir::In) => true,
        (PortDir::Out, PortDir::Out) => true,
        _ => false,
    }
}

/// Check thread `t`, given the resolved targets of the threads before it.
/// On success returns (from knot, to knot, target row).
#[verifier::loop_isolation(false)]
fn check_thread(ks: &Vec<KnotDef>, ts: &Vec<ThreadDef>, t: usize, targets: &Vec<(usize, usize)>) -> (r: Result<
    (usize, usize, usize),
    ValidationError,
>)
    requires
        t < ts@.len(),
        targets@.len() == t,
        forall|s: int| 0 <= s < t ==> target_of(ks@, ts@[s]) == Some(
            ((#[trigger] targets@[s]).0 as int, targets@[s].1 as int),
        ),
    ensures
        match r {
            Ok((a, b, p)) => thread_fault(ks@, ts@, t as int) is None && source_of(ks@, ts@[t as int])
                is Some && source_of(ks@, ts@[t as int])->Some_0.0 == a && target_of(ks@, ts@[t as int])
                == Some((b as int, p as int)),
            Err(e) => thread_fault(ks@, ts@, t as int) == Some(e@),
        },
{
    let th = &ts[t];
    let fi = match find_knot_index(ks, th.from.knot.as_str()) {
        Some(i) => i,
        None => {
            return Err(ValidationError::UnknownKnot { knot_id: copy_string(&th.from.knot) });
        },
    };
    let ti = match find_knot_index(ks, th.to.knot.as_str()) {
        Some(i) => i,
        None => {
            return Err(ValidationError::UnknownKnot { knot_id: copy_string(&th.to.knot) });
        },
    };
    proof {
        lemma_find_knot(ks@, th.from.knot@);
        lemma_find_knot(ks@, th.to.knot@);
    }
    let fk = &ks[fi].kind;
    let tk = &ks[ti].kind;
    let (fp, fd) = match resolve_port_row(fk, th.from.port.as_str()) {
        Some(x) => x,
        None => {
            return Err(
                ValidationError::UnknownPort {
                    knot_id: copy_string(&th.from.knot),
                    port: copy_string(&th.from.port),
                    expected: port_name_list(fk),
                },
            );
        },
    };
    let (tp, td) = match resolve_port_row(tk, th.to.port.as_str()) {
        Some(x) => x,
        None => {
            return Err(
                ValidationError::UnknownPort {
                    knot_id: copy_string(&th.to.knot),
                    port: copy_string(&th.to.port),
                    expected: port_name_list(tk),
                },
            );
        },
    };
    if !dir_eq(fd, PortDir::Out) {
        return Err(
            ValidationError::WrongPortDirection {
                knot_id: copy_string(&th.from.knot),
                port: copy_string(&th.from.port),
                expected: PortDir::Out,
                actual: fd,
            },
        );
    }
    if !dir_eq(td, PortDir::In) {
        return Err(
            ValidationError::WrongPortDirection {
                knot_id: copy_string(&th.to.knot),
                port: copy_string(&th.to.port),
                expected: PortDir::In,
                actual: td,
            },
        );
    }
    let mut s: usize = 0;
    while s < t
        invariant
            s <= t,
            t < ts@.len(),
            targets@.len() == t,
            target_of(ks@, ts@[t as int]) == Some((ti as int, tp as int)),
            forall|s: int| 0 <= s < t ==> target_of(ks@, ts@[s]) == Some(
                ((#[trigger] targets@[s]).0 as int, targets@[s].1 as int),
            ),
            forall|q: int| 0 <= q < s ==> target_of(ks@, #[trigger] ts@[q]) != target_of(ks@, ts@[t as int]),
        decreases t - s,
    {
        let (a, b) = targets[s];
        if a == ti && b == tp {
            proof {
                assert(target_of(ks@, ts@[s as int]) == target_of(ks@, ts@[t as int]));
                assert(earlier_same_target(ks@, ts@, t as int));
            }
            let e = ValidationError::FanIn { knot_id: copy_string(&th.to.knot), port: copy_string(&th.to.port) };
            proof {
                assert(find_knot(ks@, th.from.knot@) == Some(fi as int));
                assert(find_knot(ks@, th.to.knot@) == Some(ti as int));
                assert(find_port(port_table(ks@[fi as int].kind), th.from.port@) == Some(fp as int));
                assert(find_port(port_table(ks@[ti as int].kind), th.to.port@) == Some(tp as int));
                assert(thread_fault(ks@, ts@, t as int) == Some(e@));
            }
            return Err(e);
        }
        proof {
            assert(target_of(ks@, ts@[s as int]) == Some(((targets@[s as int]).0 as int, targets@[s as int].1 as int)));
        }
        s = s + 1;
    }
    proof {
        if earlier_same_target(ks@, ts@, t as int) {
            let q = choose|q: int| 0 <= q < t && #[trigger] target_of(ks@, ts@[q]) == target_of(ks@, ts@[t as int]);
            assert(target_of(ks@, ts@[q]) != target_of(ks@, ts@[t as int]));
        }
    }
    Ok((fi, ti, tp))
}


// ---------------------------------------------------------------------------
// Required inputs, self loops, cycles
// ---------------------------------------------------------------------------

/// An input row that must be fed by a thread (`Compare`'s `rhs` is optional
/// when the knot carries a constant right-hand side).
pub open spec fn needed(kind: KnotKind, row: PortSpec) -> bool {
    row.dir == PortDir::In && match kind {
        KnotKind::Compare { rhs_const: Some(_), .. } => row.slot != 1 && row.required,
        _ => row.required,
    }
}

/// Some thread feeds row `p` of knot `i`.
pub open spec fn wired(ks: Seq<KnotDef>, ts: Seq<ThreadDef>, i: int, p: int) -> bool {
    exists|s: int| 0 <= s < ts.len() && #[trigger] target_of(ks, ts[s]) == Some((i, p))
}

pub open spec fn port_missing(ks: Seq<KnotDef>, ts: Seq<ThreadDef>, ext: Seq<(int, int)>, i: int, p: int) -> bool {
    needed(ks[i].kind, port_table(ks[i].kind)[p]) && !wired(ks, ts, i, p) && !ext.contains((i, p))
}

/// The first unfed required row of knot `i`, at or after row `p`.
pub open spec fn scan_ports(ks: Seq<KnotDef>, ts: Seq<ThreadDef>, ext: Seq<(int, int)>, i: int, p: int) -> Option<int>
    decreases port_table(ks[i].kind).len() - p,
{
    if p < 0 || p >= port_table(ks[i].kind).len() {
        None
    } else if port_missing(ks, ts, ext, i, p) {
        Some(p)
    } else {
        scan_ports(ks, ts, ext, i, p + 1)
    }
}

/// The first (knot, row) with an unfed required input, at or after knot `i`.
pub open spec fn scan_required(ks: Seq<KnotDef>, ts: Seq<ThreadDef>, ext: Seq<(int, int)>, i: int) -> Option<(int, int)>
    decreases ks.len() - i,
{
    if i < 0 || i >= ks.len() {
        None
    } else {
        match scan_ports(ks, ts, ext, i, 0) {
            Some(p) => Some((i, p)),
            None => scan_required(ks, ts, ext, i + 1),
        }
    }
}

pub proof fn lemma_scan_ports_none(ks: Seq<KnotDef>, ts: Seq<ThreadDef>, ext: Seq<(int, int)>, i: int, p: int)
    requires
        0 <= p,
        scan_ports(ks, ts, ext, i, p) is None,
    ensures
        forall|q: int| p <= q < port_table(ks[i].kind).len() ==> !port_missing(ks, ts, ext, i, q),
    decreases port_table(ks[i].kind).len() - p,
{
    if p < port_table(ks[i].kind).len() {
        lemma_scan_ports_none(ks, ts, ext, i, p + 1);
    }
}

pub proof fn lemma_scan_required_none(ks: Seq<KnotDef>, ts: Seq<ThreadDef>, ext: Seq<(int, int)>, i: int)
    requires
        0 <= i,
        scan_required(ks, ts, ext, i) is None,
    ensures
        forall|k: int, q: int|
            i <= k < ks.len() && 0 <= q < port_table(ks[k].kind).len() ==> !#[trigger] port_missing(ks, ts, ext, k, q),
    decreases ks.len() - i,
{
    if i < ks.len() {
        lemma_scan_ports_none(ks, ts, ext, i, 0);
        lemma_scan_required_none(ks, ts, ext, i + 1);
    }
}

/// The knot index a thread leaves from and arrives at.
pub open spec fn thread_knots(ks: Seq<KnotDef>, t: ThreadDef) -> (int, int) {
    (find_knot(ks, t.from.knot@)->Some_0, find_knot(ks, t.to.knot@)->Some_0)
}

/// The first thread at or after `t` that leaves and enters the same knot.
pub open spec fn scan_self(ks: Seq<KnotDef>, ts: Seq<ThreadDef>, t: int) -> Option<int>
    decreases ts.len() - t,
{
    if t < 0 || t >= ts.len() {
        None
    } else if thread_knots(ks, ts[t]).0 == thread_knots(ks, ts[t]).1 {
        Some(t)
    } else {
        scan_self(ks, ts, t + 1)
    }
}

pub proof fn lemma_scan_self_none(ks: Seq<KnotDef>, ts: Seq<ThreadDef>, t: int)
    requires
        0 <= t,
        scan_self(ks, ts, t) is None,
    ensures
        forall|k: int| t <= k < ts.len() ==> #[trigger] thread_knots(ks, ts[k]).0 != thread_knots(ks, ts[k]).1,
    decreases ts.len() - t,
{
    if t < ts.len() {
        lemma_scan_self_none(ks, ts, t + 1);
    }
}

/// The knot-level edges of a graph whose threads all resolve.
pub open spec fn knot_edges(ks: Seq<KnotDef>, ts: Seq<ThreadDef>) -> Edges {
    Seq::new(
        ts.len(),
        |t: int| (thread_knots(ks, ts[t]).0 as usize, thread_knots(ks, ts[t]).1 as usize),
    )
}

/// The first structural fault of a graph, in checking order.
pub open spec fn structural_fault(
    id: Seq<char>,
    numeric: NumericPath,
    ks: Seq<KnotDef>,
    ts: Seq<ThreadDef>,
) -> Option<VFault> {
    structural_fault_ext(id, numeric, ks, ts, Seq::empty())
}

/// The first structural fault when the rows in `ext` count as fed from
/// outside the graph.
pub open spec fn structural_fault_ext(
    id: Seq<char>,
    numeric: NumericPath,
    ks: Seq<KnotDef>,
    ts: Seq<ThreadDef>,
    ext: Seq<(int, int)>,
) -> Option<VFault> {
    if ks.len() > MAX_DENSE {
        Some(VFault::RepresentationOverflow { what: "knot"@, actual: ks.len(), limit: MAX_DENSE as nat })
    } else if ts.len() > MAX_DENSE {
        Some(VFault::RepresentationOverflow { what: "thread"@, actual: ts.len(), limit: MAX_DENSE as nat })
    } else if id.len() == 0 {
        Some(VFault::InvalidWeaveId { weave_id: id, reason: "weave ids must be non-empty"@ })
    } else if ks.len() == 0 {
        Some(VFault::EmptyWeave { weave_id: id })
    } else if numeric != NumericPath::spec_compiled() {
        Some(VFault::NumericMismatch { expected: NumericPath::spec_compiled(), actual: numeric })
    } else if scan_knots(ks, 0) is Some {
        scan_knots(ks, 0)
    } else if scan_threads(ks, ts, 0) is Some {
        scan_threads(ks, ts, 0)
    } else if scan_required(ks, ts, ext, 0) is Some {
        let (i, p) = scan_required(ks, ts, ext, 0)->Some_0;
        Some(VFault::UnconnectedRequired { knot_id: ks[i].id@, port: port_table(ks[i].kind)[p].name })
    } else if scan_self(ks, ts, 0) is Some {
        Some(VFault::Cycle { at_knot: Some(ts[scan_self(ks, ts, 0)->Some_0].from.knot@) })
    } else if !acyclic(ks.len(), knot_edges(ks, ts)) {
        Some(VFault::Cycle { at_knot: None })
    } else {
        None
    }
}

pub open spec fn def_fault(d: WeaveDef) -> Option<VFault> {
    structural_fault(d.id@, d.numeric, d.knots@, d.threads@)
}

fn numeric_eq(a: NumericPath, b: NumericPath) -> (r: bool)
    ensures
        r == (a == b),
{
    match (a, b) {
        (NumericPath::F32, NumericPath::F32) => true,
        (NumericPath::I32Q16, NumericPath::I32Q16) => true,
        _ => false,
    }
}

/// Resolved rows as mathematical pairs.
pub open spec fn ext_rows(v: Seq<(usize, usize)>) -> Seq<(int, int)> {
    v.map_values(|x: (usize, usize)| (x.0 as int, x.1 as int))
}

/// Is row `p` of knot `i` fed by one of the resolved `targets`?
fn is_wired(targets: &Vec<(usize, usize)>, i: usize, p: usize) -> (r: bool)
    ensures
        r == exists|s: int| 0 <= s < targets@.len() && #[trigger] targets@[s] == (i, p),
{
    let mut s: usize = 0;
    while s < targets.len()
        invariant
            s <= targets@.len(),
            forall|q: int| 0 <= q < s ==> #[trigger] targets@[q] != (i, p),
        decreases targets@.len() - s,
    {
        if targets[s].0 == i && targets[s].1 == p {
            return true;
        }
        s = s + 1;
    }
    false
}

fn check_required(ks: &Vec<KnotDef>, ts: &Vec<ThreadDef>, targets: &Vec<(usize, usize)>, ext: &Vec<(usize, usize)>) -> (r: Result<
    (),
    ValidationError,
>)
    requires
        targets@.len() == ts@.len(),
        forall|s: int| 0 <= s < ts@.len() ==> target_of(ks@, ts@[s]) == Some(
            ((#[trigger] targets@[s]).0 as int, targets@[s].1 as int),
        ),
    ensures
        match r {
            Ok(()) => scan_required(ks@, ts@, ext_rows(ext@), 0) is None,
            Err(e) => scan_required(ks@, ts@, ext_rows(ext@), 0) is Some && ({
                let (i, p) = scan_required(ks@, ts@, ext_rows(ext@), 0)->Some_0;
                e@ == VFault::UnconnectedRequired { knot_id: ks@[i].id@, port: port_table(ks@[i].kind)[p].name }
            }),
        },
{
    let ghost kv = ks@;
    let ghost tv = ts@;
    let ghost xv = ext_rows(ext@);
    let mut i: usize = 0;
    while i < ks.len()
        invariant
            kv == ks@,
            tv == ts@,
            xv == ext_rows(ext@),
            i <= ks@.len(),
            targets@.len() == ts@.len(),
            forall|s: int| 0 <= s < ts@.len() ==> target_of(ks@, ts@[s]) == Some(
                ((#[trigger] targets@[s]).0 as int, targets@[s].1 as int),
            ),
            scan_required(kv, tv, xv, 0) == scan_required(kv, tv, xv, i as int),
        decreases ks@.len() - i,
    {
        let kind = &ks[i].kind;
        let ports = ports_of(kind);
        let rhs_optional = match kind {
            KnotKind::Compare { rhs_const: Some(_), .. } => true,
            _ => false,
        };
        let mut p: usize = 0;
        while p < ports.len()
            invariant
                kv == ks@,
                tv == ts@,
                i < ks@.len(),
                *kind == ks@[i as int].kind,
                crate::catalog::ports_match(ports@, port_table(*kind)),
                p <= ports@.len(),
                targets@.len() == ts@.len(),
                forall|s: int| 0 <= s < ts@.len() ==> target_of(ks@, ts@[s]) == Some(
                    ((#[trigger] targets@[s]).0 as int, targets@[s].1 as int),
                ),
                rhs_optional == (match *kind {
                    KnotKind::Compare { rhs_const: Some(_), .. } => true,
                    _ => false,
                }),
                xv == ext_rows(ext@),
                scan_ports(kv, tv, xv, i as int, 0) == scan_ports(kv, tv, xv, i as int, p as int),
                scan_required(kv, tv, xv, 0) == scan_required(kv, tv, xv, i as int),
            decreases ports@.len() - p,
        {
            let row = ports[p];
            proof {
                assert(row.spec() == port_table(*kind)[p as int]);
            }
            let need = match row.dir {
                PortDir::In => if rhs_optional {
                    row.slot.0 != 1 && row.required
                } else {
                    row.required
                },
                PortDir::Out => false,
            };
            if need {
                let w = is_wired(targets, i, p) || is_wired(ext, i, p);
                proof {
                    if w {
                        if exists|s: int| 0 <= s < targets@.len() && #[trigger] targets@[s] == (i, p) {
                            let s = choose|s: int| 0 <= s < targets@.len() && #[trigger] targets@[s] == (i, p);
                            assert(target_of(ks@, ts@[s]) == Some((i as int, p as int)));
                            assert(wired(kv, tv, i as int, p as int));
                        } else {
                            let s = choose|s: int| 0 <= s < ext@.len() && #[trigger] ext@[s] == (i, p);
                            assert(xv[s] == (i as int, p as int));
                            assert(xv.contains((i as int, p as int)));
                        }
                    } else {
                        assert(!xv.contains((i as int, p as int))) by {
                            if xv.contains((i as int, p as int)) {
                                let s = choose|s: int| 0 <= s < xv.len() && xv[s] == (i as int, p as int);
                                assert(ext@[s] == (i, p));
                            }
                        }
                        assert forall|s: int| 0 <= s < ts@.len() implies #[trigger] target_of(kv, tv[s]) != Some(
                            (i as int, p as int),
                        ) by {
                            assert(target_of(ks@, ts@[s]) == Some(
                                ((targets@[s]).0 as int, targets@[s].1 as int),
                            ));
                            assert(targets@[s] != (i, p));
                        }
                    }
                }
                if !w {
                    proof {
                        assert(port_missing(kv, tv, xv, i as int, p as int));
                        assert(scan_required(kv, tv, xv, i as int) == Some((i as int, p as int)));
                    }
                    return Err(
                        ValidationError::UnconnectedRequired {
                            knot_id: copy_string(&ks[i].id),
                            port: row.name.to_owned(),
                        },
                    );
                }
            }
            p = p + 1;
        }
        i = i + 1;
    }
    Ok(())
}


/// Structural validation of a graph definition: the first fault in checking
/// order, or success.
pub fn validate_def(d: &WeaveDef) -> (r: Result<(), ValidationError>)
    ensures
        match r {
            Ok(()) => def_fault(*d) is None,
            Err(e) => def_fault(*d) == Some(e@),
        },
{
    let ext: Vec<(usize, usize)> = Vec::new();
    proof {
        assert(ext_rows(ext@) =~= Seq::<(int, int)>::empty());
    }
    validate_def_ext(d, &ext)
}

/// Structural validation where the rows in `ext` are fed from outside the
/// graph (the exported inputs of a pattern).
#[verifier::loop_isolation(false)]
pub fn validate_def_ext(d: &WeaveDef, ext: &Vec<(usize, usize)>) -> (r: Result<(), ValidationError>)
    ensures
        match r {
            Ok(()) => structural_fault_ext(d.id@, d.numeric, d.knots@, d.threads@, ext_rows(ext@)) is None,
            Err(e) => structural_fault_ext(d.id@, d.numeric, d.knots@, d.threads@, ext_rows(ext@)) == Some(e@),
        },
{
    let ks = &d.knots;
    let ts = &d.threads;
    if ks.len() > MAX_DENSE {
        return Err(ValidationError::RepresentationOverflow { what: "knot", actual: ks.len(), limit: MAX_DENSE });
    }
    if ts.len() > MAX_DENSE {
        return Err(ValidationError::RepresentationOverflow { what: "thread", actual: ts.len(), limit: MAX_DENSE });
    }
    if d.id.as_str().is_empty() {
        return Err(ValidationError::InvalidWeaveId { weave_id: copy_string(&d.id), reason: "weave ids must be non-empty" });
    }
    if ks.len() == 0 {
        return Err(ValidationError::EmptyWeave { weave_id: copy_string(&d.id) });
    }
    if !numeric_eq(d.numeric, NumericPath::compiled()) {
        return Err(ValidationError::NumericMismatch { expected: NumericPath::compiled(), actual: d.numeric });
    }
    let ghost kv = ks@;
    let ghost tv = ts@;
    let mut i: usize = 0;
    while i < ks.len()
        invariant
            kv == ks@,
            i <= kv.len(),
            scan_knots(kv, 0) == scan_knots(kv, i as int),
        decreases kv.len() - i,
    {
        match check_knot(ks, i) {
            Ok(()) => {},
            Err(e) => {
                return Err(e);
            },
        }
        i = i + 1;
    }
    let mut targets: Vec<(usize, usize)> = Vec::new();
    let mut edges: Vec<(usize, usize)> = Vec::new();
    let mut t: usize = 0;
    while t < ts.len()
        invariant
            kv == ks@,
            tv == ts@,
            t <= tv.len(),
            tv.len() <= MAX_DENSE,
            targets@.len() == t,
            edges@.len() == t,
            scan_threads(kv, tv, 0) == scan_threads(kv, tv, t as int),
            forall|s: int| 0 <= s < t ==> target_of(kv, tv[s]) == Some(
                ((#[trigger] targets@[s]).0 as int, targets@[s].1 as int),
            ),
            forall|s: int| 0 <= s < t ==> (#[trigger] edges@[s]) == (thread_knots(kv, tv[s]).0 as usize, thread_knots(kv, tv[s]).1 as usize),
            forall|s: int| 0 <= s < t ==> (#[trigger] edges@[s]).0 < kv.len() && edges@[s].1 < kv.len(),
            forall|s: int| 0 <= s < t ==> 0 <= (#[trigger] thread_knots(kv, tv[s])).0 < kv.len() && 0 <= thread_knots(kv, tv[s]).1 < kv.len(),
        decreases tv.len() - t,
    {
        match check_thread(ks, ts, t, &targets) {
            Ok((a, b, p)) => {
                proof {
                    lemma_find_knot(kv, tv[t as int].from.knot@);
                    lemma_find_knot(kv, tv[t as int].to.knot@);
                }
                targets.push((b, p));
                edges.push((a, b));
            },
            Err(e) => {
                return Err(e);
            },
        }
        t = t + 1;
    }
    match check_required(ks, ts, &targets, ext) {
        Ok(()) => {},
        Err(e) => {
            return Err(e);
        },
    }
    let mut t: usize = 0;
    while t < edges.len()
        invariant
            kv == ks@,
            tv == ts@,
            edges@.len() == tv.len(),
            t <= tv.len(),
            forall|s: int| 0 <= s < tv.len() ==> (#[trigger] edges@[s]) == (thread_knots(kv, tv[s]).0 as usize, thread_knots(kv, tv[s]).1 as usize),
            forall|s: int| 0 <= s < tv.len() ==> (#[trigger] edges@[s]).0 < kv.len() && edges@[s].1 < kv.len(),
            forall|s: int| 0 <= s < tv.len() ==> 0 <= (#[trigger] thread_knots(kv, tv[s])).0 < kv.len() && 0 <= thread_knots(kv, tv[s]).1 < kv.len(),
            scan_self(kv, tv, 0) == scan_self(kv, tv, t as int),
        decreases tv.len() - t,
    {
        if edges[t].0 == edges[t].1 {
            return Err(ValidationError::Cycle { at_knot: Some(copy_string(&ts[t].from.knot)) });
        }
        t = t + 1;
    }
    proof {
        lemma_scan_self_none(kv, tv, 0);
        assert(edges@ =~= knot_edges(kv, tv));
        assert(no_self_loops(edges@)) by {
            assert forall|k: int| 0 <= k < edges@.len() implies (#[trigger] edges@[k]).0 != edges@[k].1 by {
                assert(thread_knots(kv, tv[k]).0 != thread_knots(kv, tv[k]).1);
            }
        }
    }
    let (order, _pos) = topo_sort(ks.len(), &edges);
    if order.len() != ks.len() {
        return Err(ValidationError::Cycle { at_knot: None });
    }
    Ok(())
}


// ---------------------------------------------------------------------------
// Budgets
// ---------------------------------------------------------------------------

/// Hard and soft size limits. Hard limits fail [`validate`]; soft limits only
/// produce warnings in [`validate_report`].
#[derive(Clone, Copy, Debug, PartialEq, Eq)]
pub struct Budget {
    /// Hard maximum number of knots.
    pub max_knots: u16,
    /// Hard maximum number of threads.
    pub max_threads: u16,
    /// Soft knot ceiling.
    pub soft_knots: u16,
    /// Soft thread ceiling.
    pub soft_threads: u16,
    /// Hard maximum number of edges on any path.
    pub max_chain_depth: u16,
    /// Soft chain depth.
    pub soft_chain_depth: u16,
    /// Hard maximum number of threads leaving one knot.
    pub max_fan_out: u16,
    /// Soft fan-out.
    pub soft_fan_out: u16,
    /// Hard maximum sum of `Delay` ticks along any path.
    pub max_delay_path_sum: u16,
}

pub open spec fn spec_default_budget() -> Budget {
    Budget {
        max_knots: 256,
        max_threads: 512,
        soft_knots: 64,
        soft_threads: 128,
        max_chain_depth: 16,
        soft_chain_depth: 8,
        max_fan_out: 8,
        soft_fan_out: 4,
        max_delay_path_sum: 32,
    }
}

impl Default for Budget {
    fn default() -> (b: Budget)
        ensures
            b == spec_default_budget(),
    {
        Budget {
            max_knots: 256,
            max_threads: 512,
            soft_knots: 64,
            soft_threads: 128,
            max_chain_depth: 16,
            soft_chain_depth: 8,
            max_fan_out: 8,
            soft_fan_out: 4,
            max_delay_path_sum: 32,
        }
    }
}

/// A soft budget exceeded (never fails validation).
#[derive(Clone, Debug, PartialEq, Eq)]
pub enum BudgetWarning {
    SoftKnots { count: u16, soft: u16 },
    SoftThreads { count: u16, soft: u16 },
    SoftChainDepth { depth: u16, soft: u16, at_knot: String },
    SoftFanOut { fan_out: u16, soft: u16, at_knot: String },
}

/// A budget warning as a mathematical value.
pub enum WFault {
    SoftKnots { count: nat, soft: nat },
    SoftThreads { count: nat, soft: nat },
    SoftChainDepth { depth: nat, soft: nat, at_knot: Seq<char> },
    SoftFanOut { fan_out: nat, soft: nat, at_knot: Seq<char> },
}

impl View for BudgetWarning {
    type V = WFault;

    open spec fn view(&self) -> WFault {
        match *self {
            BudgetWarning::SoftKnots { count, soft } => WFault::SoftKnots { count: count as nat, soft: soft as nat },
            BudgetWarning::SoftThreads { count, soft } => WFault::SoftThreads {
                count: count as nat,
                soft: soft as nat,
            },
            BudgetWarning::SoftChainDepth { depth, soft, at_knot } => WFault::SoftChainDepth {
                depth: depth as nat,
                soft: soft as nat,
                at_knot: at_knot@,
            },
            BudgetWarning::SoftFanOut { fan_out, soft, at_knot } => WFault::SoftFanOut {
                fan_out: fan_out as nat,
                soft: soft as nat,
                at_knot: at_knot@,
            },
        }
    }
}

/// Successful budget validation plus any soft-budget warnings.
#[derive(Clone, Debug, PartialEq, Eq)]
pub struct ValidateReport {
    pub warnings: Vec<BudgetWarning>,
}

impl ValidateReport {
    /// No soft budget was exceeded.
    pub fn ok(&self) -> (r: bool)
        ensures
            r == (self.warnings@.len() == 0),
    {
        self.warnings.len() == 0
    }
}

/// Delay ticks a knot adds to a path.
pub open spec fn delay_ticks(kind: KnotKind) -> u16 {
    match kind {
        KnotKind::Delay { ticks } => ticks,
        _ => 0,
    }
}

pub open spec fn delay_weights(ks: Seq<KnotDef>) -> Seq<u16> {
    ks.map_values(|k: KnotDef| delay_ticks(k.kind))
}

/// Edges among the first `k` that leave knot `a`.
pub open spec fn out_count(e: Edges, a: usize, k: int) -> nat
    decreases k,
{
    if k <= 0 {
        0
    } else {
        out_count(e, a, k - 1) + if e[k - 1].0 == a {
            1nat
        } else {
            0nat
        }
    }
}

/// The first thread at or after `t` that takes its source knot over the
/// fan-out limit.
pub open spec fn scan_fan_out(e: Edges, max: nat, t: int) -> Option<int>
    decreases e.len() - t,
{
    if t < 0 || t >= e.len() {
        None
    } else if out_count(e, e[t].0, t + 1) > max {
        Some(t)
    } else {
        scan_fan_out(e, max, t + 1)
    }
}

/// Longest path (in edges) ending at `v`.
pub open spec fn longest(e: Edges, v: usize) -> nat {
    choose|d: nat| longest_path_to(e, v, d)
}

/// Largest delay sum of a path ending at `v`.
pub open spec fn heaviest(e: Edges, w: Seq<u16>, v: usize) -> nat {
    choose|s: nat| heaviest_path_to(e, w, v, s)
}

pub proof fn lemma_longest_is(e: Edges, v: usize, d: nat)
    requires
        longest_path_to(e, v, d),
    ensures
        longest(e, v) == d,
{
    let d2 = longest(e, v);
    assert(longest_path_to(e, v, d2));
    let p = choose|p: Seq<usize>| #[trigger] is_path(e, p) && p.last() == v && p.len() - 1 == d;
    let p2 = choose|p: Seq<usize>| #[trigger] is_path(e, p) && p.last() == v && p.len() - 1 == d2;
    assert(p.len() - 1 <= d2);
    assert(p2.len() - 1 <= d);
}

pub proof fn lemma_heaviest_is(e: Edges, w: Seq<u16>, v: usize, s: nat)
    requires
        heaviest_path_to(e, w, v, s),
    ensures
        heaviest(e, w, v) == s,
{
    let s2 = heaviest(e, w, v);
    assert(heaviest_path_to(e, w, v, s2));
    let p = choose|p: Seq<usize>| #[trigger] is_path(e, p) && p.last() == v && path_weight(w, p) == s;
    let p2 = choose|p: Seq<usize>| #[trigger] is_path(e, p) && p.last() == v && path_weight(w, p) == s2;
    assert(path_weight(w, p) <= s2);
    assert(path_weight(w, p2) <= s);
}

/// The first knot at or after `v` whose longest path or delay sum exceeds
/// its hard limit.
pub open spec fn scan_depth(e: Edges, w: Seq<u16>, b: Budget, v: int) -> Option<int>
    decreases w.len() - v,
{
    if v < 0 || v >= w.len() {
        None
    } else if longest(e, v as usize) > b.max_chain_depth || heaviest(e, w, v as usize) > b.max_delay_path_sum {
        Some(v)
    } else {
        scan_depth(e, w, b, v + 1)
    }
}

pub proof fn lemma_scan_depth_none(e: Edges, w: Seq<u16>, b: Budget, v: int)
    requires
        0 <= v,
        scan_depth(e, w, b, v) is None,
    ensures
        forall|x: int| v <= x < w.len() ==> #[trigger] longest(e, x as usize) <= b.max_chain_depth && heaviest(e, w, x as usize)
            <= b.max_delay_path_sum,
    decreases w.len() - v,
{
    if v < w.len() {
        lemma_scan_depth_none(e, w, b, v + 1);
    }
}

/// The first hard budget a valid graph exceeds.
pub open spec fn budget_fault(ks: Seq<KnotDef>, ts: Seq<ThreadDef>, b: Budget) -> Option<VFault> {
    let e = knot_edges(ks, ts);
    let w = delay_weights(ks);
    if ks.len() > b.max_knots {
        Some(VFault::BudgetExceeded { metric: "knots"@, actual: ks.len(), limit: b.max_knots as nat, at_knot: None })
    } else if ts.len() > b.max_threads {
        Some(VFault::BudgetExceeded { metric: "threads"@, actual: ts.len(), limit: b.max_threads as nat, at_knot: None })
    } else if scan_fan_out(e, b.max_fan_out as nat, 0) is Some {
        let t = scan_fan_out(e, b.max_fan_out as nat, 0)->Some_0;
        Some(
            VFault::BudgetExceeded {
                metric: "fan-out"@,
                actual: out_count(e, e[t].0, t + 1),
                limit: b.max_fan_out as nat,
                at_knot: Some(ks[e[t].0 as int].id@),
            },
        )
    } else if scan_depth(e, w, b, 0) is Some {
        let v = scan_depth(e, w, b, 0)->Some_0;
        if longest(e, v as usize) > b.max_chain_depth {
            Some(
                VFault::BudgetExceeded {
                    metric: "chain depth"@,
                    actual: longest(e, v as usize),
                    limit: b.max_chain_depth as nat,
                    at_knot: Some(ks[v].id@),
                },
            )
        } else {
            Some(
                VFault::BudgetExceeded {
                    metric: "delay path sum"@,
                    actual: heaviest(e, w, v as usize),
                    limit: b.max_delay_path_sum as nat,
                    at_knot: Some(ks[v].id@),
                },
            )
        }
    } else {
        None
    }
}

/// Soft fan-out warnings for the first `k` knots.
pub open spec fn fan_out_warnings(ks: Seq<KnotDef>, e: Edges, b: Budget, k: int) -> Seq<WFault>
    decreases k,
{
    if k <= 0 {
        Seq::empty()
    } else {
        let v = k - 1;
        let c = out_count(e, v as usize, e.len() as int);
        fan_out_warnings(ks, e, b, k - 1) + if c > b.soft_fan_out {
            seq![WFault::SoftFanOut { fan_out: c, soft: b.soft_fan_out as nat, at_knot: ks[v].id@ }]
        } else {
            Seq::empty()
        }
    }
}

/// Soft chain-depth warnings for the first `k` knots.
pub open spec fn depth_warnings(ks: Seq<KnotDef>, e: Edges, b: Budget, k: int) -> Seq<WFault>
    decreases k,
{
    if k <= 0 {
        Seq::empty()
    } else {
        let v = k - 1;
        let d = longest(e, v as usize);
        depth_warnings(ks, e, b, k - 1) + if d > b.soft_chain_depth {
            seq![WFault::SoftChainDepth { depth: d, soft: b.soft_chain_depth as nat, at_knot: ks[v].id@ }]
        } else {
            Seq::empty()
        }
    }
}

/// Soft-budget warnings of a graph within its hard budget, in report order.
pub open spec fn budget_warnings(ks: Seq<KnotDef>, ts: Seq<ThreadDef>, b: Budget) -> Seq<WFault> {
    let e = knot_edges(ks, ts);
    (if ks.len() > b.soft_knots {
        seq![WFault::SoftKnots { count: ks.len(), soft: b.soft_knots as nat }]
    } else {
        Seq::empty()
    }) + (if ts.len() > b.soft_threads {
        seq![WFault::SoftThreads { count: ts.len(), soft: b.soft_threads as nat }]
    } else {
        Seq::empty()
    }) + fan_out_warnings(ks, e, b, ks.len() as int) + depth_warnings(ks, e, b, ks.len() as int)
}

pub open spec fn warnings_view(v: Seq<BudgetWarning>) -> Seq<WFault> {
    v.map_values(|w: BudgetWarning| w@)
}

/// Every thread of a valid weave resolves to in-range knot indices.
pub proof fn lemma_valid_threads_resolve(id: Seq<char>, numeric: NumericPath, ks: Seq<KnotDef>, ts: Seq<ThreadDef>)
    requires
        structural_fault(id, numeric, ks, ts) is None,
    ensures
        ks.len() <= MAX_DENSE,
        ts.len() <= MAX_DENSE,
        ks.len() > 0,
        forall|t: int| 0 <= t < ts.len() ==> thread_fault(ks, ts, t) is None,
        forall|k: int| 0 <= k < ks.len() ==> knot_fault(ks, k) is None,
        forall|t: int|
            0 <= t < ts.len() ==> 0 <= (#[trigger] thread_knots(ks, ts[t])).0 < ks.len() && 0 <= thread_knots(ks, ts[t]).1
                < ks.len(),
        forall|t: int|
            0 <= t < ts.len() ==> (#[trigger] find_knot(ks, ts[t].from.knot@)) is Some && find_knot(ks, ts[t].to.knot@) is Some,
        acyclic(ks.len(), knot_edges(ks, ts)),
        no_self_loops(knot_edges(ks, ts)),
{
    lemma_scan_self_none(ks, ts, 0);
    lemma_scan_knots_none(ks, 0);
    lemma_scan_threads_none(ks, ts, 0);
    assert forall|t: int| 0 <= t < ts.len() implies 0 <= (#[trigger] thread_knots(ks, ts[t])).0 < ks.len() && 0
        <= thread_knots(ks, ts[t]).1 < ks.len() by {
        assert(thread_fault(ks, ts, t) is None);
        lemma_find_knot(ks, ts[t].from.knot@);
        lemma_find_knot(ks, ts[t].to.knot@);
    }
    assert forall|t: int| 0 <= t < ts.len() implies (#[trigger] find_knot(ks, ts[t].from.knot@)) is Some && find_knot(
        ks,
        ts[t].to.knot@,
    ) is Some by {
        assert(thread_fault(ks, ts, t) is None);
    }
}

/// A weave that validates is well formed: its id and knot ids are
/// non-empty, knot ids are distinct, gate arities lie between 2 and 4 and
/// the bounds of clamps, ranges and hysteresis are ordered, Bool
/// comparisons only test (in)equality; every thread runs from an output
/// port to an input port of known knots, no two threads feed the same
/// input, every required input is fed, and the knot graph has no cycle.
pub proof fn law_valid_weave(id: Seq<char>, numeric: NumericPath, ks: Seq<KnotDef>, ts: Seq<ThreadDef>)
    requires
        structural_fault(id, numeric, ks, ts) is None,
    ensures
        id.len() > 0,
        ks.len() > 0,
        forall|i: int| 0 <= i < ks.len() ==> (#[trigger] ks[i]).id@.len() > 0,
        forall|i: int, j: int| 0 <= i < j < ks.len() ==> (#[trigger] ks[i]).id@ != (#[trigger] ks[j]).id@,
        forall|i: int|
            0 <= i < ks.len() ==> {
                &&& (#[trigger] ks[i]).kind matches KnotKind::And { arity } ==> 2 <= arity <= 4
                &&& ks[i].kind matches KnotKind::Or { arity } ==> 2 <= arity <= 4
                &&& ks[i].kind matches KnotKind::Clamp { min, max, .. } ==> min <= max
                &&& ks[i].kind matches KnotKind::MapRange { in_min, in_max, .. } ==> in_min <= in_max
                &&& ks[i].kind matches KnotKind::Threshold { high, low, use_hysteresis, .. } ==> (use_hysteresis ==> low <= high)
                &&& ks[i].kind matches KnotKind::Compare { domain, op, .. } ==> (domain == SignalDomain::Bool ==> op
                    == CompareOp::Eq || op == CompareOp::Ne)
            },
        forall|t: int|
            0 <= t < ts.len() ==> ((#[trigger] source_of(ks, ts[t])) matches Some((k, p)) && 0 <= k < ks.len() && 0 <= p
                < port_table(ks[k].kind).len() && port_table(ks[k].kind)[p].dir == PortDir::Out),
        forall|t: int|
            0 <= t < ts.len() ==> ((#[trigger] target_of(ks, ts[t])) matches Some((k, p)) && 0 <= k < ks.len() && 0 <= p
                < port_table(ks[k].kind).len() && port_table(ks[k].kind)[p].dir == PortDir::In),
        forall|s: int, t: int| 0 <= s < t < ts.len() ==> #[trigger] target_of(ks, ts[s]) != #[trigger] target_of(ks, ts[t]),
        forall|k: int, p: int|
            0 <= k < ks.len() && 0 <= p < port_table(ks[k].kind).len() && #[trigger] needed(ks[k].kind, port_table(ks[k].kind)[p])
                ==> exists|t: int| 0 <= t < ts.len() && #[trigger] target_of(ks, ts[t]) == Some((k, p)),
        acyclic(ks.len(), knot_edges(ks, ts)),
{
    lemma_valid_threads_resolve(id, numeric, ks, ts);
    lemma_scan_required_none(ks, ts, Seq::empty(), 0);
    assert forall|i: int, j: int| 0 <= i < j < ks.len() implies (#[trigger] ks[i]).id@ != (#[trigger] ks[j]).id@ by {
        assert(knot_fault(ks, i) is None);
        assert(knot_fault(ks, j) is None);
    }
    assert forall|i: int| 0 <= i < ks.len() implies (#[trigger] ks[i]).id@.len() > 0 by {
        assert(knot_fault(ks, i) is None);
    }
    assert forall|i: int|
        0 <= i < ks.len() implies {
            &&& (#[trigger] ks[i]).kind matches KnotKind::And { arity } ==> 2 <= arity <= 4
            &&& ks[i].kind matches KnotKind::Or { arity } ==> 2 <= arity <= 4
            &&& ks[i].kind matches KnotKind::Clamp { min, max, .. } ==> min <= max
            &&& ks[i].kind matches KnotKind::MapRange { in_min, in_max, .. } ==> in_min <= in_max
            &&& ks[i].kind matches KnotKind::Threshold { high, low, use_hysteresis, .. } ==> (use_hysteresis ==> low <= high)
            &&& ks[i].kind matches KnotKind::Compare { domain, op, .. } ==> (domain == SignalDomain::Bool ==> op == CompareOp::Eq
                || op == CompareOp::Ne)
        } by {
        assert(knot_fault(ks, i) is None);
    }
    assert forall|t: int| 0 <= t < ts.len() implies ((#[trigger] source_of(ks, ts[t])) matches Some((k, p)) && 0 <= k < ks.len()
        && 0 <= p < port_table(ks[k].kind).len() && port_table(ks[k].kind)[p].dir == PortDir::Out) by {
        assert(thread_fault(ks, ts, t) is None);
        lemma_find_knot(ks, ts[t].from.knot@);
        lemma_find_knot(ks, ts[t].to.knot@);
        let fi = find_knot(ks, ts[t].from.knot@)->Some_0;
        let ti = find_knot(ks, ts[t].to.knot@)->Some_0;
        crate::catalog::lemma_find_port(port_table(ks[fi].kind), ts[t].from.port@);
        crate::catalog::lemma_find_port(port_table(ks[ti].kind), ts[t].to.port@);
    }
    assert forall|t: int| 0 <= t < ts.len() implies ((#[trigger] target_of(ks, ts[t])) matches Some((k, p)) && 0 <= k < ks.len()
        && 0 <= p < port_table(ks[k].kind).len() && port_table(ks[k].kind)[p].dir == PortDir::In) by {
        assert(thread_fault(ks, ts, t) is None);
        lemma_find_knot(ks, ts[t].from.knot@);
        lemma_find_knot(ks, ts[t].to.knot@);
        let fi = find_knot(ks, ts[t].from.knot@)->Some_0;
        let ti = find_knot(ks, ts[t].to.knot@)->Some_0;
        crate::catalog::lemma_find_port(port_table(ks[fi].kind), ts[t].from.port@);
        crate::catalog::lemma_find_port(port_table(ks[ti].kind), ts[t].to.port@);
    }
    assert forall|s: int, t: int| 0 <= s < t < ts.len() implies #[trigger] target_of(ks, ts[s]) != #[trigger] target_of(ks, ts[t]) by {
        assert(thread_fault(ks, ts, t) is None);
        assert(!earlier_same_target(ks, ts, t));
    }
    assert forall|k: int, p: int|
        0 <= k < ks.len() && 0 <= p < port_table(ks[k].kind).len() && #[trigger] needed(ks[k].kind, port_table(ks[k].kind)[p])
            implies exists|t: int| 0 <= t < ts.len() && #[trigger] target_of(ks, ts[t]) == Some((k, p)) by {
        assert(!port_missing(ks, ts, Seq::empty(), k, p));
    }
}

/// The knot-level edges of a weave.
pub fn weave_edges(w: &Weave) -> (e: Vec<(usize, usize)>)
    ensures
        e@ == knot_edges(w.spec_knots(), w.spec_threads()),
        edges_in_range(w.spec_knots().len(), e@),
{
    proof {
        use_type_invariant(w);
        lemma_valid_threads_resolve(w.spec_id(), w.spec_numeric(), w.spec_knots(), w.spec_threads());
    }
    let ks = w.knots();
    let ts = w.threads();
    let ghost kv = ks@;
    let ghost tv = ts@;
    let mut e: Vec<(usize, usize)> = Vec::new();
    let mut t: usize = 0;
    while t < ts.len()
        invariant
            kv == ks@,
            tv == ts@,
            t <= tv.len(),
            e@.len() == t,
            forall|s: int|
                0 <= s < tv.len() ==> 0 <= (#[trigger] thread_knots(kv, tv[s])).0 < kv.len() && 0 <= thread_knots(kv, tv[s]).1
                    < kv.len(),
            forall|s: int| 0 <= s < t ==> (#[trigger] e@[s]) == (thread_knots(kv, tv[s]).0 as usize, thread_knots(kv, tv[s]).1 as usize),
            forall|s: int|
                0 <= s < tv.len() ==> (#[trigger] find_knot(kv, tv[s].from.knot@)) is Some && find_knot(kv, tv[s].to.knot@) is Some,
        decreases tv.len() - t,
    {
        proof {
            assert(find_knot(kv, tv[t as int].from.knot@) is Some);
        }
        let a = find_knot_index(ks, ts[t].from.knot.as_str());
        let b = find_knot_index(ks, ts[t].to.knot.as_str());
        proof {
            assert(0 <= thread_knots(kv, tv[t as int]).0 < kv.len());
        }
        match (a, b) {
            (Some(a), Some(b)) => {
                e.push((a, b));
            },
            _ => {
                proof {
                    assert(false);
                }
            },
        }
        t = t + 1;
    }
    assert(e@ =~= knot_edges(kv, tv));
    e
}

/// Count, for every knot, the threads that leave it; report the first thread
/// that takes its source over `max`.
fn fan_out_counts(n: usize, e: &Vec<(usize, usize)>, max: u16) -> (r: Result<Vec<u16>, usize>)
    requires
        edges_in_range(n as nat, e@),
    ensures
        match r {
            Ok(f) => scan_fan_out(e@, max as nat, 0) is None && f@.len() == n && forall|v: int|
                0 <= v < n ==> #[trigger] f@[v] == out_count(e@, v as usize, e@.len() as int),
            Err(t) => scan_fan_out(e@, max as nat, 0) == Some(t as int) && t < e@.len() && out_count(
                e@,
                e@[t as int].0,
                t + 1,
            ) == max + 1,
        },
{
    let mut f: Vec<u16> = Vec::new();
    let mut i: usize = 0;
    while i < n
        invariant
            i <= n,
            f@.len() == i,
            forall|v: int| 0 <= v < i ==> #[trigger] f@[v] == 0,
        decreases n - i,
    {
        f.push(0);
        i = i + 1;
    }
    let mut t: usize = 0;
    while t < e.len()
        invariant
            edges_in_range(n as nat, e@),
            t <= e@.len(),
            f@.len() == n,
            forall|v: int| 0 <= v < n ==> #[trigger] f@[v] == out_count(e@, v as usize, t as int),
            forall|v: int| 0 <= v < n ==> #[trigger] f@[v] <= max,
            scan_fan_out(e@, max as nat, 0) == scan_fan_out(e@, max as nat, t as int),
        decreases e@.len() - t,
    {
        let a = e[t].0;
        proof {
            assert(a < n);
        }
        if f[a] >= max {
            proof {
                assert(out_count(e@, a, t + 1) == out_count(e@, a, t as int) + 1);
            }
            return Err(t);
        }
        f.set(a, f[a] + 1);
        proof {
            assert forall|v: int| 0 <= v < n implies #[trigger] f@[v] == out_count(e@, v as usize, t + 1) by {
                assert(out_count(e@, v as usize, t + 1) == out_count(e@, v as usize, t as int) + if e@[t as int].0
                    == v as usize {
                    1nat
                } else {
                    0nat
                });
            }
        }
        t = t + 1;
    }
    Ok(f)
}


/// Check a weave against a budget: the first hard limit it exceeds, or the
/// soft-limit warnings.
#[verifier::loop_isolation(false)]
pub fn validate_report(weave: &Weave, budget: &Budget) -> (r: Result<ValidateReport, ValidationError>)
    ensures
        match r {
            Ok(rep) => budget_fault(weave.spec_knots(), weave.spec_threads(), *budget) is None && warnings_view(
                rep.warnings@,
            ) == budget_warnings(weave.spec_knots(), weave.spec_threads(), *budget),
            Err(e) => budget_fault(weave.spec_knots(), weave.spec_threads(), *budget) == Some(e@),
        },
{
    proof {
        use_type_invariant(weave);
        lemma_valid_threads_resolve(weave.spec_id(), weave.spec_numeric(), weave.spec_knots(), weave.spec_threads());
    }
    let ks = weave.knots();
    let ts = weave.threads();
    let ghost kv = ks@;
    let ghost tv = ts@;
    let n = ks.len();
    if n > budget.max_knots as usize {
        return Err(
            ValidationError::BudgetExceeded {
                metric: "knots",
                actual: n as u64,
                limit: budget.max_knots as u64,
                at_knot: None,
            },
        );
    }
    if ts.len() > budget.max_threads as usize {
        return Err(
            ValidationError::BudgetExceeded {
                metric: "threads",
                actual: ts.len() as u64,
                limit: budget.max_threads as u64,
                at_knot: None,
            },
        );
    }
    let e = weave_edges(weave);
    let ghost ev = e@;
    let fout = match fan_out_counts(n, &e, budget.max_fan_out) {
        Ok(f) => f,
        Err(t) => {
            let a = e[t].0;
            return Err(
                ValidationError::BudgetExceeded {
                    metric: "fan-out",
                    actual: budget.max_fan_out as u64 + 1,
                    limit: budget.max_fan_out as u64,
                    at_knot: Some(copy_string(&ks[a].id)),
                },
            );
        },
    };
    let (order, pos) = topo_sort(n, &e);
    let mut w: Vec<u16> = Vec::new();
    let mut i: usize = 0;
    while i < n
        invariant
            kv == ks@,
            n == kv.len(),
            i <= n,
            w@ == delay_weights(kv).subrange(0, i as int),
        decreases n - i,
    {
        let t: u16 = match &ks[i].kind {
            KnotKind::Delay { ticks } => *ticks,
            _ => 0,
        };
        w.push(t);
        proof {
            assert(w@ =~= delay_weights(kv).subrange(0, i + 1));
        }
        i = i + 1;
    }
    proof {
        assert(w@ =~= delay_weights(kv));
    }
    let (depth, heavy) = longest_paths(n, &e, &order, &pos, &w);
    let mut v: usize = 0;
    while v < n
        invariant
            kv == ks@,
            ev == e@,
            n == kv.len(),
            v <= n,
            depth@.len() == n,
            heavy@.len() == n,
            w@ == delay_weights(kv),
            forall|x: int| 0 <= x < n ==> longest_path_to(ev, x as usize, #[trigger] depth@[x] as nat),
            forall|x: int| 0 <= x < n ==> heaviest_path_to(ev, w@, x as usize, #[trigger] heavy@[x] as nat),
            scan_depth(ev, w@, *budget, 0) == scan_depth(ev, w@, *budget, v as int),
        decreases n - v,
    {
        proof {
            lemma_longest_is(ev, v as usize, depth@[v as int] as nat);
            lemma_heaviest_is(ev, w@, v as usize, heavy@[v as int] as nat);
        }
        if depth[v] > budget.max_chain_depth as u32 {
            return Err(
                ValidationError::BudgetExceeded {
                    metric: "chain depth",
                    actual: depth[v] as u64,
                    limit: budget.max_chain_depth as u64,
                    at_knot: Some(copy_string(&ks[v].id)),
                },
            );
        }
        if heavy[v] > budget.max_delay_path_sum as u64 {
            return Err(
                ValidationError::BudgetExceeded {
                    metric: "delay path sum",
                    actual: heavy[v],
                    limit: budget.max_delay_path_sum as u64,
                    at_knot: Some(copy_string(&ks[v].id)),
                },
            );
        }
        v = v + 1;
    }
    proof {
        lemma_scan_depth_none(ev, w@, *budget, 0);
        assert forall|x: int| 0 <= x < n implies #[trigger] depth@[x] <= budget.max_chain_depth by {
            lemma_longest_is(ev, x as usize, depth@[x] as nat);
            assert(longest(ev, x as usize) <= budget.max_chain_depth);
        }
    }
    let mut warnings: Vec<BudgetWarning> = Vec::new();
    if n > budget.soft_knots as usize {
        warnings.push(BudgetWarning::SoftKnots { count: n as u16, soft: budget.soft_knots });
    }
    if ts.len() > budget.soft_threads as usize {
        warnings.push(BudgetWarning::SoftThreads { count: ts.len() as u16, soft: budget.soft_threads });
    }
    let ghost head = warnings_view(warnings@);
    proof {
        assert(head =~= (if kv.len() > budget.soft_knots {
            seq![WFault::SoftKnots { count: kv.len(), soft: budget.soft_knots as nat }]
        } else {
            Seq::empty()
        }) + (if tv.len() > budget.soft_threads {
            seq![WFault::SoftThreads { count: tv.len(), soft: budget.soft_threads as nat }]
        } else {
            Seq::empty()
        }));
    }
    let mut v: usize = 0;
    while v < n
        invariant
            kv == ks@,
            ev == e@,
            n == kv.len(),
            v <= n,
            fout@.len() == n,
            forall|x: int| 0 <= x < n ==> #[trigger] fout@[x] == out_count(ev, x as usize, ev.len() as int),
            warnings_view(warnings@) == head + fan_out_warnings(kv, ev, *budget, v as int),
        decreases n - v,
    {
        let ghost before = warnings@;
        if fout[v] > budget.soft_fan_out {
            warnings.push(
                BudgetWarning::SoftFanOut { fan_out: fout[v], soft: budget.soft_fan_out, at_knot: copy_string(&ks[v].id) },
            );
        }
        proof {
            let c = out_count(ev, v as usize, ev.len() as int);
            assert(fout@[v as int] == c);
            assert(fan_out_warnings(kv, ev, *budget, v + 1) == fan_out_warnings(kv, ev, *budget, v as int) + if c
                > budget.soft_fan_out {
                seq![WFault::SoftFanOut { fan_out: c, soft: budget.soft_fan_out as nat, at_knot: kv[v as int].id@ }]
            } else {
                Seq::empty()
            });
            if c > budget.soft_fan_out {
                assert(warnings_view(warnings@) =~= warnings_view(before).push(
                    WFault::SoftFanOut { fan_out: c, soft: budget.soft_fan_out as nat, at_knot: kv[v as int].id@ },
                ));
            } else {
                assert(warnings@ == before);
            }
            assert(warnings_view(warnings@) =~= head + fan_out_warnings(kv, ev, *budget, v + 1));
        }
        v = v + 1;
    }
    let ghost head2 = warnings_view(warnings@);
    let mut v: usize = 0;
    while v < n
        invariant
            kv == ks@,
            ev == e@,
            n == kv.len(),
            v <= n,
            depth@.len() == n,
            forall|x: int| 0 <= x < n ==> longest_path_to(ev, x as usize, #[trigger] depth@[x] as nat),
            forall|x: int| 0 <= x < n ==> #[trigger] depth@[x] <= budget.max_chain_depth,
            warnings_view(warnings@) == head2 + depth_warnings(kv, ev, *budget, v as int),
        decreases n - v,
    {
        proof {
            lemma_longest_is(ev, v as usize, depth@[v as int] as nat);
        }
        let ghost before = warnings@;
        if depth[v] > budget.soft_chain_depth as u32 {
            warnings.push(
                BudgetWarning::SoftChainDepth {
                    depth: depth[v] as u16,
                    soft: budget.soft_chain_depth,
                    at_knot: copy_string(&ks[v].id),
                },
            );
        }
        proof {
            let d = longest(ev, v as usize);
            assert(d == depth@[v as int]);
            assert(depth_warnings(kv, ev, *budget, v + 1) == depth_warnings(kv, ev, *budget, v as int) + if d
                > budget.soft_chain_depth {
                seq![WFault::SoftChainDepth { depth: d, soft: budget.soft_chain_depth as nat, at_knot: kv[v as int].id@ }]
            } else {
                Seq::empty()
            });
            if d > budget.soft_chain_depth {
                assert(warnings_view(warnings@) =~= warnings_view(before).push(
                    WFault::SoftChainDepth { depth: d, soft: budget.soft_chain_depth as nat, at_knot: kv[v as int].id@ },
                ));
            } else {
                assert(warnings@ == before);
            }
            assert(warnings_view(warnings@) =~= head2 + depth_warnings(kv, ev, *budget, v + 1));
        }
        v = v + 1;
    }
    proof {
        assert(warnings_view(warnings@) =~= budget_warnings(kv, tv, *budget));
    }
    Ok(ValidateReport { warnings })
}

/// Check a weave against a budget's hard limits.
pub fn validate(weave: &Weave, budget: &Budget) -> (r: Result<(), ValidationError>)
    ensures
        match r {
            Ok(()) => budget_fault(weave.spec_knots(), weave.spec_threads(), *budget) is None,
            Err(e) => budget_fault(weave.spec_knots(), weave.spec_threads(), *budget) == Some(e@),
        },
{
    match validate_report(weave, budget) {
        Ok(_) => Ok(()),
        Err(e) => Err(e),
    }
}

} // verus!
