//! Reusable graph fragments: a validated inner weave with named input and
//! output exports, added to a parent weave under an instance prefix.

use vstd::prelude::*;

use crate::builder::{BuildError, InputRef, OutputRef, WeaveBuilder};
use crate::catalog::{find_port, port_table, NumericPath, PortDir};
use crate::text::{copy_string, push_str, str_eq, string_eq, to_owned_string};
use crate::validate::{
    ext_rows, find_knot, find_knot_index, names_view, port_name_list, port_names, resolve, resolve_port_row,
    structural_fault_ext, validate_def_ext, VFault, ValidationError,
};
use crate::weave::{copy_kind, copy_knots, copy_threads, KnotDef, PortRefDef, ThreadDef, WeaveDef};

verus! {

/// A named export of an inner knot port.
#[derive(Clone, Debug, PartialEq, Eq)]
pub struct PatternExportDef {
    pub name: String,
    pub port: PortRefDef,
}

impl PatternExportDef {
    /// The export `name` of port `port` of inner knot `knot`.
    pub fn new(name: &str, knot: &str, port: &str) -> (e: PatternExportDef)
        ensures
            e.name@ == name@,
            e.port.knot@ == knot@,
            e.port.port@ == port@,
    {
        PatternExportDef { name: to_owned_string(name), port: PortRefDef::new(knot, port) }
    }
}

/// An editable pattern definition, checked by [`Pattern::try_from_def`].
#[derive(Clone, Debug, PartialEq)]
pub struct PatternDef {
    pub id: String,
    pub inner: WeaveDef,
    pub inputs: Vec<PatternExportDef>,
    pub outputs: Vec<PatternExportDef>,
}

/// Whether `s` contains a slash.
pub open spec fn has_slash(s: Seq<char>) -> bool {
    exists|i: int| 0 <= i < s.len() && s[i] == '/'
}

/// Why port `port` of inner knot `knot` cannot be exported in direction
/// `dir`.
pub open spec fn export_fault(ks: Seq<KnotDef>, knot: Seq<char>, port: Seq<char>, dir: PortDir) -> Option<VFault> {
    match find_knot(ks, knot) {
        None => Some(VFault::UnknownKnot { knot_id: knot }),
        Some(k) => {
            let t = port_table(ks[k].kind);
            match find_port(t, port) {
                None => Some(VFault::UnknownPort { knot_id: ks[k].id@, port, expected: port_names(t) }),
                Some(p) => if t[p].dir != dir {
                    Some(VFault::WrongPortDirection { knot_id: ks[k].id@, port, expected: dir, actual: t[p].dir })
                } else {
                    None
                },
            }
        },
    }
}

/// Whether some thread of `ts` feeds port `port` of knot `knot`.
pub open spec fn fed_inside(ts: Seq<ThreadDef>, knot: Seq<char>, port: Seq<char>) -> bool {
    exists|t: int| 0 <= t < ts.len() && ts[t].to.knot@ == knot && ts[t].to.port@ == port
}

/// The first of exports `es[j..i]` whose endpoint is `(knot, port)`.
pub open spec fn first_endpoint(es: Seq<PatternExportDef>, knot: Seq<char>, port: Seq<char>, j: int, i: int) -> Option<int>
    decreases i - j,
{
    if j >= i || j < 0 {
        None
    } else if es[j].port.knot@ == knot && es[j].port.port@ == port {
        Some(j)
    } else {
        first_endpoint(es, knot, port, j + 1, i)
    }
}

/// Whether an export before `i` is named like export `i`.
pub open spec fn name_taken(es: Seq<PatternExportDef>, i: int) -> bool {
    exists|j: int| 0 <= j < i && es[j].name@ == es[i].name@
}

/// Why input export `i` is refused.
pub open spec fn input_fault(ks: Seq<KnotDef>, ts: Seq<ThreadDef>, ins: Seq<PatternExportDef>, i: int) -> Option<VFault> {
    let e = ins[i];
    let knot = e.port.knot@;
    let port = e.port.port@;
    if name_taken(ins, i) {
        Some(VFault::DuplicateExport { export: e.name@ })
    } else if export_fault(ks, knot, port, PortDir::In) is Some {
        export_fault(ks, knot, port, PortDir::In)
    } else if fed_inside(ts, knot, port) {
        Some(VFault::PatternInputAlreadyConnected { export: e.name@, knot_id: knot, port })
    } else {
        match first_endpoint(ins, knot, port, 0, i) {
            Some(j) => Some(
                VFault::DuplicatePatternInput { knot_id: knot, port, first_export: ins[j].name@, duplicate_export: e.name@ },
            ),
            None => None,
        }
    }
}

/// Why output export `i` is refused.
pub open spec fn output_fault(ks: Seq<KnotDef>, outs: Seq<PatternExportDef>, i: int) -> Option<VFault> {
    if name_taken(outs, i) {
        Some(VFault::DuplicateExport { export: outs[i].name@ })
    } else {
        export_fault(ks, outs[i].port.knot@, outs[i].port.port@, PortDir::Out)
    }
}

/// The first refused input export at or after `i`.
pub open spec fn scan_inputs(ks: Seq<KnotDef>, ts: Seq<ThreadDef>, ins: Seq<PatternExportDef>, i: int) -> Option<VFault>
    decreases ins.len() - i,
{
    if i < 0 || i >= ins.len() {
        None
    } else if input_fault(ks, ts, ins, i) is Some {
        input_fault(ks, ts, ins, i)
    } else {
        scan_inputs(ks, ts, ins, i + 1)
    }
}

/// The first refused output export at or after `i`.
pub open spec fn scan_outputs(ks: Seq<KnotDef>, outs: Seq<PatternExportDef>, i: int) -> Option<VFault>
    decreases outs.len() - i,
{
    if i < 0 || i >= outs.len() {
        None
    } else if output_fault(ks, outs, i) is Some {
        output_fault(ks, outs, i)
    } else {
        scan_outputs(ks, outs, i + 1)
    }
}

/// The first inner knot whose id has a slash, at or after `i`.
pub open spec fn first_slashed(ks: Seq<KnotDef>, i: int) -> Option<int>
    decreases ks.len() - i,
{
    if i < 0 || i >= ks.len() {
        None
    } else if has_slash(ks[i].id@) {
        Some(i)
    } else {
        first_slashed(ks, i + 1)
    }
}

/// The rows fed from outside: the endpoints of the input exports.
pub open spec fn input_rows(ks: Seq<KnotDef>, ins: Seq<PatternExportDef>) -> Seq<(int, int)> {
    ins.map_values(|e: PatternExportDef| resolve(ks, e.port.knot@, e.port.port@).unwrap())
}

/// The first reason `d` is not a valid pattern, in checking order.
pub open spec fn pattern_fault(d: PatternDef) -> Option<VFault> {
    let ks = d.inner.knots@;
    if d.id@.len() == 0 || has_slash(d.id@) {
        Some(VFault::InvalidPatternId { pattern_id: d.id@, reason: "must be non-empty and contain no slash"@ })
    } else if first_slashed(ks, 0) is Some {
        Some(
            VFault::InvalidKnotId {
                knot_id: ks[first_slashed(ks, 0).unwrap()].id@,
                reason: "pattern inner knot ids must contain no slash"@,
            },
        )
    } else if scan_inputs(ks, d.inner.threads@, d.inputs@, 0) is Some {
        scan_inputs(ks, d.inner.threads@, d.inputs@, 0)
    } else if scan_outputs(ks, d.outputs@, 0) is Some {
        scan_outputs(ks, d.outputs@, 0)
    } else {
        structural_fault_ext(d.inner.id@, d.inner.numeric, ks, d.inner.threads@, input_rows(ks, d.inputs@))
    }
}

/// A validated, immutable reusable graph fragment.
#[derive(Debug)]
pub struct Pattern {
    id: String,
    inner: WeaveDef,
    inputs: Vec<PatternExportDef>,
    outputs: Vec<PatternExportDef>,
}

impl Pattern {
    pub closed spec fn spec_def(&self) -> PatternDef {
        PatternDef { id: self.id, inner: self.inner, inputs: self.inputs, outputs: self.outputs }
    }

    #[verifier::type_invariant]
    pub closed spec fn valid(&self) -> bool {
        pattern_fault(self.spec_def()) is None
    }

    /// The pattern id (non-empty, no slash).
    pub fn id(&self) -> (r: &str)
        ensures
            r@ == self.spec_def().id@,
    {
        self.id.as_str()
    }

    /// The inner weave definition.
    pub fn inner(&self) -> (r: &WeaveDef)
        ensures
            *r == self.spec_def().inner,
    {
        &self.inner
    }

    /// The input exports a parent must wire.
    pub fn inputs(&self) -> (r: &[PatternExportDef])
        ensures
            r@ == self.spec_def().inputs@,
    {
        self.inputs.as_slice()
    }

    /// The output exports a parent may read.
    pub fn outputs(&self) -> (r: &[PatternExportDef])
        ensures
            r@ == self.spec_def().outputs@,
    {
        self.outputs.as_slice()
    }

    /// A copy in definition form.
    pub fn to_def(&self) -> (d: PatternDef)
        ensures
            d.id@ == self.spec_def().id@,
            d.inner.id@ == self.spec_def().inner.id@,
            d.inner.numeric == self.spec_def().inner.numeric,
            d.inner.knots@ == self.spec_def().inner.knots@,
            d.inner.threads@ == self.spec_def().inner.threads@,
            d.inputs@ == self.spec_def().inputs@,
            d.outputs@ == self.spec_def().outputs@,
    {
        PatternDef {
            id: copy_string(&self.id),
            inner: WeaveDef {
                id: copy_string(&self.inner.id),
                numeric: self.inner.numeric,
                knots: copy_knots(&self.inner.knots),
                threads: copy_threads(&self.inner.threads),
            },
            inputs: copy_exports(&self.inputs),
            outputs: copy_exports(&self.outputs),
        }
    }

    /// The definition this pattern was checked from.
    pub fn into_def(self) -> (d: PatternDef)
        ensures
            d == self.spec_def(),
    {
        PatternDef { id: self.id, inner: self.inner, inputs: self.inputs, outputs: self.outputs }
    }

    /// Check `def` and make it a pattern: the id, then inner knot ids, then
    /// each input export (unique name, an input port, not fed inside, not
    /// exported twice), then each output export, then the inner weave with
    /// the input exports counted as wired.
    pub fn try_from_def(def: PatternDef) -> (r: Result<Pattern, ValidationError>)
        ensures
            match r {
                Ok(p) => pattern_fault(def) is None && p.spec_def() == def,
                Err(e) => pattern_fault(def) == Some(e@),
            },
    {
        match check_pattern(&def) {
            Ok(()) => {
                let p = Pattern { id: def.id, inner: def.inner, inputs: def.inputs, outputs: def.outputs };
                Ok(p)
            },
            Err(e) => Err(e),
        }
    }
}

impl Clone for Pattern {
    fn clone(&self) -> (p: Pattern)
        ensures
            p.spec_def().id@ == self.spec_def().id@,
            p.spec_def().inner.id@ == self.spec_def().inner.id@,
            p.spec_def().inner.numeric == self.spec_def().inner.numeric,
            p.spec_def().inner.knots@ == self.spec_def().inner.knots@,
            p.spec_def().inner.threads@ == self.spec_def().inner.threads@,
            p.spec_def().inputs@ == self.spec_def().inputs@,
            p.spec_def().outputs@ == self.spec_def().outputs@,
    {
        proof {
            use_type_invariant(self);
        }
        let d = self.to_def();
        assert(pattern_fault(d) == pattern_fault(self.spec_def()));
        Pattern { id: d.id, inner: d.inner, inputs: d.inputs, outputs: d.outputs }
    }
}

impl From<Pattern> for PatternDef {
    fn from(value: Pattern) -> (d: PatternDef) {
        value.into_def()
    }
}

impl vstd::std_specs::convert::FromSpecImpl<Pattern> for PatternDef {
    open spec fn obeys_from_spec() -> bool {
        true
    }

    open spec fn from_spec(value: Pattern) -> PatternDef {
        value.spec_def()
    }
}

fn copy_exports(v: &Vec<PatternExportDef>) -> (r: Vec<PatternExportDef>)
    ensures
        r@ == v@,
{
    let mut r: Vec<PatternExportDef> = Vec::new();
    let mut i: usize = 0;
    while i < v.len()
        invariant
            i <= v@.len(),
            r@ == v@.subrange(0, i as int),
        decreases v@.len() - i,
    {
        let e = PatternExportDef { name: v[i].name.clone(), port: crate::weave::copy_port_ref(&v[i].port) };
        r.push(e);
        i = i + 1;
    }
    assert(r@ =~= v@);
    r
}

/// Whether `s` contains a slash.
pub fn contains_slash(s: &str) -> (r: bool)
    ensures
        r == has_slash(s@),
{
    let n = s.unicode_len();
    let mut i: usize = 0;
    while i < n
        invariant
            n == s@.len(),
            i <= n,
            forall|j: int| 0 <= j < i ==> s@[j] != '/',
        decreases n - i,
    {
        if s.get_char(i) == '/' {
            return true;
        }
        i = i + 1;
    }
    false
}

/// Check that port `port` of inner knot `knot` can be exported in direction
/// `dir`, giving its (knot index, row).
fn check_export(ks: &Vec<KnotDef>, knot: &str, port: &str, dir: PortDir) -> (r: Result<(usize, usize), ValidationError>)
    ensures
        match r {
            Ok((k, p)) => export_fault(ks@, knot@, port@, dir) is None && resolve(ks@, knot@, port@) == Some((k as int, p as int)),
            Err(e) => export_fault(ks@, knot@, port@, dir) == Some(e@),
        },
{
    let k = match find_knot_index(ks, knot) {
        Some(k) => k,
        None => {
            return Err(ValidationError::UnknownKnot { knot_id: to_owned_string(knot) });
        },
    };
    proof {
        crate::validate::lemma_find_knot(ks@, knot@);
    }
    match resolve_port_row(&ks[k].kind, port) {
        None => Err(
            ValidationError::UnknownPort {
                knot_id: copy_string(&ks[k].id),
                port: to_owned_string(port),
                expected: port_name_list(&ks[k].kind),
            },
        ),
        Some((p, d)) => {
            let same = match (d, dir) {
                (PortDir::In, PortDir::In) => true,
                (PortDir::Out, PortDir::Out) => true,
                _ => false,
            };
            if same {
                Ok((k, p))
            } else {
                Err(
                    ValidationError::WrongPortDirection {
                        knot_id: copy_string(&ks[k].id),
                        port: to_owned_string(port),
                        expected: dir,
                        actual: d,
                    },
                )
            }
        },
    }
}

/// Whether a thread of `ts` feeds port `port` of knot `knot`.
fn is_fed_inside(ts: &Vec<ThreadDef>, knot: &String, port: &String) -> (r: bool)
    ensures
        r == fed_inside(ts@, knot@, port@),
{
    let mut t: usize = 0;
    while t < ts.len()
        invariant
            t <= ts@.len(),
            forall|q: int| 0 <= q < t ==> !(ts@[q].to.knot@ == knot@ && ts@[q].to.port@ == port@),
        decreases ts@.len() - t,
    {
        if string_eq(&ts[t].to.knot, knot) && string_eq(&ts[t].to.port, port) {
            return true;
        }
        t = t + 1;
    }
    false
}

/// Whether an export before `i` is named like export `i`.
fn is_name_taken(es: &Vec<PatternExportDef>, i: usize) -> (r: bool)
    requires
        i < es@.len(),
    ensures
        r == name_taken(es@, i as int),
{
    let mut j: usize = 0;
    while j < i
        invariant
            i < es@.len(),
            j <= i,
            forall|q: int| 0 <= q < j ==> es@[q].name@ != es@[i as int].name@,
        decreases i - j,
    {
        if string_eq(&es[j].name, &es[i].name) {
            return true;
        }
        j = j + 1;
    }
    false
}

/// The first export before `i` with endpoint `(knot, port)`.
fn find_endpoint(es: &Vec<PatternExportDef>, knot: &String, port: &String, i: usize) -> (r: Option<usize>)
    requires
        i <= es@.len(),
    ensures
        match r {
            Some(j) => first_endpoint(es@, knot@, port@, 0, i as int) == Some(j as int) && j < i,
            None => first_endpoint(es@, knot@, port@, 0, i as int) is None,
        },
{
    let mut j: usize = 0;
    while j < i
        invariant
            i <= es@.len(),
            j <= i,
            first_endpoint(es@, knot@, port@, 0, i as int) == first_endpoint(es@, knot@, port@, j as int, i as int),
        decreases i - j,
    {
        if string_eq(&es[j].port.knot, knot) && string_eq(&es[j].port.port, port) {
            return Some(j);
        }
        j = j + 1;
    }
    None
}

proof fn lemma_scan_inputs_each(ks: Seq<KnotDef>, ts: Seq<ThreadDef>, ins: Seq<PatternExportDef>, i: int)
    requires
        0 <= i,
        scan_inputs(ks, ts, ins, i) is None,
    ensures
        forall|j: int| i <= j < ins.len() ==> #[trigger] input_fault(ks, ts, ins, j) is None,
    decreases ins.len() - i,
{
    if i < ins.len() {
        lemma_scan_inputs_each(ks, ts, ins, i + 1);
    }
}

proof fn lemma_scan_outputs_each(ks: Seq<KnotDef>, outs: Seq<PatternExportDef>, i: int)
    requires
        0 <= i,
        scan_outputs(ks, outs, i) is None,
    ensures
        forall|j: int| i <= j < outs.len() ==> #[trigger] output_fault(ks, outs, j) is None,
    decreases outs.len() - i,
{
    if i < outs.len() {
        lemma_scan_outputs_each(ks, outs, i + 1);
    }
}

/// Every export of a valid pattern names a port of its inner weave in the
/// export's direction.
pub proof fn lemma_exports_resolve(p: Pattern)
    requires
        p.valid(),
    ensures
        forall|i: int|
            0 <= i < p.spec_def().inputs@.len() ==> #[trigger] export_fault(
                p.spec_def().inner.knots@,
                p.spec_def().inputs@[i].port.knot@,
                p.spec_def().inputs@[i].port.port@,
                PortDir::In,
            ) is None,
        forall|i: int|
            0 <= i < p.spec_def().outputs@.len() ==> #[trigger] export_fault(
                p.spec_def().inner.knots@,
                p.spec_def().outputs@[i].port.knot@,
                p.spec_def().outputs@[i].port.port@,
                PortDir::Out,
            ) is None,
{
    let d = p.spec_def();
    lemma_scan_inputs_each(d.inner.knots@, d.inner.threads@, d.inputs@, 0);
    lemma_scan_outputs_each(d.inner.knots@, d.outputs@, 0);
    assert forall|i: int| 0 <= i < d.inputs@.len() implies #[trigger] export_fault(
        d.inner.knots@,
        d.inputs@[i].port.knot@,
        d.inputs@[i].port.port@,
        PortDir::In,
    ) is None by {
        assert(input_fault(d.inner.knots@, d.inner.threads@, d.inputs@, i) is None);
    }
    assert forall|i: int| 0 <= i < d.outputs@.len() implies #[trigger] export_fault(
        d.inner.knots@,
        d.outputs@[i].port.knot@,
        d.outputs@[i].port.port@,
        PortDir::Out,
    ) is None by {
        assert(output_fault(d.inner.knots@, d.outputs@, i) is None);
    }
}

proof fn lemma_scan_inputs_none(ks: Seq<KnotDef>, ts: Seq<ThreadDef>, ins: Seq<PatternExportDef>, i: int)
    requires
        0 <= i,
        forall|j: int| i <= j < ins.len() ==> #[trigger] input_fault(ks, ts, ins, j) is None,
    ensures
        scan_inputs(ks, ts, ins, i) is None,
    decreases ins.len() - i,
{
    if i < ins.len() {
        lemma_scan_inputs_none(ks, ts, ins, i + 1);
    }
}

proof fn lemma_scan_outputs_none(ks: Seq<KnotDef>, outs: Seq<PatternExportDef>, i: int)
    requires
        0 <= i,
        forall|j: int| i <= j < outs.len() ==> #[trigger] output_fault(ks, outs, j) is None,
    ensures
        scan_outputs(ks, outs, i) is None,
    decreases outs.len() - i,
{
    if i < outs.len() {
        lemma_scan_outputs_none(ks, outs, i + 1);
    }
}

proof fn lemma_scan_inputs_at(ks: Seq<KnotDef>, ts: Seq<ThreadDef>, ins: Seq<PatternExportDef>, i: int)
    requires
        0 <= i < ins.len(),
        forall|j: int| 0 <= j < i ==> #[trigger] input_fault(ks, ts, ins, j) is None,
    ensures
        scan_inputs(ks, ts, ins, 0) == if input_fault(ks, ts, ins, i) is Some {
            input_fault(ks, ts, ins, i)
        } else {
            scan_inputs(ks, ts, ins, i + 1)
        },
    decreases i,
{
    lemma_scan_inputs_from(ks, ts, ins, 0, i);
}

proof fn lemma_scan_inputs_from(ks: Seq<KnotDef>, ts: Seq<ThreadDef>, ins: Seq<PatternExportDef>, a: int, i: int)
    requires
        0 <= a <= i < ins.len(),
        forall|j: int| a <= j < i ==> #[trigger] input_fault(ks, ts, ins, j) is None,
    ensures
        scan_inputs(ks, ts, ins, a) == scan_inputs(ks, ts, ins, i),
    decreases i - a,
{
    if a < i {
        lemma_scan_inputs_from(ks, ts, ins, a + 1, i);
    }
}

proof fn lemma_scan_outputs_from(ks: Seq<KnotDef>, outs: Seq<PatternExportDef>, a: int, i: int)
    requires
        0 <= a <= i <= outs.len(),
        forall|j: int| a <= j < i ==> #[trigger] output_fault(ks, outs, j) is None,
    ensures
        scan_outputs(ks, outs, a) == scan_outputs(ks, outs, i),
    decreases i - a,
{
    if a < i {
        lemma_scan_outputs_from(ks, outs, a + 1, i);
    }
}

proof fn lemma_first_slashed_from(ks: Seq<KnotDef>, a: int, i: int)
    requires
        0 <= a <= i <= ks.len(),
        forall|j: int| a <= j < i ==> !has_slash(#[trigger] ks[j].id@),
    ensures
        first_slashed(ks, a) == first_slashed(ks, i),
    decreases i - a,
{
    if a < i {
        lemma_first_slashed_from(ks, a + 1, i);
    }
}

/// Check a pattern definition in the order of [`pattern_fault`].
fn check_pattern(d: &PatternDef) -> (r: Result<(), ValidationError>)
    ensures
        match r {
            Ok(()) => pattern_fault(*d) is None,
            Err(e) => pattern_fault(*d) == Some(e@),
        },
{
    if d.id.unicode_len() == 0 || contains_slash(d.id.as_str()) {
        return Err(
            ValidationError::InvalidPatternId { pattern_id: copy_string(&d.id), reason: "must be non-empty and contain no slash" },
        );
    }
    let ks = &d.inner.knots;
    let ts = &d.inner.threads;
    let mut k: usize = 0;
    while k < ks.len()
        invariant
            ks == &d.inner.knots,
            d.id@.len() > 0 && !has_slash(d.id@),
            k <= ks@.len(),
            forall|j: int| 0 <= j < k ==> !has_slash(#[trigger] ks@[j].id@),
        decreases ks@.len() - k,
    {
        if contains_slash(ks[k].id.as_str()) {
            proof {
                lemma_first_slashed_from(ks@, 0, k as int);
            }
            return Err(
                ValidationError::InvalidKnotId { knot_id: copy_string(&ks[k].id), reason: "pattern inner knot ids must contain no slash" },
            );
        }
        k = k + 1;
    }
    proof {
        lemma_first_slashed_from(ks@, 0, ks@.len() as int);
    }
    let ins = &d.inputs;
    let mut ext: Vec<(usize, usize)> = Vec::new();
    let mut i: usize = 0;
    while i < ins.len()
        invariant
            d.id@.len() > 0 && !has_slash(d.id@),
            first_slashed(ks@, 0) is None,
            ks == &d.inner.knots,
            ts == &d.inner.threads,
            ins == &d.inputs,
            i <= ins@.len(),
            forall|j: int| 0 <= j < i ==> #[trigger] input_fault(ks@, ts@, ins@, j) is None,
            ext_rows(ext@) == input_rows(ks@, ins@).subrange(0, i as int),
        decreases ins@.len() - i,
    {
        let e = &ins[i];
        if is_name_taken(ins, i) {
            proof {
                lemma_scan_inputs_at(ks@, ts@, ins@, i as int);
            }
            return Err(ValidationError::DuplicateExport { export: copy_string(&e.name) });
        }
        let row = match check_export(ks, e.port.knot.as_str(), e.port.port.as_str(), PortDir::In) {
            Ok(row) => row,
            Err(err) => {
                proof {
                    lemma_scan_inputs_at(ks@, ts@, ins@, i as int);
                }
                return Err(err);
            },
        };
        if is_fed_inside(ts, &e.port.knot, &e.port.port) {
            proof {
                lemma_scan_inputs_at(ks@, ts@, ins@, i as int);
            }
            return Err(
                ValidationError::PatternInputAlreadyConnected {
                    export: copy_string(&e.name),
                    knot_id: copy_string(&e.port.knot),
                    port: copy_string(&e.port.port),
                },
            );
        }
        match find_endpoint(ins, &e.port.knot, &e.port.port, i) {
            Some(j) => {
                proof {
                    lemma_scan_inputs_at(ks@, ts@, ins@, i as int);
                }
                return Err(
                    ValidationError::DuplicatePatternInput {
                        knot_id: copy_string(&e.port.knot),
                        port: copy_string(&e.port.port),
                        first_export: copy_string(&ins[j].name),
                        duplicate_export: copy_string(&e.name),
                    },
                );
            },
            None => {},
        }
        let ghost before = ext@;
        ext.push(row);
        proof {
            assert(input_rows(ks@, ins@).subrange(0, i + 1) =~= input_rows(ks@, ins@).subrange(0, i as int).push(
                input_rows(ks@, ins@)[i as int],
            ));
            assert(ext_rows(ext@) =~= ext_rows(before).push((row.0 as int, row.1 as int)));
        }
        i = i + 1;
    }
    proof {
        lemma_scan_inputs_none(ks@, ts@, ins@, 0);
        assert(input_rows(ks@, ins@).subrange(0, ins@.len() as int) =~= input_rows(ks@, ins@));
    }
    let outs = &d.outputs;
    let mut o: usize = 0;
    while o < outs.len()
        invariant
            d.id@.len() > 0 && !has_slash(d.id@),
            first_slashed(ks@, 0) is None,
            scan_inputs(ks@, d.inner.threads@, d.inputs@, 0) is None,
            outs == &d.outputs,
            ks == &d.inner.knots,
            o <= outs@.len(),
            forall|j: int| 0 <= j < o ==> #[trigger] output_fault(ks@, outs@, j) is None,
        decreases outs@.len() - o,
    {
        let e = &outs[o];
        if is_name_taken(outs, o) {
            proof {
                lemma_scan_outputs_from(ks@, outs@, 0, o as int);
            }
            return Err(ValidationError::DuplicateExport { export: copy_string(&e.name) });
        }
        match check_export(ks, e.port.knot.as_str(), e.port.port.as_str(), PortDir::Out) {
            Ok(_) => {},
            Err(err) => {
                proof {
                    lemma_scan_outputs_from(ks@, outs@, 0, o as int);
                }
                return Err(err);
            },
        }
        o = o + 1;
    }
    proof {
        lemma_scan_outputs_from(ks@, outs@, 0, outs@.len() as int);
    }
    validate_def_ext(&d.inner, &ext)
}

/// The id `instance/knot` an inner knot gets when included under
/// `instance`.
pub open spec fn prefixed(instance: Seq<char>, knot: Seq<char>) -> Seq<char> {
    instance + seq!['/'] + knot
}

/// `instance/knot`.
pub fn prefix_name(instance: &str, knot: &str) -> (r: String)
    ensures
        r@ == prefixed(instance@, knot@),
{
    proof {
        reveal_strlit("/");
    }
    let mut s = to_owned_string(instance);
    push_str(&mut s, "/");
    push_str(&mut s, knot);
    s
}

/// A pattern's inner graph renamed under an instance prefix.
pub struct ExpandedPattern {
    pub knots: Vec<KnotDef>,
    pub threads: Vec<ThreadDef>,
    /// Input export names with their prefixed endpoints.
    pub inputs: Vec<(String, PortRefDef)>,
    /// Output export names with their prefixed endpoints.
    pub outputs: Vec<(String, PortRefDef)>,
}

/// Whether `instance` may name a pattern instance.
pub open spec fn instance_id_ok(instance: Seq<char>) -> bool {
    instance.len() > 0 && !has_slash(instance)
}

/// `e` renames export `x` under `instance`.
pub open spec fn renamed_export(instance: Seq<char>, x: PatternExportDef, e: (String, PortRefDef)) -> bool {
    &&& e.0@ == x.name@
    &&& e.1.knot@ == prefixed(instance, x.port.knot@)
    &&& e.1.port@ == x.port.port@
}

/// `out` renames every export of `xs` under `instance`, in order.
pub open spec fn renamed_exports(instance: Seq<char>, xs: Seq<PatternExportDef>, out: Seq<(String, PortRefDef)>) -> bool {
    &&& out.len() == xs.len()
    &&& forall|i: int| 0 <= i < xs.len() ==> renamed_export(instance, xs[i], #[trigger] out[i])
}

/// `out` renames every knot of `ks` under `instance`, in order.
pub open spec fn renamed_knots(instance: Seq<char>, ks: Seq<KnotDef>, out: Seq<KnotDef>) -> bool {
    &&& out.len() == ks.len()
    &&& forall|i: int| 0 <= i < ks.len() ==> (#[trigger] out[i]).id@ == prefixed(instance, ks[i].id@) && out[i].kind == ks[i].kind
}

/// `out` renames the endpoints of every thread of `ts` under `instance`.
pub open spec fn renamed_threads(instance: Seq<char>, ts: Seq<ThreadDef>, out: Seq<ThreadDef>) -> bool {
    &&& out.len() == ts.len()
    &&& forall|i: int|
        0 <= i < ts.len() ==> {
            &&& (#[trigger] out[i]).from.knot@ == prefixed(instance, ts[i].from.knot@)
            &&& out[i].from.port@ == ts[i].from.port@
            &&& out[i].to.knot@ == prefixed(instance, ts[i].to.knot@)
            &&& out[i].to.port@ == ts[i].to.port@
        }
}

fn rename_exports(instance: &str, xs: &Vec<PatternExportDef>) -> (r: Vec<(String, PortRefDef)>)
    ensures
        renamed_exports(instance@, xs@, r@),
{
    let mut r: Vec<(String, PortRefDef)> = Vec::new();
    let mut i: usize = 0;
    while i < xs.len()
        invariant
            i <= xs@.len(),
            r@.len() == i,
            forall|j: int| 0 <= j < i ==> renamed_export(instance@, xs@[j], #[trigger] r@[j]),
        decreases xs@.len() - i,
    {
        let knot = prefix_name(instance, xs[i].port.knot.as_str());
        r.push((copy_string(&xs[i].name), PortRefDef { knot, port: copy_string(&xs[i].port.port) }));
        i = i + 1;
    }
    r
}

/// Rename a pattern's inner graph under `instance_id`.
pub fn expand(instance_id: &str, pattern: &Pattern) -> (r: Result<ExpandedPattern, BuildError>)
    ensures
        match r {
            Ok(x) => {
                let d = pattern.spec_def();
                &&& instance_id_ok(instance_id@)
                &&& renamed_knots(instance_id@, d.inner.knots@, x.knots@)
                &&& renamed_threads(instance_id@, d.inner.threads@, x.threads@)
                &&& renamed_exports(instance_id@, d.inputs@, x.inputs@)
                &&& renamed_exports(instance_id@, d.outputs@, x.outputs@)
            },
            Err(e) => !instance_id_ok(instance_id@) && e@ == crate::builder::BFault::InvalidId {
                id: instance_id@,
                reason: "pattern instance ids must be non-empty and contain no slash"@,
            },
        },
{
    if instance_id.unicode_len() == 0 || contains_slash(instance_id) {
        return Err(
            BuildError::InvalidId {
                id: to_owned_string(instance_id),
                reason: "pattern instance ids must be non-empty and contain no slash",
            },
        );
    }
    let ks = &pattern.inner.knots;
    let mut knots: Vec<KnotDef> = Vec::new();
    let mut i: usize = 0;
    while i < ks.len()
        invariant
            i <= ks@.len(),
            knots@.len() == i,
            forall|j: int| 0 <= j < i ==> (#[trigger] knots@[j]).id@ == prefixed(instance_id@, ks@[j].id@) && knots@[j].kind
                == ks@[j].kind,
        decreases ks@.len() - i,
    {
        knots.push(KnotDef { id: prefix_name(instance_id, ks[i].id.as_str()), kind: copy_kind(&ks[i].kind) });
        i = i + 1;
    }
    let ts = &pattern.inner.threads;
    let mut threads: Vec<ThreadDef> = Vec::new();
    let mut t: usize = 0;
    while t < ts.len()
        invariant
            t <= ts@.len(),
            threads@.len() == t,
            forall|j: int|
                0 <= j < t ==> {
                    &&& (#[trigger] threads@[j]).from.knot@ == prefixed(instance_id@, ts@[j].from.knot@)
                    &&& threads@[j].from.port@ == ts@[j].from.port@
                    &&& threads@[j].to.knot@ == prefixed(instance_id@, ts@[j].to.knot@)
                    &&& threads@[j].to.port@ == ts@[j].to.port@
                },
        decreases ts@.len() - t,
    {
        let from = PortRefDef { knot: prefix_name(instance_id, ts[t].from.knot.as_str()), port: copy_string(&ts[t].from.port) };
        let to = PortRefDef { knot: prefix_name(instance_id, ts[t].to.knot.as_str()), port: copy_string(&ts[t].to.port) };
        threads.push(ThreadDef { from, to });
        t = t + 1;
    }
    let inputs = rename_exports(instance_id, &pattern.inputs);
    let outputs = rename_exports(instance_id, &pattern.outputs);
    Ok(ExpandedPattern { knots, threads, inputs, outputs })
}

/// Exports of one pattern instance added to a builder, resolved to builder handles.
pub struct PatternInstance {
    instance_id: String,
    inputs: Vec<(String, InputRef)>,
    outputs: Vec<(String, OutputRef)>,
}

/// The first entry of `es` at or after `j` named `name`.
pub open spec fn find_export_from<T>(es: Seq<(String, T)>, name: Seq<char>, j: int) -> Option<int>
    decreases es.len() - j,
{
    if j < 0 || j >= es.len() {
        None
    } else if es[j].0@ == name {
        Some(j)
    } else {
        find_export_from(es, name, j + 1)
    }
}

/// The first entry of `es` named `name`.
pub open spec fn find_export<T>(es: Seq<(String, T)>, name: Seq<char>) -> Option<int> {
    find_export_from(es, name, 0)
}

impl PatternInstance {
    pub closed spec fn spec_instance_id(&self) -> Seq<char> {
        self.instance_id@
    }

    /// The instance id, the prefix of its knots.
    pub fn id(&self) -> (r: &str)
        ensures
            r@ == self.spec_instance_id(),
    {
        self.instance_id.as_str()
    }

    pub closed spec fn spec_inputs(&self) -> Seq<(String, InputRef)> {
        self.inputs@
    }

    pub closed spec fn spec_outputs(&self) -> Seq<(String, OutputRef)> {
        self.outputs@
    }

    /// The builder input behind input export `name`.
    pub fn input(&self, name: &str) -> (r: Result<InputRef, BuildError>)
        ensures
            match r {
                Ok(i) => find_export(self.spec_inputs(), name@) matches Some(j) && self.spec_inputs()[j].1 == i,
                Err(e) => find_export(self.spec_inputs(), name@) is None && e@ == crate::builder::BFault::UnknownExport {
                    instance_id: self.spec_instance_id(),
                    export: name@,
                    direction: PortDir::In,
                },
            },
    {
        let mut j: usize = 0;
        while j < self.inputs.len()
            invariant
                j <= self.inputs@.len(),
                find_export(self.inputs@, name@) == find_export_from(self.inputs@, name@, j as int),
            decreases self.inputs@.len() - j,
        {
            if str_eq(self.inputs[j].0.as_str(), name) {
                return Ok(self.inputs[j].1);
            }
            j = j + 1;
        }
        Err(BuildError::UnknownExport { instance_id: copy_string(&self.instance_id), export: to_owned_string(name), direction: PortDir::In })
    }

    /// The builder output behind output export `name`.
    pub fn output(&self, name: &str) -> (r: Result<OutputRef, BuildError>)
        ensures
            match r {
                Ok(i) => find_export(self.spec_outputs(), name@) matches Some(j) && self.spec_outputs()[j].1 == i,
                Err(e) => find_export(self.spec_outputs(), name@) is None && e@ == crate::builder::BFault::UnknownExport {
                    instance_id: self.spec_instance_id(),
                    export: name@,
                    direction: PortDir::Out,
                },
            },
    {
        let mut j: usize = 0;
        while j < self.outputs.len()
            invariant
                j <= self.outputs@.len(),
                find_export(self.outputs@, name@) == find_export_from(self.outputs@, name@, j as int),
            decreases self.outputs@.len() - j,
        {
            if str_eq(self.outputs[j].0.as_str(), name) {
                return Ok(self.outputs[j].1);
            }
            j = j + 1;
        }
        Err(BuildError::UnknownExport { instance_id: copy_string(&self.instance_id), export: to_owned_string(name), direction: PortDir::Out })
    }
}

proof fn lemma_scan_inputs_all(ks: Seq<KnotDef>, ts: Seq<ThreadDef>, ins: Seq<PatternExportDef>, i: int)
    requires
        0 <= i,
        scan_inputs(ks, ts, ins, i) is None,
    ensures
        forall|j: int| i <= j < ins.len() ==> #[trigger] input_fault(ks, ts, ins, j) is None,
    decreases ins.len() - i,
{
    if i < ins.len() {
        lemma_scan_inputs_all(ks, ts, ins, i + 1);
    }
}

proof fn lemma_scan_outputs_all(ks: Seq<KnotDef>, outs: Seq<PatternExportDef>, i: int)
    requires
        0 <= i,
        scan_outputs(ks, outs, i) is None,
    ensures
        forall|j: int| i <= j < outs.len() ==> #[trigger] output_fault(ks, outs, j) is None,
    decreases outs.len() - i,
{
    if i < outs.len() {
        lemma_scan_outputs_all(ks, outs, i + 1);
    }
}

/// The first inner knot at or after `i` whose renamed id `b` already has.
pub open spec fn first_clash(b: Seq<KnotDef>, instance: Seq<char>, inner: Seq<KnotDef>, i: int) -> Option<int>
    decreases inner.len() - i,
{
    if i < 0 || i >= inner.len() {
        None
    } else if find_knot(b, prefixed(instance, inner[i].id@)) is Some {
        Some(i)
    } else {
        first_clash(b, instance, inner, i + 1)
    }
}

/// Why adding `p` as `instance` into a builder with knots `b` and
/// numeric path `numeric` is refused.
pub open spec fn include_fault(b: Seq<KnotDef>, numeric: NumericPath, instance: Seq<char>, p: PatternDef) -> Option<crate::builder::BFault> {
    let inner = p.inner.knots@;
    if !instance_id_ok(instance) {
        Some(
            crate::builder::BFault::InvalidId {
                id: instance,
                reason: "pattern instance ids must be non-empty and contain no slash"@,
            },
        )
    } else if p.inner.numeric != numeric {
        Some(crate::builder::BFault::NumericMismatch { expected: numeric, actual: p.inner.numeric })
    } else if b.len() + inner.len() > crate::validate::MAX_DENSE + 1 {
        Some(
            crate::builder::BFault::RepresentationOverflow {
                what: "knot"@,
                actual: b.len() + inner.len(),
                limit: (crate::validate::MAX_DENSE + 1) as nat,
            },
        )
    } else if first_clash(b, instance, inner, 0) is Some {
        Some(crate::builder::BFault::DuplicateKnotId { knot_id: prefixed(instance, inner[first_clash(b, instance, inner, 0).unwrap()].id@) })
    } else {
        None
    }
}

proof fn lemma_first_clash_from(b: Seq<KnotDef>, instance: Seq<char>, inner: Seq<KnotDef>, a: int, i: int)
    requires
        0 <= a <= i <= inner.len(),
        forall|j: int| a <= j < i ==> find_knot(b, prefixed(instance, (#[trigger] inner[j]).id@)) is None,
    ensures
        first_clash(b, instance, inner, a) == first_clash(b, instance, inner, i),
    decreases i - a,
{
    if a < i {
        lemma_first_clash_from(b, instance, inner, a + 1, i);
    }
}

fn numeric_same(a: NumericPath, b: NumericPath) -> (r: bool)
    ensures
        r == (a == b),
{
    match (a, b) {
        (NumericPath::F32, NumericPath::F32) => true,
        (NumericPath::I32Q16, NumericPath::I32Q16) => true,
        _ => false,
    }
}

/// `y` is the builder handle of export `x`: its name, builder knot index
/// (inner index plus `base`) and port row.
pub open spec fn handle_of(ks: Seq<KnotDef>, base: int, x: PatternExportDef, dir: PortDir, y: (String, u16, u8)) -> bool {
    match resolve(ks, x.port.knot@, x.port.port@) {
        Some((k, p)) => y.0@ == x.name@ && y.1 == base + k && y.2 == p && crate::builder::row_ok(ks, k as u16, p as u8, dir),
        None => false,
    }
}

/// The builder handles of the export endpoints, with inner knot `k` at
/// builder index `base + k`.
fn resolve_exports(
    ks: &Vec<KnotDef>,
    xs: &Vec<PatternExportDef>,
    dir: PortDir,
    base: usize,
    owner: u64,
) -> (r: Vec<(String, u16, u8)>)
    requires
        base + ks@.len() <= crate::validate::MAX_DENSE + 1,
        forall|i: int| 0 <= i < xs@.len() ==> export_fault(ks@, (#[trigger] xs@[i]).port.knot@, xs@[i].port.port@, dir) is None,
    ensures
        r@.len() == xs@.len(),
        forall|i: int| 0 <= i < xs@.len() ==> handle_of(ks@, base as int, xs@[i], dir, #[trigger] r@[i]),
{
    let mut r: Vec<(String, u16, u8)> = Vec::new();
    let mut i: usize = 0;
    while i < xs.len()
        invariant
            i <= xs@.len(),
            r@.len() == i,
            base + ks@.len() <= crate::validate::MAX_DENSE + 1,
            forall|i: int| 0 <= i < xs@.len() ==> export_fault(ks@, (#[trigger] xs@[i]).port.knot@, xs@[i].port.port@, dir) is None,
            forall|q: int| 0 <= q < i ==> handle_of(ks@, base as int, xs@[q], dir, #[trigger] r@[q]),
        decreases xs@.len() - i,
    {
        let x = &xs[i];
        assert(export_fault(ks@, xs@[i as int].port.knot@, xs@[i as int].port.port@, dir) is None);
        match check_export(ks, x.port.knot.as_str(), x.port.port.as_str(), dir) {
            Ok((k, p)) => {
                proof {
                    crate::catalog::lemma_slot_is_row(ks@[k as int].kind);
                    crate::validate::lemma_find_knot(ks@, x.port.knot@);
                    crate::catalog::lemma_find_port(port_table(ks@[k as int].kind), x.port.port@);
                }
                r.push((copy_string(&x.name), (base + k) as u16, p as u8));
                proof {
                    assert(handle_of(ks@, base as int, xs@[i as int], dir, r@[i as int]));
                }
            },
            Err(_) => {
                proof {
                    assert(false);
                }
                r.push((copy_string(&x.name), 0, 0));
            },
        }
        i = i + 1;
    }
    r
}

impl WeaveBuilder {
    /// Add `pattern` under `instance_id`: its inner knots renamed
    /// `instance_id/knot` and its threads are appended to this builder. The
    /// instance id, numeric path, knot capacity and renamed ids are checked
    /// first; a refused addition leaves the builder unchanged.
    pub fn add_pattern(&mut self, instance_id: &str, pattern: &Pattern) -> (r: Result<PatternInstance, BuildError>)
        requires
            old(self).wf(),
        ensures
            final(self).wf(),
            final(self).spec_id() == old(self).spec_id(),
            final(self).spec_numeric() == old(self).spec_numeric(),
            final(self).spec_owner() == old(self).spec_owner(),
            match r {
                Ok(inst) => {
                    let d = pattern.spec_def();
                    let n0 = old(self).spec_knots().len();
                    let t0 = old(self).spec_threads().len();
                    &&& include_fault(old(self).spec_knots(), old(self).spec_numeric(), instance_id@, d) is None
                    &&& final(self).spec_knots().len() >= n0
                    &&& final(self).spec_threads().len() >= t0
                    &&& final(self).spec_knots().subrange(0, n0 as int) == old(self).spec_knots()
                    &&& renamed_knots(instance_id@, d.inner.knots@, final(self).spec_knots().subrange(n0 as int, final(self).spec_knots().len() as int))
                    &&& final(self).spec_threads().subrange(0, t0 as int) == old(self).spec_threads()
                    &&& renamed_threads(instance_id@, d.inner.threads@, final(self).spec_threads().subrange(t0 as int, final(self).spec_threads().len() as int))
                    &&& inst.spec_instance_id() == instance_id@
                    &&& inst.spec_inputs().len() == d.inputs@.len()
                    &&& forall|i: int| 0 <= i < d.inputs@.len() ==> {
                        let x = #[trigger] inst.spec_inputs()[i];
                        let (k, p) = resolve(d.inner.knots@, d.inputs@[i].port.knot@, d.inputs@[i].port.port@).unwrap();
                        &&& x.0@ == d.inputs@[i].name@
                        &&& x.1.spec_owner() == old(self).spec_owner()
                        &&& x.1.spec_knot() == n0 + k
                        &&& x.1.spec_row() == p
                        &&& crate::builder::row_ok(final(self).spec_knots(), x.1.spec_knot(), x.1.spec_row(), PortDir::In)
                    }
                    &&& inst.spec_outputs().len() == d.outputs@.len()
                    &&& forall|i: int| 0 <= i < d.outputs@.len() ==> {
                        let x = #[trigger] inst.spec_outputs()[i];
                        let (k, p) = resolve(d.inner.knots@, d.outputs@[i].port.knot@, d.outputs@[i].port.port@).unwrap();
                        &&& x.0@ == d.outputs@[i].name@
                        &&& x.1.spec_owner() == old(self).spec_owner()
                        &&& x.1.spec_knot() == n0 + k
                        &&& x.1.spec_row() == p
                        &&& crate::builder::row_ok(final(self).spec_knots(), x.1.spec_knot(), x.1.spec_row(), PortDir::Out)
                    }
                },
                Err(e) => {
                    &&& *final(self) == *old(self)
                    &&& include_fault(old(self).spec_knots(), old(self).spec_numeric(), instance_id@, pattern.spec_def()) == Some(e@)
                },
            },
    {
        proof {
            use_type_invariant(pattern);
        }
        let x = match expand(instance_id, pattern) {
            Ok(x) => x,
            Err(e) => {
                return Err(e);
            },
        };
        if !numeric_same(pattern.inner.numeric, self.numeric) {
            return Err(BuildError::NumericMismatch { expected: self.numeric, actual: pattern.inner.numeric });
        }
        let n0 = self.knots.len();
        let inner_len = pattern.inner.knots.len();
        if inner_len > crate::validate::MAX_DENSE + 1 - n0 {
            return Err(
                BuildError::RepresentationOverflow { what: "knot", actual: n0 + inner_len, limit: crate::validate::MAX_DENSE + 1 },
            );
        }
        let ghost start = *self;
        let mut i: usize = 0;
        while i < x.knots.len()
            invariant
                *self == start,
                start == *old(self),
                self.wf(),
                n0 == self.knots@.len(),
                n0 + inner_len <= crate::validate::MAX_DENSE + 1,
                inner_len == pattern.spec_def().inner.knots@.len(),
                instance_id_ok(instance_id@),
                pattern.spec_def().inner.numeric == self.numeric,
                i <= x.knots@.len(),
                renamed_knots(instance_id@, pattern.spec_def().inner.knots@, x.knots@),
                forall|j: int| 0 <= j < i ==> find_knot(self.knots@, prefixed(instance_id@, (#[trigger] pattern.spec_def().inner.knots@[j]).id@)) is None,
            decreases x.knots@.len() - i,
        {
            match find_knot_index(&self.knots, x.knots[i].id.as_str()) {
                Some(_) => {
                    proof {
                        lemma_first_clash_from(self.knots@, instance_id@, pattern.spec_def().inner.knots@, 0, i as int);
                    }
                    return Err(BuildError::DuplicateKnotId { knot_id: copy_string(&x.knots[i].id) });
                },
                None => {},
            }
            i = i + 1;
        }
        proof {
            lemma_first_clash_from(self.knots@, instance_id@, pattern.spec_def().inner.knots@, 0, x.knots@.len() as int);
            let d = pattern.spec_def();
            lemma_scan_inputs_all(d.inner.knots@, d.inner.threads@, d.inputs@, 0);
            lemma_scan_outputs_all(d.inner.knots@, d.outputs@, 0);
            assert forall|i: int| 0 <= i < d.inputs@.len() implies export_fault(d.inner.knots@, (#[trigger] d.inputs@[i]).port.knot@, d.inputs@[i].port.port@, PortDir::In) is None by {
                assert(input_fault(d.inner.knots@, d.inner.threads@, d.inputs@, i) is None);
            }
            assert forall|i: int| 0 <= i < d.outputs@.len() implies export_fault(d.inner.knots@, (#[trigger] d.outputs@[i]).port.knot@, d.outputs@[i].port.port@, PortDir::Out) is None by {
                assert(output_fault(d.inner.knots@, d.outputs@, i) is None);
            }
        }
        let ins = resolve_exports(&pattern.inner.knots, &pattern.inputs, PortDir::In, n0, self.owner);
        let outs = resolve_exports(&pattern.inner.knots, &pattern.outputs, PortDir::Out, n0, self.owner);
        let ghost old_knots = self.knots@;
        let ghost old_threads = self.threads@;
        let mut k: usize = 0;
        let xk = x.knots;
        while k < xk.len()
            invariant
                self.threads@ == old_threads,
                self.id == start.id,
                self.numeric == start.numeric,
                self.owner == start.owner,
                k <= xk@.len(),
                n0 == old_knots.len(),
                n0 + xk@.len() <= crate::validate::MAX_DENSE + 1,
                self.knots@.len() == n0 + k,
                self.knots@.subrange(0, n0 as int) == old_knots,
                forall|j: int| 0 <= j < k ==> self.knots@[n0 + j] == #[trigger] xk@[j],
            decreases xk@.len() - k,
        {
            let kd = KnotDef { id: xk[k].id.clone(), kind: copy_kind(&xk[k].kind) };
            self.knots.push(kd);
            k = k + 1;
        }
        assert(self.knots@ =~= old_knots + xk@);
        let mut t: usize = 0;
        let xt = x.threads;
        while t < xt.len()
            invariant
                self.knots@ == old_knots + xk@,
                self.id == start.id,
                self.numeric == start.numeric,
                self.owner == start.owner,
                t <= xt@.len(),
                self.threads@.len() == old_threads.len() + t,
                self.threads@.subrange(0, old_threads.len() as int) == old_threads,
                forall|j: int| 0 <= j < t ==> self.threads@[old_threads.len() + j] == #[trigger] xt@[j],
            decreases xt@.len() - t,
        {
            let td = ThreadDef { from: crate::weave::copy_port_ref(&xt[t].from), to: crate::weave::copy_port_ref(&xt[t].to) };
            self.threads.push(td);
            t = t + 1;
        }
        assert(self.threads@ =~= old_threads + xt@);
        let ghost fk = self.knots@;
        let ghost ft = self.threads@;
        let mut inputs: Vec<(String, InputRef)> = Vec::new();
        let mut q: usize = 0;
        while q < ins.len()
            invariant
                self.knots@ == fk,
                self.threads@ == ft,
                self.id == start.id,
                self.numeric == start.numeric,
                self.owner == start.owner,
                q <= ins@.len(),
                inputs@.len() == q,
                forall|j: int|
                    0 <= j < q ==> {
                        let y = #[trigger] inputs@[j];
                        &&& y.0@ == ins@[j].0@
                        &&& y.1.spec_owner() == self.owner
                        &&& y.1.spec_knot() == ins@[j].1
                        &&& y.1.spec_row() == ins@[j].2
                    },
            decreases ins@.len() - q,
        {
            inputs.push((copy_string(&ins[q].0), InputRef { owner: self.owner, knot: ins[q].1, row: ins[q].2 }));
            q = q + 1;
        }
        let mut outputs: Vec<(String, OutputRef)> = Vec::new();
        let mut q: usize = 0;
        while q < outs.len()
            invariant
                self.knots@ == fk,
                self.threads@ == ft,
                self.id == start.id,
                self.numeric == start.numeric,
                self.owner == start.owner,
                q <= outs@.len(),
                outputs@.len() == q,
                forall|j: int|
                    0 <= j < q ==> {
                        let y = #[trigger] outputs@[j];
                        &&& y.0@ == outs@[j].0@
                        &&& y.1.spec_owner() == self.owner
                        &&& y.1.spec_knot() == outs@[j].1
                        &&& y.1.spec_row() == outs@[j].2
                    },
            decreases outs@.len() - q,
        {
            outputs.push((copy_string(&outs[q].0), OutputRef { owner: self.owner, knot: outs[q].1, row: outs[q].2 }));
            q = q + 1;
        }
        proof {
            let d = pattern.spec_def();
            assert(fk.subrange(n0 as int, fk.len() as int) =~= xk@);
            assert(fk.subrange(0, n0 as int) =~= old_knots);
            assert(ft.subrange(old_threads.len() as int, ft.len() as int) =~= xt@);
            assert(ft.subrange(0, old_threads.len() as int) =~= old_threads);
            assert forall|i: int| 0 <= i < d.inputs@.len() implies crate::builder::row_ok(fk, (#[trigger] inputs@[i]).1.spec_knot(), inputs@[i].1.spec_row(), PortDir::In) by {
                assert(handle_of(d.inner.knots@, n0 as int, d.inputs@[i], PortDir::In, ins@[i]));
                let (kk, pp) = resolve(d.inner.knots@, d.inputs@[i].port.knot@, d.inputs@[i].port.port@).unwrap();
                crate::validate::lemma_find_knot(d.inner.knots@, d.inputs@[i].port.knot@);
                assert(fk[n0 + kk] == xk@[kk]);
            }
            assert forall|i: int| 0 <= i < d.outputs@.len() implies crate::builder::row_ok(fk, (#[trigger] outputs@[i]).1.spec_knot(), outputs@[i].1.spec_row(), PortDir::Out) by {
                assert(handle_of(d.inner.knots@, n0 as int, d.outputs@[i], PortDir::Out, outs@[i]));
                let (kk, pp) = resolve(d.inner.knots@, d.outputs@[i].port.knot@, d.outputs@[i].port.port@).unwrap();
                crate::validate::lemma_find_knot(d.inner.knots@, d.outputs@[i].port.knot@);
                assert(fk[n0 + kk] == xk@[kk]);
            }
        }
        Ok(PatternInstance { instance_id: to_owned_string(instance_id), inputs, outputs })
    }
}

} // verus!
