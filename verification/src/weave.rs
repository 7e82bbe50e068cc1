//! Authored graph definitions, the builder, and the validated [`Weave`].
//!
//! A [`WeaveDef`] is the editable form. A [`Weave`] is only produced after
//! structural validation (unique ids, resolvable ports, port directions, no
//! fan-in, required inputs wired, acyclic). Binding consumes a `Weave`.

use vstd::prelude::*;

use crate::catalog::{KnotKind, NumericPath};
use crate::validate::{def_fault, structural_fault, validate_def, ValidationError};

verus! {

/// Author reference to a named knot port.
#[derive(Clone, Debug, PartialEq, Eq)]
pub struct PortRefDef {
    pub knot: String,
    pub port: String,
}

impl PortRefDef {
    pub fn new(knot: &str, port: &str) -> (r: PortRefDef)
        ensures
            r.knot@ == knot@,
            r.port@ == port@,
    {
        PortRefDef { knot: knot.to_owned(), port: port.to_owned() }
    }
}

/// Knot definition: author id and kind.
#[derive(Clone, Debug, PartialEq)]
pub struct KnotDef {
    pub id: String,
    pub kind: KnotKind,
}

/// Directed connection from an output port to an input port.
#[derive(Clone, Debug, PartialEq, Eq)]
pub struct ThreadDef {
    pub from: PortRefDef,
    pub to: PortRefDef,
}

/// Editable graph definition. Convert it to a [`Weave`] before execution.
#[derive(Clone, Debug, PartialEq)]
pub struct WeaveDef {
    pub id: String,
    pub numeric: NumericPath,
    pub knots: Vec<KnotDef>,
    pub threads: Vec<ThreadDef>,
}

/// Immutable, structurally validated graph ready for bind.
#[derive(Debug, PartialEq)]
pub struct Weave {
    pub(crate) id: String,
    pub(crate) numeric: NumericPath,
    pub(crate) knots: Vec<KnotDef>,
    pub(crate) threads: Vec<ThreadDef>,
}

impl Weave {
    /// The weave passed structural validation.
    #[verifier::type_invariant]
    pub open spec fn valid(&self) -> bool {
        structural_fault(self.spec_id(), self.spec_numeric(), self.spec_knots(), self.spec_threads()) is None
    }

    pub open(crate) spec fn spec_id(&self) -> Seq<char> {
        self.id@
    }

    pub open(crate) spec fn spec_knots(&self) -> Seq<KnotDef> {
        self.knots@
    }

    pub open(crate) spec fn spec_threads(&self) -> Seq<ThreadDef> {
        self.threads@
    }

    pub open(crate) spec fn spec_numeric(&self) -> NumericPath {
        self.numeric
    }

    /// Author weave id.
    pub fn id(&self) -> (r: &str)
        ensures
            r@ == self.spec_id(),
    {
        self.id.as_str()
    }

    /// Declared numeric path.
    pub fn numeric(&self) -> (r: NumericPath)
        ensures
            r == self.spec_numeric(),
    {
        self.numeric
    }

    /// Ordered knot definitions (dense runtime indices follow this order).
    pub fn knots(&self) -> (r: &Vec<KnotDef>)
        ensures
            r@ == self.spec_knots(),
    {
        &self.knots
    }

    /// Threads in author order.
    pub fn threads(&self) -> (r: &Vec<ThreadDef>)
        ensures
            r@ == self.spec_threads(),
    {
        &self.threads
    }

    /// Validate a definition into a weave: succeeds exactly when the
    /// definition has no structural fault, and reports the first one.
    pub fn try_from_def(def: WeaveDef) -> (r: Result<Weave, ValidationError>)
        ensures
            match r {
                Ok(w) => def_fault(def) is None && w.spec_id() == def.id@ && w.spec_numeric() == def.numeric
                    && w.spec_knots() == def.knots@ && w.spec_threads() == def.threads@,
                Err(e) => def_fault(def) == Some(e@),
            },
    {
        match validate_def(&def) {
            Ok(()) => Ok(Weave { id: def.id, numeric: def.numeric, knots: def.knots, threads: def.threads }),
            Err(e) => Err(e),
        }
    }

    /// A copy of the definition this weave was validated from.
    pub fn to_def(&self) -> (d: WeaveDef)
        ensures
            d.id@ == self.spec_id(),
            d.numeric == self.spec_numeric(),
            d.knots@ == self.spec_knots(),
            d.threads@ == self.spec_threads(),
    {
        WeaveDef {
            id: self.id.clone(),
            numeric: self.numeric,
            knots: copy_knots(&self.knots),
            threads: copy_threads(&self.threads),
        }
    }

    /// An independent copy of this weave.
    pub fn copy(&self) -> (w: Weave)
        ensures
            w.spec_id() == self.spec_id(),
            w.spec_numeric() == self.spec_numeric(),
            w.spec_knots() == self.spec_knots(),
            w.spec_threads() == self.spec_threads(),
    {
        proof {
            use_type_invariant(self);
        }
        Weave {
            id: self.id.clone(),
            numeric: self.numeric,
            knots: copy_knots(&self.knots),
            threads: copy_threads(&self.threads),
        }
    }

    /// The definition form of this weave.
    pub closed spec fn spec_def(&self) -> WeaveDef {
        WeaveDef { id: self.id, numeric: self.numeric, knots: self.knots, threads: self.threads }
    }

    /// The definition this weave was validated from.
    pub fn into_def(self) -> (d: WeaveDef)
        ensures
            d.id@ == self.spec_id(),
            d.numeric == self.spec_numeric(),
            d.knots@ == self.spec_knots(),
            d.threads@ == self.spec_threads(),
            d == self.spec_def(),
    {
        WeaveDef { id: self.id, numeric: self.numeric, knots: self.knots, threads: self.threads }
    }
}

impl Clone for Weave {
    fn clone(&self) -> (w: Weave)
        ensures
            w.spec_id() == self.spec_id(),
            w.spec_numeric() == self.spec_numeric(),
            w.spec_knots() == self.spec_knots(),
            w.spec_threads() == self.spec_threads(),
    {
        self.copy()
    }
}

impl From<Weave> for WeaveDef {
    fn from(value: Weave) -> (d: WeaveDef) {
        value.into_def()
    }
}

impl vstd::std_specs::convert::FromSpecImpl<Weave> for WeaveDef {
    open spec fn obeys_from_spec() -> bool {
        true
    }

    open spec fn from_spec(value: Weave) -> WeaveDef {
        value.spec_def()
    }
}

/// An equal copy of a knot kind.
pub fn copy_kind(k: &KnotKind) -> (r: KnotKind)
    ensures
        r == *k,
{
    match k {
        KnotKind::Constant { domain, value } => KnotKind::Constant { domain: *domain, value: *value },
        KnotKind::SignalIn { domain } => KnotKind::SignalIn { domain: *domain },
        KnotKind::OnStart => KnotKind::OnStart,
        KnotKind::Not => KnotKind::Not,
        KnotKind::And { arity } => KnotKind::And { arity: *arity },
        KnotKind::Or { arity } => KnotKind::Or { arity: *arity },
        KnotKind::Compare { domain, op, rhs_const } => KnotKind::Compare {
            domain: *domain,
            op: *op,
            rhs_const: *rhs_const,
        },
        KnotKind::RisingFromZero => KnotKind::RisingFromZero,
        KnotKind::Flag { priority, enable_toggle } => KnotKind::Flag {
            priority: *priority,
            enable_toggle: *enable_toggle,
        },
        KnotKind::Counter => KnotKind::Counter,
        KnotKind::Timer { mode, ticks } => KnotKind::Timer { mode: *mode, ticks: *ticks },
        KnotKind::Delay { ticks } => KnotKind::Delay { ticks: *ticks },
        KnotKind::Calc { domain, op } => KnotKind::Calc { domain: *domain, op: *op },
        KnotKind::MapRange { domain, in_min, in_max, out_min, out_max } => KnotKind::MapRange {
            domain: *domain,
            in_min: *in_min,
            in_max: *in_max,
            out_min: *out_min,
            out_max: *out_max,
        },
        KnotKind::Abs { domain } => KnotKind::Abs { domain: *domain },
        KnotKind::Neg { domain } => KnotKind::Neg { domain: *domain },
        KnotKind::Select => KnotKind::Select,
        KnotKind::Digitize { domain, steps, in_min, in_max, out_min, out_max } => KnotKind::Digitize {
            domain: *domain,
            steps: *steps,
            in_min: *in_min,
            in_max: *in_max,
            out_min: *out_min,
            out_max: *out_max,
        },
        KnotKind::Threshold { domain, high, low, use_hysteresis } => KnotKind::Threshold {
            domain: *domain,
            high: *high,
            low: *low,
            use_hysteresis: *use_hysteresis,
        },
        KnotKind::Random { domain, require_gate } => KnotKind::Random {
            domain: *domain,
            require_gate: *require_gate,
        },
        KnotKind::Sqrt { domain } => KnotKind::Sqrt { domain: *domain },
        KnotKind::Xor => KnotKind::Xor,
        KnotKind::FallingToZero => KnotKind::FallingToZero,
        KnotKind::Change => KnotKind::Change,
        KnotKind::Clamp { domain, min, max } => KnotKind::Clamp { domain: *domain, min: *min, max: *max },
        KnotKind::Convert { from, to } => KnotKind::Convert { from: *from, to: *to },
        KnotKind::SignalOut { path, domain } => KnotKind::SignalOut { path: path.clone(), domain: *domain },
        KnotKind::EmitCommand { name } => KnotKind::EmitCommand { name: name.clone() },
    }
}

pub fn copy_port_ref(p: &PortRefDef) -> (r: PortRefDef)
    ensures
        r == *p,
{
    PortRefDef { knot: p.knot.clone(), port: p.port.clone() }
}

pub fn copy_knots(v: &Vec<KnotDef>) -> (r: Vec<KnotDef>)
    ensures
        r@ == v@,
{
    let mut r: Vec<KnotDef> = Vec::new();
    let mut i: usize = 0;
    while i < v.len()
        invariant
            i <= v@.len(),
            r@ == v@.subrange(0, i as int),
        decreases v@.len() - i,
    {
        r.push(KnotDef { id: v[i].id.clone(), kind: copy_kind(&v[i].kind) });
        i = i + 1;
    }
    assert(r@ =~= v@);
    r
}

pub fn copy_threads(v: &Vec<ThreadDef>) -> (r: Vec<ThreadDef>)
    ensures
        r@ == v@,
{
    let mut r: Vec<ThreadDef> = Vec::new();
    let mut i: usize = 0;
    while i < v.len()
        invariant
            i <= v@.len(),
            r@ == v@.subrange(0, i as int),
        decreases v@.len() - i,
    {
        r.push(ThreadDef { from: copy_port_ref(&v[i].from), to: copy_port_ref(&v[i].to) });
        i = i + 1;
    }
    assert(r@ =~= v@);
    r
}

} // verus!
