//! The knot catalog: signal domains, knot kinds, and each kind's port table.
//!
//! Every knot kind has a fixed, ordered list of ports. A port's position in
//! that list is its slot; inputs precede outputs. A kind whose parameters have
//! no table (an unsupported `And`/`Or` arity) has no ports at all.

use vstd::prelude::*;

use crate::signal::{Signal, ONE, ZERO};

verus! {

/// Semantic domain carried by a signal.
#[derive(Clone, Copy, Debug, PartialEq, Eq, Structural)]
pub enum SignalDomain {
    Bool,
    Level,
    Count,
}

/// Comparison operator of a `Compare` knot.
#[derive(Clone, Copy, Debug, PartialEq, Eq, Structural)]
pub enum CompareOp {
    Eq,
    Ne,
    Lt,
    Lte,
    Gt,
    Gte,
}

/// Arithmetic operator of a `Calc` knot.
#[derive(Clone, Copy, Debug, PartialEq, Eq, Structural)]
pub enum CalcOp {
    Add,
    Sub,
    Mul,
    Div,
}

/// Which input wins when a `Flag` sees set and reset together.
#[derive(Clone, Copy, Debug, PartialEq, Eq, Structural)]
pub enum FlagPriority {
    ResetWins,
    SetWins,
}

/// Timer behaviour.
#[derive(Clone, Copy, Debug, PartialEq, Eq, Structural)]
pub enum TimerMode {
    /// Active only once `feed` has been held for `ticks` frames.
    FedCountdown,
    /// Active for `ticks` frames after a rising `start`.
    PulseHold,
}

/// Numeric representation of signals.
#[derive(Clone, Copy, Debug, PartialEq, Eq, Structural)]
pub enum NumericPath {
    F32,
    I32Q16,
}

impl NumericPath {
    /// This library computes on Q16.16 fixed point.
    pub open spec fn spec_compiled() -> NumericPath {
        NumericPath::I32Q16
    }

    /// The numeric path this library computes with.
    pub fn compiled() -> (p: NumericPath)
        ensures
            p == NumericPath::spec_compiled(),
    {
        NumericPath::I32Q16
    }
}

/// Port direction.
#[derive(Clone, Copy, Debug, PartialEq, Eq, Structural)]
pub enum PortDir {
    In,
    Out,
}

/// Position of a port in its kind's port table.
#[derive(Clone, Copy, Debug, PartialEq, Eq, Structural)]
pub struct PortSlot(pub u8);

impl PortSlot {
    pub fn new(value: u8) -> (s: PortSlot)
        ensures
            s.0 == value,
    {
        PortSlot(value)
    }

    pub fn get(self) -> (v: u8)
        ensures
            v == self.0,
    {
        self.0
    }
}

/// Dense knot index (authoring order).
#[derive(Clone, Copy, Debug, PartialEq, Eq, Structural)]
pub struct KnotId(pub u16);

impl KnotId {
    pub fn get(self) -> (v: u16)
        ensures
            v == self.0,
    {
        self.0
    }
}

/// Every knot kind in the catalog, with its parameters.
#[derive(Clone, Debug, PartialEq)]
pub enum KnotKind {
    Constant { domain: SignalDomain, value: Signal },
    SignalIn { domain: SignalDomain },
    OnStart,
    Not,
    And { arity: u8 },
    Or { arity: u8 },
    Compare { domain: SignalDomain, op: CompareOp, rhs_const: Option<Signal> },
    RisingFromZero,
    Flag { priority: FlagPriority, enable_toggle: bool },
    Counter,
    Timer { mode: TimerMode, ticks: u16 },
    Delay { ticks: u16 },
    Calc { domain: SignalDomain, op: CalcOp },
    MapRange { domain: SignalDomain, in_min: Signal, in_max: Signal, out_min: Signal, out_max: Signal },
    Abs { domain: SignalDomain },
    Neg { domain: SignalDomain },
    Select,
    Digitize {
        domain: SignalDomain,
        steps: u16,
        in_min: Signal,
        in_max: Signal,
        out_min: Signal,
        out_max: Signal,
    },
    Threshold { domain: SignalDomain, high: Signal, low: Signal, use_hysteresis: bool },
    Random { domain: SignalDomain, require_gate: bool },
    Sqrt { domain: SignalDomain },
    Xor,
    FallingToZero,
    Change,
    Clamp { domain: SignalDomain, min: Signal, max: Signal },
    Convert { from: SignalDomain, to: SignalDomain },
    SignalOut { path: String, domain: SignalDomain },
    EmitCommand { name: String },
}

impl KnotKind {
    pub fn constant(value: Signal, domain: SignalDomain) -> (k: KnotKind)
        ensures
            k == (KnotKind::Constant { domain, value }),
    {
        KnotKind::Constant { domain, value }
    }

    /// Bool constant: `ONE` for true, `ZERO` for false.
    pub fn constant_bool(b: bool) -> (k: KnotKind)
        ensures
            k == (KnotKind::Constant { domain: SignalDomain::Bool, value: if b { ONE } else { ZERO } }),
    {
        KnotKind::Constant { domain: SignalDomain::Bool, value: if b { ONE } else { ZERO } }
    }

    pub fn signal_in(domain: SignalDomain) -> (k: KnotKind)
        ensures
            k == (KnotKind::SignalIn { domain }),
    {
        KnotKind::SignalIn { domain }
    }

    pub fn signal_out(path: &str, domain: SignalDomain) -> (k: KnotKind)
        ensures
            k is SignalOut && k->path@ == path@ && k->SignalOut_domain == domain,
    {
        KnotKind::SignalOut { path: crate::text::to_owned_string(path), domain }
    }

    pub fn emit_command(name: &str) -> (k: KnotKind)
        ensures
            k is EmitCommand && k->name@ == name@,
    {
        KnotKind::EmitCommand { name: crate::text::to_owned_string(name) }
    }

    pub fn not() -> (k: KnotKind)
        ensures
            k == KnotKind::Not,
    {
        KnotKind::Not
    }

    pub fn and2() -> (k: KnotKind)
        ensures
            k == (KnotKind::And { arity: 2 }),
    {
        KnotKind::And { arity: 2 }
    }

    pub fn or2() -> (k: KnotKind)
        ensures
            k == (KnotKind::Or { arity: 2 }),
    {
        KnotKind::Or { arity: 2 }
    }

    pub fn rising_from_zero() -> (k: KnotKind)
        ensures
            k == KnotKind::RisingFromZero,
    {
        KnotKind::RisingFromZero
    }

    pub fn timer(mode: TimerMode, ticks: u16) -> (k: KnotKind)
        ensures
            k == (KnotKind::Timer { mode, ticks }),
    {
        KnotKind::Timer { mode, ticks }
    }

    pub fn flag(priority: FlagPriority, enable_toggle: bool) -> (k: KnotKind)
        ensures
            k == (KnotKind::Flag { priority, enable_toggle }),
    {
        KnotKind::Flag { priority, enable_toggle }
    }

    pub fn counter() -> (k: KnotKind)
        ensures
            k == KnotKind::Counter,
    {
        KnotKind::Counter
    }

    pub fn compare(op: CompareOp, rhs_const: Option<Signal>, domain: SignalDomain) -> (k: KnotKind)
        ensures
            k == (KnotKind::Compare { domain, op, rhs_const }),
    {
        KnotKind::Compare { domain, op, rhs_const }
    }

    pub fn calc(op: CalcOp, domain: SignalDomain) -> (k: KnotKind)
        ensures
            k == (KnotKind::Calc { domain, op }),
    {
        KnotKind::Calc { domain, op }
    }

    pub fn map(in_min: Signal, in_max: Signal, out_min: Signal, out_max: Signal, domain: SignalDomain) -> (k: KnotKind)
        ensures
            k == (KnotKind::MapRange { domain, in_min, in_max, out_min, out_max }),
    {
        KnotKind::MapRange { domain, in_min, in_max, out_min, out_max }
    }

    pub fn abs(domain: SignalDomain) -> (k: KnotKind)
        ensures
            k == (KnotKind::Abs { domain }),
    {
        KnotKind::Abs { domain }
    }

    pub fn neg(domain: SignalDomain) -> (k: KnotKind)
        ensures
            k == (KnotKind::Neg { domain }),
    {
        KnotKind::Neg { domain }
    }

    pub fn sqrt(domain: SignalDomain) -> (k: KnotKind)
        ensures
            k == (KnotKind::Sqrt { domain }),
    {
        KnotKind::Sqrt { domain }
    }

    /// A Count constant holding `n`.
    pub fn constant_count(n: i32) -> (k: KnotKind)
        ensures
            k == (KnotKind::Constant { domain: SignalDomain::Count, value: n }),
    {
        KnotKind::Constant { domain: SignalDomain::Count, value: n }
    }

    pub fn select() -> (k: KnotKind)
        ensures
            k == KnotKind::Select,
    {
        KnotKind::Select
    }

    pub fn falling_to_zero() -> (k: KnotKind)
        ensures
            k == KnotKind::FallingToZero,
    {
        KnotKind::FallingToZero
    }

    pub fn clamp(min: Signal, max: Signal, domain: SignalDomain) -> (k: KnotKind)
        ensures
            k == (KnotKind::Clamp { domain, min, max }),
    {
        KnotKind::Clamp { domain, min, max }
    }

    pub fn convert(from: SignalDomain, to: SignalDomain) -> (k: KnotKind)
        ensures
            k == (KnotKind::Convert { from, to }),
    {
        KnotKind::Convert { from, to }
    }

    pub fn random(require_gate: bool, domain: SignalDomain) -> (k: KnotKind)
        ensures
            k == (KnotKind::Random { domain, require_gate }),
    {
        KnotKind::Random { domain, require_gate }
    }

    /// `steps` buckets over the unit range: input `[ZERO, ONE]` onto output `[ZERO, ONE]`.
    pub fn digitize(steps: u16, domain: SignalDomain) -> (k: KnotKind)
        ensures
            k == (KnotKind::Digitize { domain, steps, in_min: ZERO, in_max: ONE, out_min: ZERO, out_max: ONE }),
    {
        KnotKind::Digitize { domain, steps, in_min: ZERO, in_max: ONE, out_min: ZERO, out_max: ONE }
    }

    /// A hysteresis gate that turns on at one half and off below two fifths.
    pub fn threshold_default(domain: SignalDomain) -> (k: KnotKind)
        ensures
            k == (KnotKind::Threshold { domain, high: 32768i32, low: 26214i32, use_hysteresis: true }),
    {
        KnotKind::Threshold { domain, high: 32768, low: 26214, use_hysteresis: true }
    }
}

/// One row of a port table, as a mathematical value.
pub struct PortSpec {
    pub name: Seq<char>,
    pub slot: u8,
    pub dir: PortDir,
    pub required: bool,
}

pub open spec fn port(name: Seq<char>, slot: u8, dir: PortDir, required: bool) -> PortSpec {
    PortSpec { name, slot, dir, required }
}

/// Names of the `i`-th `And`/`Or` input.
pub open spec fn in_n(i: u8) -> Seq<char> {
    if i == 0 {
        "in_0"@
    } else if i == 1 {
        "in_1"@
    } else if i == 2 {
        "in_2"@
    } else {
        "in_3"@
    }
}

/// Supported `And`/`Or` arities.
pub open spec fn arity_supported(arity: u8) -> bool {
    2 <= arity <= 4
}

pub open spec fn gate_ports(arity: u8) -> Seq<PortSpec> {
    if !arity_supported(arity) {
        Seq::empty()
    } else {
        Seq::new(arity as nat, |i: int| port(in_n(i as u8), i as u8, PortDir::In, true)).push(
            port("out"@, arity, PortDir::Out, false),
        )
    }
}

/// The port table of every knot kind.
pub open spec fn port_table(kind: KnotKind) -> Seq<PortSpec> {
    let i = PortDir::In;
    let o = PortDir::Out;
    match kind {
        KnotKind::Constant { .. } | KnotKind::SignalIn { .. } | KnotKind::OnStart => seq![
            port("out"@, 0, o, false),
        ],
        KnotKind::Not | KnotKind::RisingFromZero | KnotKind::FallingToZero | KnotKind::Change
        | KnotKind::Delay { .. } | KnotKind::MapRange { .. } | KnotKind::Abs { .. } | KnotKind::Neg {
            ..
        } | KnotKind::Sqrt { .. } | KnotKind::Digitize { .. } | KnotKind::Clamp { .. }
        | KnotKind::Convert { .. } => seq![port("in"@, 0, i, true), port("out"@, 1, o, false)],
        KnotKind::And { arity } | KnotKind::Or { arity } => gate_ports(arity),
        KnotKind::Compare { .. } => seq![
            port("lhs"@, 0, i, true),
            port("rhs"@, 1, i, true),
            port("out"@, 2, o, false),
        ],
        KnotKind::Flag { .. } => seq![
            port("set"@, 0, i, false),
            port("reset"@, 1, i, false),
            port("toggle"@, 2, i, false),
            port("out"@, 3, o, false),
        ],
        KnotKind::Counter => seq![
            port("inc"@, 0, i, true),
            port("dec"@, 1, i, false),
            port("reset"@, 2, i, false),
            port("count"@, 3, o, false),
        ],
        KnotKind::Timer { mode, .. } => seq![
            port(
                match mode {
                    TimerMode::PulseHold => "start"@,
                    TimerMode::FedCountdown => "feed"@,
                },
                0,
                i,
                true,
            ),
            port("active"@, 1, o, false),
        ],
        KnotKind::Calc { .. } | KnotKind::Xor => seq![
            port("a"@, 0, i, true),
            port("b"@, 1, i, true),
            port("out"@, 2, o, false),
        ],
        KnotKind::Select => seq![
            port("sel"@, 0, i, true),
            port("a"@, 1, i, true),
            port("b"@, 2, i, true),
            port("out"@, 3, o, false),
        ],
        KnotKind::Threshold { .. } => seq![
            port("in"@, 0, i, true),
            port("out"@, 1, o, false),
            port("crossed_up"@, 2, o, false),
            port("crossed_down"@, 3, o, false),
        ],
        KnotKind::Random { .. } => seq![
            port("min"@, 0, i, false),
            port("max"@, 1, i, false),
            port("gate"@, 2, i, false),
            port("out"@, 3, o, false),
        ],
        KnotKind::SignalOut { .. } => seq![port("in"@, 0, i, true)],
        KnotKind::EmitCommand { .. } => seq![
            port("trigger"@, 0, i, true),
            port("enable"@, 1, i, false),
            port("payload"@, 2, i, false),
        ],
    }
}

/// One row of a port table.
#[derive(Clone, Copy, Debug)]
pub struct PortInfo {
    pub name: &'static str,
    pub slot: PortSlot,
    pub dir: PortDir,
    pub required: bool,
}

impl PortInfo {
    pub open spec fn spec(self) -> PortSpec {
        port(self.name@, self.slot.0, self.dir, self.required)
    }
}

pub open spec fn ports_match(v: Seq<PortInfo>, t: Seq<PortSpec>) -> bool {
    &&& v.len() == t.len()
    &&& forall|j: int| 0 <= j < v.len() ==> #[trigger] v[j].spec() == t[j]
}

fn push_port(v: &mut Vec<PortInfo>, name: &'static str, slot: u8, dir: PortDir, required: bool)
    ensures
        final(v)@ == old(v)@.push(PortInfo { name, slot: PortSlot(slot), dir, required }),
{
    v.push(PortInfo { name, slot: PortSlot(slot), dir, required });
}

fn in_name(i: u8) -> (s: &'static str)
    ensures
        s@ == in_n(i),
{
    if i == 0 {
        "in_0"
    } else if i == 1 {
        "in_1"
    } else if i == 2 {
        "in_2"
    } else {
        "in_3"
    }
}

/// The ordered port table of `kind`.
pub fn ports_of(kind: &KnotKind) -> (v: Vec<PortInfo>)
    ensures
        ports_match(v@, port_table(*kind)),
{
    let mut v: Vec<PortInfo> = Vec::new();
    let i = PortDir::In;
    let o = PortDir::Out;
    match kind {
        KnotKind::Constant { .. } | KnotKind::SignalIn { .. } | KnotKind::OnStart => {
            push_port(&mut v, "out", 0, o, false);
        },
        KnotKind::Not | KnotKind::RisingFromZero | KnotKind::FallingToZero | KnotKind::Change
        | KnotKind::Delay { .. } | KnotKind::MapRange { .. } | KnotKind::Abs { .. } | KnotKind::Neg {
            ..
        } | KnotKind::Sqrt { .. } | KnotKind::Digitize { .. } | KnotKind::Clamp { .. }
        | KnotKind::Convert { .. } => {
            push_port(&mut v, "in", 0, i, true);
            push_port(&mut v, "out", 1, o, false);
        },
        KnotKind::And { arity } | KnotKind::Or { arity } => {
            let arity = *arity;
            if 2 <= arity && arity <= 4 {
                let mut s: u8 = 0;
                while s < arity
                    invariant
                        2 <= arity <= 4,
                        s <= arity,
                        v@.len() == s,
                        forall|j: int| 0 <= j < s ==> #[trigger] v@[j].spec() == port(in_n(j as u8), j as u8, PortDir::In, true),
                    decreases arity - s,
                {
                    push_port(&mut v, in_name(s), s, PortDir::In, true);
                    s = s + 1;
                }
                push_port(&mut v, "out", arity, o, false);
            }
            proof {
                let t = port_table(*kind);
                assert(t == gate_ports(arity));
                if arity_supported(arity) {
                    assert forall|j: int| 0 <= j < v@.len() implies #[trigger] v@[j].spec() == t[j] by {
                        if j < arity {
                        }
                    }
                }
            }
        },
        KnotKind::Compare { .. } => {
            push_port(&mut v, "lhs", 0, i, true);
            push_port(&mut v, "rhs", 1, i, true);
            push_port(&mut v, "out", 2, o, false);
        },
        KnotKind::Flag { .. } => {
            push_port(&mut v, "set", 0, i, false);
            push_port(&mut v, "reset", 1, i, false);
            push_port(&mut v, "toggle", 2, i, false);
            push_port(&mut v, "out", 3, o, false);
        },
        KnotKind::Counter => {
            push_port(&mut v, "inc", 0, i, true);
            push_port(&mut v, "dec", 1, i, false);
            push_port(&mut v, "reset", 2, i, false);
            push_port(&mut v, "count", 3, o, false);
        },
        KnotKind::Timer { mode, .. } => {
            match mode {
                TimerMode::PulseHold => push_port(&mut v, "start", 0, i, true),
                TimerMode::FedCountdown => push_port(&mut v, "feed", 0, i, true),
            }
            push_port(&mut v, "active", 1, o, false);
        },
        KnotKind::Calc { .. } | KnotKind::Xor => {
            push_port(&mut v, "a", 0, i, true);
            push_port(&mut v, "b", 1, i, true);
            push_port(&mut v, "out", 2, o, false);
        },
        KnotKind::Select => {
            push_port(&mut v, "sel", 0, i, true);
            push_port(&mut v, "a", 1, i, true);
            push_port(&mut v, "b", 2, i, true);
            push_port(&mut v, "out", 3, o, false);
        },
        KnotKind::Threshold { .. } => {
            push_port(&mut v, "in", 0, i, true);
            push_port(&mut v, "out", 1, o, false);
            push_port(&mut v, "crossed_up", 2, o, false);
            push_port(&mut v, "crossed_down", 3, o, false);
        },
        KnotKind::Random { .. } => {
            push_port(&mut v, "min", 0, i, false);
            push_port(&mut v, "max", 1, i, false);
            push_port(&mut v, "gate", 2, i, false);
            push_port(&mut v, "out", 3, o, false);
        },
        KnotKind::SignalOut { .. } => {
            push_port(&mut v, "in", 0, i, true);
        },
        KnotKind::EmitCommand { .. } => {
            push_port(&mut v, "trigger", 0, i, true);
            push_port(&mut v, "enable", 1, i, false);
            push_port(&mut v, "payload", 2, i, false);
        },
    }
    v
}

/// Index of the first row named `name`, if any.
pub open spec fn find_port(t: Seq<PortSpec>, name: Seq<char>) -> Option<int>
    decreases t.len(),
{
    if t.len() == 0 {
        None
    } else if t[0].name == name {
        Some(0)
    } else {
        match find_port(t.drop_first(), name) {
            Some(j) => Some(j + 1),
            None => None,
        }
    }
}

pub proof fn lemma_find_port(t: Seq<PortSpec>, name: Seq<char>)
    ensures
        match find_port(t, name) {
            Some(j) => 0 <= j < t.len() && t[j].name == name && forall|k: int| 0 <= k < j ==> t[k].name != name,
            None => forall|k: int| 0 <= k < t.len() ==> t[k].name != name,
        },
    decreases t.len(),
{
    if t.len() > 0 && t[0].name != name {
        lemma_find_port(t.drop_first(), name);
        assert forall|k: int| 1 <= k < t.len() implies t[k].name == t.drop_first()[k - 1].name by {}
    }
}

pub proof fn lemma_find_port_is(t: Seq<PortSpec>, name: Seq<char>, j: int)
    requires
        0 <= j < t.len(),
        t[j].name == name,
        forall|k: int| 0 <= k < j ==> t[k].name != name,
    ensures
        find_port(t, name) == Some(j),
{
    lemma_find_port(t, name);
    match find_port(t, name) {
        Some(j2) => {
            if j2 < j {
                assert(t[j2].name != name);
            }
            if j < j2 {
                assert(t[j].name != name);
            }
        },
        None => {
            assert(t[j].name != name);
        },
    }
}

pub proof fn lemma_find_port_none(t: Seq<PortSpec>, name: Seq<char>)
    requires
        forall|k: int| 0 <= k < t.len() ==> t[k].name != name,
    ensures
        find_port(t, name) is None,
{
    lemma_find_port(t, name);
    match find_port(t, name) {
        Some(j2) => {
            assert(t[j2].name != name);
        },
        None => {},
    }
}

/// The slot of the first port of `kind` named `name`.
pub open spec fn spec_port_slot(kind: KnotKind, name: Seq<char>) -> Option<u8> {
    match find_port(port_table(kind), name) {
        Some(j) => Some(port_table(kind)[j].slot),
        None => None,
    }
}

/// Look a port up by name in `ports`; returns its row index.
pub fn find_port_index(ports: &Vec<PortInfo>, name: &str) -> (r: Option<usize>)
    ensures
        match r {
            Some(j) => j < ports@.len() && ports@[j as int].name@ == name@ && forall|k: int|
                0 <= k < j ==> ports@[k].name@ != name@,
            None => forall|k: int| 0 <= k < ports@.len() ==> ports@[k].name@ != name@,
        },
{
    let mut j: usize = 0;
    while j < ports.len()
        invariant
            j <= ports@.len(),
            forall|k: int| 0 <= k < j ==> ports@[k].name@ != name@,
        decreases ports@.len() - j,
    {
        if crate::text::str_eq(ports[j].name, name) {
            return Some(j);
        }
        j = j + 1;
    }
    None
}

/// Resolve a catalog port name to its slot on `kind`.
pub fn port_slot(kind: &KnotKind, name: &str) -> (r: Option<PortSlot>)
    ensures
        r == (match spec_port_slot(*kind, name@) {
            Some(s) => Some(PortSlot(s)),
            None => None,
        }),
{
    let ports = ports_of(kind);
    let r = find_port_index(&ports, name);
    proof {
        let t = port_table(*kind);
        lemma_find_port(t, name@);
        assert forall|k: int| 0 <= k < t.len() implies #[trigger] t[k].name == ports@[k].name@ by {
            assert(ports@[k].spec() == t[k]);
        }
    }
    match r {
        Some(j) => {
            proof {
                lemma_find_port_is(port_table(*kind), name@, j as int);
                assert(ports@[j as int].spec() == port_table(*kind)[j as int]);
            }
            Some(ports[j].slot)
        },
        None => {
            proof {
                lemma_find_port_none(port_table(*kind), name@);
            }
            None
        },
    }
}


/// Every port's slot is its row in the table, and no kind has more than five
/// ports.
pub proof fn lemma_slot_is_row(kind: KnotKind)
    ensures
        port_table(kind).len() <= 5,
        forall|p: int| 0 <= p < port_table(kind).len() ==> #[trigger] port_table(kind)[p].slot == p,
{
    match kind {
        KnotKind::And { arity } | KnotKind::Or { arity } => {
            if arity_supported(arity) {
                let t = gate_ports(arity);
                assert forall|p: int| 0 <= p < t.len() implies #[trigger] t[p].slot == p by {
                    if p < arity {
                    }
                }
            }
        },
        _ => {},
    }
}

} // verus!
