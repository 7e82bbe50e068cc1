//! Incremental authoring of a [`Weave`]: add knots, take typed port handles,
//! connect them, and validate on [`WeaveBuilder::build`].

use vstd::prelude::*;

use crate::catalog::{find_port, port_slot, port_table, spec_port_slot, KnotKind, NumericPath, PortDir, PortSlot, PortSpec};
use crate::text::copy_string;
use crate::token::fresh_token;
use crate::validate::{
    find_knot, structural_fault, find_knot_index, lemma_find_knot, names_view, port_name_list, port_names,
    resolve_port_row, validate_def, VFault, ValidationError, MAX_DENSE,
};
use crate::weave::{copy_knots, copy_threads, KnotDef, PortRefDef, ThreadDef, Weave, WeaveDef};

verus! {

/// Failure while authoring a weave with a [`WeaveBuilder`].
#[derive(Clone, Debug, PartialEq, Eq)]
pub enum BuildError {
    InvalidId { id: String, reason: &'static str },
    DuplicateKnotId { knot_id: String },
    ForeignHandle,
    UnknownPort { knot_id: String, port: String, expected: Vec<String> },
    WrongPortDirection { knot_id: String, port: String, expected: PortDir, actual: PortDir },
    UnknownExport { instance_id: String, export: String, direction: PortDir },
    NumericMismatch { expected: NumericPath, actual: NumericPath },
    RepresentationOverflow { what: &'static str, actual: usize, limit: usize },
    Validation(ValidationError),
}

/// A build failure as a mathematical value.
pub enum BFault {
    InvalidId { id: Seq<char>, reason: Seq<char> },
    DuplicateKnotId { knot_id: Seq<char> },
    ForeignHandle,
    UnknownPort { knot_id: Seq<char>, port: Seq<char>, expected: Seq<Seq<char>> },
    WrongPortDirection { knot_id: Seq<char>, port: Seq<char>, expected: PortDir, actual: PortDir },
    UnknownExport { instance_id: Seq<char>, export: Seq<char>, direction: PortDir },
    NumericMismatch { expected: NumericPath, actual: NumericPath },
    RepresentationOverflow { what: Seq<char>, actual: nat, limit: nat },
    Validation(VFault),
}

impl View for BuildError {
    type V = BFault;

    open spec fn view(&self) -> BFault {
        match *self {
            BuildError::InvalidId { id, reason } => BFault::InvalidId { id: id@, reason: reason@ },
            BuildError::DuplicateKnotId { knot_id } => BFault::DuplicateKnotId { knot_id: knot_id@ },
            BuildError::ForeignHandle => BFault::ForeignHandle,
            BuildError::UnknownPort { knot_id, port, expected } => BFault::UnknownPort {
                knot_id: knot_id@,
                port: port@,
                expected: names_view(expected@),
            },
            BuildError::WrongPortDirection { knot_id, port, expected, actual } =>
                BFault::WrongPortDirection { knot_id: knot_id@, port: port@, expected, actual },
            BuildError::UnknownExport { instance_id, export, direction } => BFault::UnknownExport {
                instance_id: instance_id@,
                export: export@,
                direction,
            },
            BuildError::NumericMismatch { expected, actual } => BFault::NumericMismatch { expected, actual },
            BuildError::RepresentationOverflow { what, actual, limit } =>
                BFault::RepresentationOverflow { what: what@, actual: actual as nat, limit: limit as nat },
            BuildError::Validation(e) => BFault::Validation(e@),
        }
    }
}

impl From<ValidationError> for BuildError {
    fn from(e: ValidationError) -> (r: BuildError) {
        BuildError::Validation(e)
    }
}

impl vstd::std_specs::convert::FromSpecImpl<ValidationError> for BuildError {
    open spec fn obeys_from_spec() -> bool {
        true
    }

    open spec fn from_spec(e: ValidationError) -> BuildError {
        BuildError::Validation(e)
    }
}

/// Handle to a knot added to one builder.
#[derive(Clone, Copy, Debug, PartialEq, Eq)]
pub struct KnotRef {
    pub(crate) owner: u64,
    pub(crate) index: u16,
}

/// Handle to an output port of a knot of one builder.
#[derive(Clone, Copy, Debug, PartialEq, Eq)]
pub struct OutputRef {
    pub(crate) owner: u64,
    pub(crate) knot: u16,
    pub(crate) row: u8,
}

/// Handle to an input port of a knot of one builder.
#[derive(Clone, Copy, Debug, PartialEq, Eq)]
pub struct InputRef {
    pub(crate) owner: u64,
    pub(crate) knot: u16,
    pub(crate) row: u8,
}

impl KnotRef {
    pub open(crate) spec fn spec_owner(&self) -> u64 {
        self.owner
    }

    pub open(crate) spec fn spec_index(&self) -> u16 {
        self.index
    }
}

impl OutputRef {
    pub open(crate) spec fn spec_owner(&self) -> u64 {
        self.owner
    }

    pub open(crate) spec fn spec_knot(&self) -> u16 {
        self.knot
    }

    pub open(crate) spec fn spec_row(&self) -> u8 {
        self.row
    }
}

impl InputRef {
    pub open(crate) spec fn spec_owner(&self) -> u64 {
        self.owner
    }

    pub open(crate) spec fn spec_knot(&self) -> u16 {
        self.knot
    }

    pub open(crate) spec fn spec_row(&self) -> u8 {
        self.row
    }
}

/// Records knots and threads; [`WeaveBuilder::build`] validates the result.
pub struct WeaveBuilder {
    pub(crate) id: String,
    pub(crate) numeric: NumericPath,
    pub(crate) knots: Vec<KnotDef>,
    pub(crate) threads: Vec<ThreadDef>,
    pub(crate) owner: u64,
}

/// The fault of taking port `port` of the knot at `index` in direction `dir`.
pub open spec fn port_handle_fault(
    knots: Seq<KnotDef>,
    owner: u64,
    handle_owner: u64,
    index: u16,
    port: Seq<char>,
    dir: PortDir,
) -> Option<BFault> {
    if handle_owner != owner || index >= knots.len() {
        Some(BFault::ForeignHandle)
    } else {
        let k = knots[index as int];
        let t = port_table(k.kind);
        match find_port(t, port) {
            None => Some(BFault::UnknownPort { knot_id: k.id@, port, expected: port_names(t) }),
            Some(p) => if t[p].dir != dir {
                Some(BFault::WrongPortDirection { knot_id: k.id@, port, expected: dir, actual: t[p].dir })
            } else {
                None
            },
        }
    }
}

/// A resolved endpoint row is usable on the knot at `index`.
pub open spec fn row_ok(knots: Seq<KnotDef>, index: u16, row: u8, dir: PortDir) -> bool {
    &&& index < knots.len()
    &&& row < port_table(knots[index as int].kind).len()
    &&& port_table(knots[index as int].kind)[row as int].dir == dir
}

/// Row of the first port of `t` at or after `i` whose slot is `s`.
pub open spec fn find_slot_from(t: Seq<PortSpec>, s: u8, i: int) -> Option<int>
    decreases t.len() - i,
{
    if i < 0 || i >= t.len() {
        None
    } else if t[i].slot == s {
        Some(i)
    } else {
        find_slot_from(t, s, i + 1)
    }
}

/// The catalog name of slot `s` of the knot `k`, if the slot exists.
pub open spec fn slot_name(k: KnotDef, s: u8) -> Option<Seq<char>> {
    match find_slot_from(port_table(k.kind), s, 0) {
        Some(p) => Some(port_table(k.kind)[p].name),
        None => None,
    }
}

/// Why the handle `h` with slot `s` cannot be wired in this builder.
pub open(crate) spec fn slot_fault(knots: Seq<KnotDef>, owner: u64, h: KnotRef, s: u8) -> Option<BFault> {
    if h.owner != owner || h.index >= knots.len() {
        Some(BFault::ForeignHandle)
    } else if slot_name(knots[h.index as int], s) is None {
        Some(BFault::UnknownPort {
            knot_id: knots[h.index as int].id@,
            port: Seq::empty(),
            expected: port_names(port_table(knots[h.index as int].kind)),
        })
    } else {
        None
    }
}

/// The first fault of wiring `from` to `to` by slots.
pub open(crate) spec fn slot_wire_fault(knots: Seq<KnotDef>, owner: u64, from: (KnotRef, PortSlot), to: (KnotRef, PortSlot)) -> Option<BFault> {
    if from.0.owner != owner || from.0.index >= knots.len() || to.0.owner != owner || to.0.index >= knots.len() {
        Some(BFault::ForeignHandle)
    } else if slot_fault(knots, owner, from.0, from.1.0) is Some {
        slot_fault(knots, owner, from.0, from.1.0)
    } else {
        slot_fault(knots, owner, to.0, to.1.0)
    }
}

/// Why adding a knot named `id` after `knots` is refused.
pub open spec fn knot_refusal(knots: Seq<KnotDef>, id: Seq<char>) -> Option<BFault> {
    if id.len() == 0 {
        Some(BFault::InvalidId { id, reason: "knot ids must be non-empty"@ })
    } else if knots.len() > MAX_DENSE {
        Some(BFault::RepresentationOverflow { what: "knot"@, actual: knots.len(), limit: MAX_DENSE as nat })
    } else if find_knot(knots, id) is Some {
        Some(BFault::DuplicateKnotId { knot_id: id })
    } else {
        None
    }
}

/// The catalog name of slot `slot` of `kind`.
fn slot_port_name(kind: &KnotKind, slot: PortSlot) -> (r: Option<&'static str>)
    ensures
        match find_slot_from(port_table(*kind), slot.0, 0) {
            Some(p) => r matches Some(n) && n@ == port_table(*kind)[p].name,
            None => r is None,
        },
{
    let ports = crate::catalog::ports_of(kind);
    let mut i: usize = 0;
    while i < ports.len()
        invariant
            crate::catalog::ports_match(ports@, port_table(*kind)),
            i <= ports@.len(),
            find_slot_from(port_table(*kind), slot.0, 0) == find_slot_from(port_table(*kind), slot.0, i as int),
        decreases ports@.len() - i,
    {
        assert(ports@[i as int].spec() == port_table(*kind)[i as int]);
        if ports[i].slot.0 == slot.0 {
            return Some(ports[i].name);
        }
        i = i + 1;
    }
    None
}

impl WeaveBuilder {
    pub open(crate) spec fn spec_id(&self) -> Seq<char> {
        self.id@
    }

    pub open(crate) spec fn spec_numeric(&self) -> NumericPath {
        self.numeric
    }

    pub open(crate) spec fn spec_knots(&self) -> Seq<KnotDef> {
        self.knots@
    }

    pub open(crate) spec fn spec_threads(&self) -> Seq<ThreadDef> {
        self.threads@
    }

    pub open(crate) spec fn spec_owner(&self) -> u64 {
        self.owner
    }

    /// Knot indices fit the dense `u16` handle space.
    pub open spec fn wf(&self) -> bool {
        self.spec_knots().len() <= MAX_DENSE + 1
    }

    /// Start a builder for the weave `id` (which must be non-empty).
    pub fn new(id: &str) -> (r: Result<WeaveBuilder, BuildError>)
        ensures
            match r {
                Ok(b) => id@.len() > 0 && b.wf() && b.spec_id() == id@ && b.spec_numeric()
                    == NumericPath::spec_compiled() && b.spec_knots().len() == 0 && b.spec_threads().len() == 0,
                Err(e) => id@.len() == 0 && e@ == BFault::InvalidId { id: id@, reason: "weave ids must be non-empty"@ },
            },
    {
        if id.is_empty() {
            return Err(BuildError::InvalidId { id: id.to_owned(), reason: "weave ids must be non-empty" });
        }
        Ok(
            WeaveBuilder {
                id: id.to_owned(),
                numeric: NumericPath::compiled(),
                knots: Vec::new(),
                threads: Vec::new(),
                owner: fresh_token(),
            },
        )
    }

    /// The numeric path the weave will declare.
    pub fn numeric(&self) -> (p: NumericPath)
        ensures
            p == self.spec_numeric(),
    {
        self.numeric
    }

    /// Change the numeric path the weave will declare.
    pub fn set_numeric(&mut self, path: NumericPath) -> (r: Result<(), BuildError>)
        ensures
            r is Ok,
            final(self).spec_numeric() == path,
            final(self).spec_id() == old(self).spec_id(),
            final(self).spec_knots() == old(self).spec_knots(),
            final(self).spec_threads() == old(self).spec_threads(),
            final(self).spec_owner() == old(self).spec_owner(),
    {
        self.numeric = path;
        Ok(())
    }

    /// Add a knot named `id`.
    pub fn knot(&mut self, id: &str, kind: KnotKind) -> (r: Result<KnotRef, BuildError>)
        requires
            old(self).wf(),
        ensures
            final(self).wf(),
            final(self).spec_id() == old(self).spec_id(),
            final(self).spec_numeric() == old(self).spec_numeric(),
            final(self).spec_threads() == old(self).spec_threads(),
            final(self).spec_owner() == old(self).spec_owner(),
            match r {
                Ok(k) => id@.len() > 0 && old(self).spec_knots().len() <= MAX_DENSE && find_knot(
                    old(self).spec_knots(),
                    id@,
                ) is None && k.spec_owner() == old(self).spec_owner() && k.spec_index()
                    == old(self).spec_knots().len() && final(self).spec_knots().len() == old(
                    self,
                ).spec_knots().len() + 1 && final(self).spec_knots().drop_last() == old(self).spec_knots()
                    && final(self).spec_knots().last().id@ == id@ && final(self).spec_knots().last().kind
                    == kind,
                Err(e) => final(self).spec_knots() == old(self).spec_knots() && if id@.len() == 0 {
                    e@ == BFault::InvalidId { id: id@, reason: "knot ids must be non-empty"@ }
                } else if old(self).spec_knots().len() > MAX_DENSE {
                    e@ == BFault::RepresentationOverflow {
                        what: "knot"@,
                        actual: old(self).spec_knots().len(),
                        limit: MAX_DENSE as nat,
                    }
                } else {
                    find_knot(old(self).spec_knots(), id@) is Some && e@ == BFault::DuplicateKnotId {
                        knot_id: id@,
                    }
                },
            },
    {
        if id.is_empty() {
            return Err(BuildError::InvalidId { id: id.to_owned(), reason: "knot ids must be non-empty" });
        }
        if self.knots.len() > MAX_DENSE {
            return Err(BuildError::RepresentationOverflow { what: "knot", actual: self.knots.len(), limit: MAX_DENSE });
        }
        if find_knot_index(&self.knots, id).is_some() {
            return Err(BuildError::DuplicateKnotId { knot_id: id.to_owned() });
        }
        let index = self.knots.len() as u16;
        self.knots.push(KnotDef { id: id.to_owned(), kind });
        proof {
            assert(self.knots@.drop_last() =~= old(self).knots@);
        }
        Ok(KnotRef { owner: self.owner, index })
    }

    fn port_handle(&self, knot: &KnotRef, port: &str, dir: PortDir) -> (r: Result<(u16, u8), BuildError>)
        ensures
            match r {
                Ok((k, row)) => port_handle_fault(self.spec_knots(), self.spec_owner(), knot.spec_owner(), knot.spec_index(), port@, dir)
                    is None && k == knot.spec_index() && row_ok(self.spec_knots(), k, row, dir) && find_port(
                    port_table(self.spec_knots()[k as int].kind),
                    port@,
                ) == Some(row as int),
                Err(e) => port_handle_fault(self.spec_knots(), self.spec_owner(), knot.spec_owner(), knot.spec_index(), port@, dir)
                    == Some(e@),
            },
    {
        if knot.owner != self.owner || knot.index as usize >= self.knots.len() {
            return Err(BuildError::ForeignHandle);
        }
        let k = &self.knots[knot.index as usize];
        match resolve_port_row(&k.kind, port) {
            None => Err(
                BuildError::UnknownPort {
                    knot_id: copy_string(&k.id),
                    port: port.to_owned(),
                    expected: port_name_list(&k.kind),
                },
            ),
            Some((row, d)) => {
                let same = match (d, dir) {
                    (PortDir::In, PortDir::In) => true,
                    (PortDir::Out, PortDir::Out) => true,
                    _ => false,
                };
                if !same {
                    Err(
                        BuildError::WrongPortDirection {
                            knot_id: copy_string(&k.id),
                            port: port.to_owned(),
                            expected: dir,
                            actual: d,
                        },
                    )
                } else {
                    proof {
                        crate::catalog::lemma_find_port(port_table(k.kind), port@);
                    }
                    Ok((knot.index, row as u8))
                }
            },
        }
    }

    /// The output port `port` of `knot`.
    pub fn output(&self, knot: &KnotRef, port: &str) -> (r: Result<OutputRef, BuildError>)
        ensures
            match r {
                Ok(o) => port_handle_fault(self.spec_knots(), self.spec_owner(), knot.spec_owner(), knot.spec_index(), port@, PortDir::Out)
                    is None && o.spec_owner() == self.spec_owner() && o.spec_knot() == knot.spec_index()
                    && find_port(port_table(self.spec_knots()[o.spec_knot() as int].kind), port@) == Some(
                    o.spec_row() as int,
                ),
                Err(e) => port_handle_fault(self.spec_knots(), self.spec_owner(), knot.spec_owner(), knot.spec_index(), port@, PortDir::Out)
                    == Some(e@),
            },
    {
        match self.port_handle(knot, port, PortDir::Out) {
            Ok((k, row)) => Ok(OutputRef { owner: self.owner, knot: k, row }),
            Err(e) => Err(e),
        }
    }

    /// The input port `port` of `knot`.
    pub fn input(&self, knot: &KnotRef, port: &str) -> (r: Result<InputRef, BuildError>)
        ensures
            match r {
                Ok(i) => port_handle_fault(self.spec_knots(), self.spec_owner(), knot.spec_owner(), knot.spec_index(), port@, PortDir::In)
                    is None && i.spec_owner() == self.spec_owner() && i.spec_knot() == knot.spec_index()
                    && find_port(port_table(self.spec_knots()[i.spec_knot() as int].kind), port@) == Some(
                    i.spec_row() as int,
                ),
                Err(e) => port_handle_fault(self.spec_knots(), self.spec_owner(), knot.spec_owner(), knot.spec_index(), port@, PortDir::In)
                    == Some(e@),
            },
    {
        match self.port_handle(knot, port, PortDir::In) {
            Ok((k, row)) => Ok(InputRef { owner: self.owner, knot: k, row }),
            Err(e) => Err(e),
        }
    }

    /// Connect an output to an input of this builder.
    pub fn connect(&mut self, from: OutputRef, to: InputRef) -> (r: Result<(), BuildError>)
        requires
            old(self).wf(),
        ensures
            final(self).wf(),
            final(self).spec_id() == old(self).spec_id(),
            final(self).spec_numeric() == old(self).spec_numeric(),
            final(self).spec_knots() == old(self).spec_knots(),
            final(self).spec_owner() == old(self).spec_owner(),
            match r {
                Ok(()) => {
                    let ks = old(self).spec_knots();
                    let t = final(self).spec_threads().last();
                    &&& from.spec_owner() == old(self).spec_owner()
                    &&& to.spec_owner() == old(self).spec_owner()
                    &&& row_ok(ks, from.spec_knot(), from.spec_row(), PortDir::Out)
                    &&& row_ok(ks, to.spec_knot(), to.spec_row(), PortDir::In)
                    &&& final(self).spec_threads().len() == old(self).spec_threads().len() + 1
                    &&& final(self).spec_threads().drop_last() == old(self).spec_threads()
                    &&& t.from.knot@ == ks[from.spec_knot() as int].id@
                    &&& t.from.port@ == port_table(ks[from.spec_knot() as int].kind)[from.spec_row() as int].name
                    &&& t.to.knot@ == ks[to.spec_knot() as int].id@
                    &&& t.to.port@ == port_table(ks[to.spec_knot() as int].kind)[to.spec_row() as int].name
                },
                Err(e) => e@ == BFault::ForeignHandle && final(self).spec_threads() == old(self).spec_threads() && !(
                from.spec_owner() == old(self).spec_owner() && to.spec_owner() == old(self).spec_owner()
                    && row_ok(old(self).spec_knots(), from.spec_knot(), from.spec_row(), PortDir::Out)
                    && row_ok(old(self).spec_knots(), to.spec_knot(), to.spec_row(), PortDir::In)),
            },
    {
        if from.owner != self.owner || to.owner != self.owner {
            return Err(BuildError::ForeignHandle);
        }
        let from_name = match self.endpoint_name(from.knot, from.row, PortDir::Out) {
            Some(n) => n,
            None => {
                return Err(BuildError::ForeignHandle);
            },
        };
        let to_name = match self.endpoint_name(to.knot, to.row, PortDir::In) {
            Some(n) => n,
            None => {
                return Err(BuildError::ForeignHandle);
            },
        };
        let t = ThreadDef {
            from: PortRefDef { knot: copy_string(&self.knots[from.knot as usize].id), port: from_name.to_owned() },
            to: PortRefDef { knot: copy_string(&self.knots[to.knot as usize].id), port: to_name.to_owned() },
        };
        self.threads.push(t);
        proof {
            assert(self.threads@.drop_last() =~= old(self).threads@);
        }
        Ok(())
    }

    /// The catalog name of row `row` of knot `knot`, when it has direction `dir`.
    fn endpoint_name(&self, knot: u16, row: u8, dir: PortDir) -> (r: Option<&'static str>)
        ensures
            match r {
                Some(n) => row_ok(self.spec_knots(), knot, row, dir) && n@ == port_table(
                    self.spec_knots()[knot as int].kind,
                )[row as int].name,
                None => !row_ok(self.spec_knots(), knot, row, dir),
            },
    {
        if knot as usize >= self.knots.len() {
            return None;
        }
        let ports = crate::catalog::ports_of(&self.knots[knot as usize].kind);
        if row as usize >= ports.len() {
            return None;
        }
        let info = ports[row as usize];
        proof {
            assert(info.spec() == port_table(self.knots@[knot as int].kind)[row as int]);
        }
        let same = match (info.dir, dir) {
            (PortDir::In, PortDir::In) => true,
            (PortDir::Out, PortDir::Out) => true,
            _ => false,
        };
        if same {
            Some(info.name)
        } else {
            None
        }
    }

    /// Record a thread between ports named by knot and port names; the
    /// names are checked when the weave is built.
    pub fn wire_named(&mut self, from_knot: &str, from_port: &str, to_knot: &str, to_port: &str)
        ensures
            final(self).spec_id() == old(self).spec_id(),
            final(self).spec_numeric() == old(self).spec_numeric(),
            final(self).spec_knots() == old(self).spec_knots(),
            final(self).spec_owner() == old(self).spec_owner(),
            final(self).spec_threads().len() == old(self).spec_threads().len() + 1,
            final(self).spec_threads().drop_last() == old(self).spec_threads(),
            final(self).spec_threads().last().from.knot@ == from_knot@,
            final(self).spec_threads().last().from.port@ == from_port@,
            final(self).spec_threads().last().to.knot@ == to_knot@,
            final(self).spec_threads().last().to.port@ == to_port@,
    {
        self.threads.push(ThreadDef { from: PortRefDef::new(from_knot, from_port), to: PortRefDef::new(to_knot, to_port) });
        proof {
            assert(self.threads@.drop_last() =~= old(self).threads@);
        }
    }

    /// Record a thread between two (knot, slot) endpoints of this builder,
    /// under the knots' ids and the slots' catalog names. A foreign or
    /// unknown knot, or a slot the kind lacks (reported with an empty port
    /// name), refuses the wire.
    pub fn wire(&mut self, from: (KnotRef, PortSlot), to: (KnotRef, PortSlot)) -> (r: Result<(), BuildError>)
        ensures
            final(self).spec_id() == old(self).spec_id(),
            final(self).spec_numeric() == old(self).spec_numeric(),
            final(self).spec_knots() == old(self).spec_knots(),
            final(self).spec_owner() == old(self).spec_owner(),
            match r {
                Ok(()) => {
                    let ks = old(self).spec_knots();
                    let t = final(self).spec_threads().last();
                    &&& slot_wire_fault(ks, old(self).spec_owner(), from, to) is None
                    &&& final(self).spec_threads().len() == old(self).spec_threads().len() + 1
                    &&& final(self).spec_threads().drop_last() == old(self).spec_threads()
                    &&& t.from.knot@ == ks[from.0.spec_index() as int].id@
                    &&& Some(t.from.port@) == slot_name(ks[from.0.spec_index() as int], from.1.0)
                    &&& t.to.knot@ == ks[to.0.spec_index() as int].id@
                    &&& Some(t.to.port@) == slot_name(ks[to.0.spec_index() as int], to.1.0)
                },
                Err(e) => final(self).spec_threads() == old(self).spec_threads() && slot_wire_fault(
                    old(self).spec_knots(),
                    old(self).spec_owner(),
                    from,
                    to,
                ) == Some(e@),
            },
    {
        if from.0.owner != self.owner || from.0.index as usize >= self.knots.len() || to.0.owner != self.owner
            || to.0.index as usize >= self.knots.len() {
            return Err(BuildError::ForeignHandle);
        }
        let fk = &self.knots[from.0.index as usize];
        let tk = &self.knots[to.0.index as usize];
        let from_name = match slot_port_name(&fk.kind, from.1) {
            Some(n) => n,
            None => {
                return Err(
                    BuildError::UnknownPort {
                        knot_id: copy_string(&fk.id),
                        port: String::new(),
                        expected: port_name_list(&fk.kind),
                    },
                );
            },
        };
        let to_name = match slot_port_name(&tk.kind, to.1) {
            Some(n) => n,
            None => {
                return Err(
                    BuildError::UnknownPort {
                        knot_id: copy_string(&tk.id),
                        port: String::new(),
                        expected: port_name_list(&tk.kind),
                    },
                );
            },
        };
        let t = ThreadDef {
            from: PortRefDef { knot: copy_string(&fk.id), port: from_name.to_owned() },
            to: PortRefDef { knot: copy_string(&tk.id), port: to_name.to_owned() },
        };
        self.threads.push(t);
        proof {
            assert(self.threads@.drop_last() =~= old(self).threads@);
        }
        Ok(())
    }

    /// Add a two-input `And` knot `id` fed by slot 0 of `a` into `in_0` and
    /// slot 0 of `b` into `in_1`.
    pub fn and2(&mut self, id: &str, a: &KnotRef, b: &KnotRef) -> (r: Result<KnotRef, BuildError>)
        requires
            old(self).wf(),
        ensures
            final(self).wf(),
            final(self).spec_id() == old(self).spec_id(),
            final(self).spec_numeric() == old(self).spec_numeric(),
            final(self).spec_owner() == old(self).spec_owner(),
            match r {
                Ok(k) => {
                    let ks = final(self).spec_knots();
                    let ts = final(self).spec_threads();
                    let n0 = old(self).spec_threads().len();
                    &&& ks.drop_last() == old(self).spec_knots()
                    &&& ks.last().id@ == id@ && ks.last().kind == (KnotKind::And { arity: 2 })
                    &&& k.spec_owner() == old(self).spec_owner() && k.spec_index() == old(self).spec_knots().len()
                    &&& ts.len() == n0 + 2
                    &&& ts.subrange(0, n0 as int) == old(self).spec_threads()
                    &&& ts[n0 as int].from.knot@ == ks[a.spec_index() as int].id@
                    &&& Some(ts[n0 as int].from.port@) == slot_name(ks[a.spec_index() as int], 0)
                    &&& ts[n0 as int].to.knot@ == id@ && ts[n0 as int].to.port@ == "in_0"@
                    &&& ts[n0 + 1int].from.knot@ == ks[b.spec_index() as int].id@
                    &&& Some(ts[n0 + 1int].from.port@) == slot_name(ks[b.spec_index() as int], 0)
                    &&& ts[n0 + 1int].to.knot@ == id@ && ts[n0 + 1int].to.port@ == "in_1"@
                },
                Err(e) => match knot_refusal(old(self).spec_knots(), id@) {
                    Some(f) => e@ == f && final(self).spec_knots() == old(self).spec_knots(),
                    None => {
                        let ks = final(self).spec_knots();
                        &&& ks.drop_last() == old(self).spec_knots()
                        &&& if slot_fault(ks, old(self).spec_owner(), *a, 0) is Some {
                            slot_fault(ks, old(self).spec_owner(), *a, 0) == Some(e@)
                        } else {
                            slot_fault(ks, old(self).spec_owner(), *b, 0) == Some(e@)
                        }
                    },
                },
            },
    {
        let k = match self.knot(id, KnotKind::and2()) {
            Ok(k) => k,
            Err(e) => {
                return Err(e);
            },
        };
        let ghost ks = self.spec_knots();
        let ghost t0 = self.spec_threads();
        proof {
            reveal_strlit("in_0");
            reveal_strlit("in_1");
            assert(ks.last().kind == (KnotKind::And { arity: 2 }));
            assert(find_slot_from(port_table(ks.last().kind), 0, 0) == Some(0int));
            assert(find_slot_from(port_table(ks.last().kind), 1, 1) == Some(1int));
            assert(find_slot_from(port_table(ks.last().kind), 1, 0) == Some(1int));
        }
        match self.wire((*a, PortSlot(0)), (k, PortSlot(0))) {
            Ok(()) => {},
            Err(e) => {
                return Err(e);
            },
        }
        let ghost t1 = self.spec_threads();
        match self.wire((*b, PortSlot(0)), (k, PortSlot(1))) {
            Ok(()) => {},
            Err(e) => {
                return Err(e);
            },
        }
        proof {
            let ts = self.spec_threads();
            assert(ts.subrange(0, t0.len() as int) =~= t0);
            assert(ts[t0.len() as int] == t1.last());
        }
        Ok(k)
    }

    /// The definition recorded so far.
    pub fn to_def(&self) -> (d: WeaveDef)
        ensures
            d.id@ == self.spec_id(),
            d.numeric == self.spec_numeric(),
            d.knots@ == self.spec_knots(),
            d.threads@ == self.spec_threads(),
    {
        WeaveDef {
            id: copy_string(&self.id),
            numeric: self.numeric,
            knots: copy_knots(&self.knots),
            threads: copy_threads(&self.threads),
        }
    }

    /// Validate the recorded graph into a [`Weave`].
    pub fn build(self) -> (r: Result<Weave, ValidationError>)
        ensures
            match r {
                Ok(w) => structural_fault(self.spec_id(), self.spec_numeric(), self.spec_knots(), self.spec_threads())
                    is None && w.spec_id() == self.spec_id() && w.spec_numeric() == self.spec_numeric()
                    && w.spec_knots() == self.spec_knots() && w.spec_threads() == self.spec_threads(),
                Err(e) => structural_fault(self.spec_id(), self.spec_numeric(), self.spec_knots(), self.spec_threads())
                    == Some(e@),
            },
    {
        Weave::try_from_def(WeaveDef { id: self.id, numeric: self.numeric, knots: self.knots, threads: self.threads })
    }
}

impl Weave {
    /// Start a [`WeaveBuilder`] for the weave `id`.
    pub fn builder(id: &str) -> (r: Result<WeaveBuilder, BuildError>)
        ensures
            match r {
                Ok(b) => id@.len() > 0 && b.wf() && b.spec_id() == id@ && b.spec_numeric()
                    == NumericPath::spec_compiled() && b.spec_knots().len() == 0 && b.spec_threads().len() == 0,
                Err(e) => id@.len() == 0 && e@ == BFault::InvalidId { id: id@, reason: "weave ids must be non-empty"@ },
            },
    {
        WeaveBuilder::new(id)
    }
}

/// The slot of the port `name` of `kind`; an unknown name is reported with
/// the placeholder knot id `<kind>` and the kind's port names.
pub fn slot_of(kind: &KnotKind, name: &str) -> (r: Result<PortSlot, BuildError>)
    ensures
        match r {
            Ok(s) => spec_port_slot(*kind, name@) == Some(s.0),
            Err(e) => spec_port_slot(*kind, name@) is None && e@ == (BFault::UnknownPort {
                knot_id: "<kind>"@,
                port: name@,
                expected: port_names(port_table(*kind)),
            }),
        },
{
    match port_slot(kind, name) {
        Some(s) => Ok(s),
        None => {
            let expected = port_name_list(kind);
            let knot_id = "<kind>".to_owned();
            proof {
                reveal_strlit("<kind>");
            }
            Err(BuildError::UnknownPort { knot_id, port: name.to_owned(), expected })
        },
    }
}

} // verus!
