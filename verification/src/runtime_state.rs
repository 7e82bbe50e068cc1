//! Durable continuation checkpoints of a [`Runtime`], named initial values
//! (presets), and read-only state reports.
//!
//! A checkpoint holds the mutable knot state and the held senses, never the
//! outbox: restoring resumes stateful memory with an empty outbox, so a host
//! never applies one frame's effects twice.

use vstd::prelude::*;

use crate::fingerprint::spec_fingerprint_of;

use crate::catalog::{KnotKind, NumericPath, SignalDomain};
use crate::outbox::{domain_value_is_valid, spec_domain_value_is_valid};
use crate::kind_tag::KindTag;
use crate::outbox::{Emit, SignalOutSample};
use crate::runtime::{bind_refused, bound_from, fresh_state, sense_ok, tag_refines, timer_ok, BindOpts, Runtime, MAX_PORTS};
use crate::runtime_error::{BindError, BindRestoreError, PresetError, RestoreError};
use crate::signal::Signal;
use crate::order::{is_key_order, key_order, key_views};
use crate::text::{copy_string, string_eq};
use crate::validate::{find_knot, find_knot_index};
use crate::weave::{KnotDef, Weave};

verus! {

/// Current checkpoint format version.
pub const RUNTIME_STATE_FORMAT_VERSION: u32 = 2;

/// The phase a runtime is in after a settle; checkpoints are taken there.
pub const SETTLED_PHASE: u8 = 2;

/// The mutable part of a runtime.
#[derive(Clone, Debug)]
pub struct RuntimeStateData {
    pub sense_values: Vec<Signal>,
    pub port_vals: Vec<Signal>,
    pub prev_in: Vec<Signal>,
    pub prev_dec: Vec<Signal>,
    pub counter: Vec<i32>,
    pub flag: Vec<bool>,
    pub timer_left: Vec<u16>,
    pub on_start_done: Vec<bool>,
    pub delay_buf: Vec<Signal>,
    pub delay_head: Vec<u16>,
    pub tick: u64,
    pub phase: u8,
    pub rng: u64,
}

/// A versioned checkpoint of a runtime's mutable state.
#[derive(Clone, Debug)]
pub struct RuntimeState {
    pub version: u32,
    pub numeric_path: NumericPath,
    pub fingerprint: u64,
    pub data: RuntimeStateData,
}

impl RuntimeState {
    /// Checkpoint format version.
    pub fn format_version(&self) -> (v: u32)
        ensures
            v == self.version,
    {
        self.version
    }

    /// Fingerprint of the runtime shape this checkpoint requires.
    pub fn fingerprint(&self) -> (v: u64)
        ensures
            v == self.fingerprint,
    {
        self.fingerprint
    }

    /// Numeric representation of the checkpoint.
    pub fn numeric_path(&self) -> (v: NumericPath)
        ensures
            v == self.numeric_path,
    {
        self.numeric_path
    }
}

/// A copy of a vector of plain values.
pub fn copy_vec<T: Copy>(v: &Vec<T>) -> (r: Vec<T>)
    ensures
        r@ == v@,
{
    let mut r: Vec<T> = Vec::new();
    let mut i: usize = 0;
    while i < v.len()
        invariant
            i <= v@.len(),
            r@ == v@.subrange(0, i as int),
        decreases v@.len() - i,
    {
        r.push(v[i]);
        i = i + 1;
    }
    assert(r@ =~= v@);
    r
}

/// `data` holds exactly the mutable state of `rt`.
pub open(crate) spec fn holds_state_of(data: RuntimeStateData, rt: Runtime) -> bool {
    &&& data.sense_values@ == rt.sense_values@
    &&& data.port_vals@ == rt.port_vals@
    &&& data.prev_in@ == rt.prev_in@
    &&& data.prev_dec@ == rt.prev_dec@
    &&& data.counter@ == rt.counter@
    &&& data.flag@ == rt.flag@
    &&& data.timer_left@ == rt.timer_left@
    &&& data.on_start_done@ == rt.on_start_done@
    &&& data.delay_buf@ == rt.delay_buf@
    &&& data.delay_head@ == rt.delay_head@
    &&& data.tick == rt.tick
    &&& data.phase == rt.phase
    &&& data.rng == rt.rng
}

/// A checkpoint failure as a mathematical value.
pub enum RFault {
    UnsupportedVersion { found: u32, supported: u32 },
    NumericPathMismatch { expected: NumericPath, found: NumericPath },
    InvalidPhase { found: u8 },
    FingerprintMismatch { expected: u64, found: u64 },
    ShapeMismatch { field: Seq<char>, expected: nat, found: nat },
    InvalidRng,
    InvalidTimer { knot: nat, remaining: u16, max: u16 },
    InvalidDelayHead { knot: nat, head: u16, len: u16 },
    InvalidSignal { field: Seq<char>, knot: nat, domain: SignalDomain },
}

impl View for RestoreError {
    type V = RFault;

    open spec fn view(&self) -> RFault {
        match *self {
            RestoreError::UnsupportedVersion { found, supported } => RFault::UnsupportedVersion { found, supported },
            RestoreError::NumericPathMismatch { expected, found } => RFault::NumericPathMismatch { expected, found },
            RestoreError::InvalidPhase { found } => RFault::InvalidPhase { found },
            RestoreError::FingerprintMismatch { expected, found } => RFault::FingerprintMismatch { expected, found },
            RestoreError::ShapeMismatch { field, expected, found } => RFault::ShapeMismatch {
                field: field@,
                expected: expected as nat,
                found: found as nat,
            },
            RestoreError::InvalidRng => RFault::InvalidRng,
            RestoreError::InvalidTimer { knot, remaining, max } => RFault::InvalidTimer { knot: knot as nat, remaining, max },
            RestoreError::InvalidDelayHead { knot, head, len } => RFault::InvalidDelayHead { knot: knot as nat, head, len },
            RestoreError::InvalidSignal { field, knot, domain } => RFault::InvalidSignal {
                field: field@,
                knot: knot as nat,
                domain,
            },
        }
    }
}

/// The per-knot fault of a checkpoint at knot `k`.
pub open(crate) spec fn knot_state_fault(ks: Seq<KnotDef>, d: RuntimeStateData, k: int) -> Option<RFault> {
    match ks[k].kind {
        KnotKind::Timer { ticks, .. } => if d.timer_left@[k] > ticks {
            Some(RFault::InvalidTimer { knot: k as nat, remaining: d.timer_left@[k], max: ticks })
        } else {
            None
        },
        KnotKind::Delay { ticks } => if (ticks == 0 && d.delay_head@[k] != 0) || (ticks > 0 && d.delay_head@[k] >= ticks) {
            Some(RFault::InvalidDelayHead { knot: k as nat, head: d.delay_head@[k], len: ticks })
        } else {
            None
        },
        KnotKind::SignalIn { domain } => if !spec_domain_value_is_valid(domain, d.sense_values@[k]) {
            Some(RFault::InvalidSignal { field: "sense_values"@, knot: k as nat, domain })
        } else {
            None
        },
        _ => None,
    }
}

/// The first per-knot fault at or after knot `k`.
pub open(crate) spec fn scan_state(ks: Seq<KnotDef>, d: RuntimeStateData, k: int) -> Option<RFault>
    decreases ks.len() - k,
{
    if k < 0 || k >= ks.len() {
        None
    } else if knot_state_fault(ks, d, k) is Some {
        knot_state_fault(ks, d, k)
    } else {
        scan_state(ks, d, k + 1)
    }
}

/// A length mismatch of one checkpoint buffer.
pub open(crate) spec fn shape(field: Seq<char>, expected: nat, found: nat) -> Option<RFault> {
    if expected == found {
        None
    } else {
        Some(RFault::ShapeMismatch { field, expected, found })
    }
}

/// `a` if it is a fault, else `b`: the first of two checks that fails.
pub open(crate) spec fn first_fault(a: Option<RFault>, b: Option<RFault>) -> Option<RFault> {
    if a is Some {
        a
    } else {
        b
    }
}

/// The first checkpoint buffer whose length differs from the runtime's own,
/// in field order.
pub open(crate) spec fn shape_fault(rt: Runtime, d: RuntimeStateData) -> Option<RFault> {
    first_fault(shape("sense_values"@, rt.sense_values@.len(), d.sense_values@.len()),
    first_fault(shape("port_vals"@, rt.port_vals@.len(), d.port_vals@.len()),
    first_fault(shape("prev_in"@, rt.prev_in@.len(), d.prev_in@.len()),
    first_fault(shape("prev_dec"@, rt.prev_dec@.len(), d.prev_dec@.len()),
    first_fault(shape("counter"@, rt.counter@.len(), d.counter@.len()),
    first_fault(shape("flag"@, rt.flag@.len(), d.flag@.len()),
    first_fault(shape("timer_left"@, rt.timer_left@.len(), d.timer_left@.len()),
    first_fault(shape("on_start_done"@, rt.on_start_done@.len(), d.on_start_done@.len()),
    first_fault(shape("delay_buf"@, rt.delay_buf@.len(), d.delay_buf@.len()),
    shape("delay_head"@, rt.delay_head@.len(), d.delay_head@.len()))))))))))
}

/// The first reason `rt` cannot resume from `st`, in checking order:
/// version, numeric path, settled phase, fingerprint, buffer shapes, random
/// stream, then per-knot timer, delay-head and held-sense values.
pub open(crate) spec fn restore_fault(rt: Runtime, st: RuntimeState) -> Option<RFault> {
    let d = st.data;
    if st.version != RUNTIME_STATE_FORMAT_VERSION {
        Some(RFault::UnsupportedVersion { found: st.version, supported: RUNTIME_STATE_FORMAT_VERSION })
    } else if st.numeric_path != NumericPath::spec_compiled() {
        Some(RFault::NumericPathMismatch { expected: NumericPath::spec_compiled(), found: st.numeric_path })
    } else if d.phase != SETTLED_PHASE {
        Some(RFault::InvalidPhase { found: d.phase })
    } else if st.fingerprint != rt.fingerprint {
        Some(RFault::FingerprintMismatch { expected: rt.fingerprint, found: st.fingerprint })
    } else if shape_fault(rt, d) is Some {
        shape_fault(rt, d)
    } else if d.rng == 0 {
        Some(RFault::InvalidRng)
    } else {
        scan_state(rt.knots@, d, 0)
    }
}

proof fn lemma_scan_state_none(ks: Seq<KnotDef>, d: RuntimeStateData, i: int)
    requires
        0 <= i,
        scan_state(ks, d, i) is None,
    ensures
        forall|k: int| i <= k < ks.len() ==> #[trigger] knot_state_fault(ks, d, k) is None,
    decreases ks.len() - i,
{
    if i < ks.len() {
        lemma_scan_state_none(ks, d, i + 1);
    }
}

fn check_len(field: &'static str, expected: usize, found: usize) -> (r: Result<(), RestoreError>)
    ensures
        match r {
            Ok(()) => shape(field@, expected as nat, found as nat) is None,
            Err(e) => shape(field@, expected as nat, found as nat) == Some(e@),
        },
{
    if expected == found {
        Ok(())
    } else {
        Err(RestoreError::ShapeMismatch { field, expected, found })
    }
}

impl Runtime {
    /// Format version emitted by [`Runtime::snapshot`].
    pub fn state_format_version() -> (v: u32)
        ensures
            v == RUNTIME_STATE_FORMAT_VERSION,
    {
        RUNTIME_STATE_FORMAT_VERSION
    }

    /// Deterministic fingerprint of this runtime's immutable shape.
    pub fn runtime_fingerprint(&self) -> (v: u64)
        ensures
            v == self.spec_fingerprint(),
            self.wf() ==> v == spec_fingerprint_of(
                self.spec_knots(),
                self.spec_threads(),
                self.spec_path_names(),
                self.spec_cmd_names(),
                self.spec_max_emits(),
                self.spec_seed_mix(),
                self.spec_bind_seed(),
            ),
    {
        self.fingerprint
    }

    /// The checkpoint buffers have exactly this runtime's lengths.
    fn validate_snapshot_shapes(&self, d: &RuntimeStateData) -> (r: Result<(), RestoreError>)
        ensures
            match r {
                Ok(()) => shape_fault(*self, *d) is None,
                Err(e) => shape_fault(*self, *d) == Some(e@),
            },
    {
        match check_len("sense_values", self.sense_values.len(), d.sense_values.len()) { Err(e) => { return Err(e); }, Ok(()) => {} }
        match check_len("port_vals", self.port_vals.len(), d.port_vals.len()) { Err(e) => { return Err(e); }, Ok(()) => {} }
        match check_len("prev_in", self.prev_in.len(), d.prev_in.len()) { Err(e) => { return Err(e); }, Ok(()) => {} }
        match check_len("prev_dec", self.prev_dec.len(), d.prev_dec.len()) { Err(e) => { return Err(e); }, Ok(()) => {} }
        match check_len("counter", self.counter.len(), d.counter.len()) { Err(e) => { return Err(e); }, Ok(()) => {} }
        match check_len("flag", self.flag.len(), d.flag.len()) { Err(e) => { return Err(e); }, Ok(()) => {} }
        match check_len("timer_left", self.timer_left.len(), d.timer_left.len()) { Err(e) => { return Err(e); }, Ok(()) => {} }
        match check_len("on_start_done", self.on_start_done.len(), d.on_start_done.len()) { Err(e) => { return Err(e); }, Ok(()) => {} }
        match check_len("delay_buf", self.delay_buf.len(), d.delay_buf.len()) { Err(e) => { return Err(e); }, Ok(()) => {} }
        check_len("delay_head", self.delay_head.len(), d.delay_head.len())
    }

    /// The per-knot values of a checkpoint fit this runtime's knots.
    fn validate_knot_state(&self, d: &RuntimeStateData) -> (r: Result<(), RestoreError>)
        requires
            self.wf(),
            shape_fault(*self, *d) is None,
        ensures
            match r {
                Ok(()) => scan_state(self.knots@, *d, 0) is None,
                Err(e) => scan_state(self.knots@, *d, 0) == Some(e@),
            },
    {
        let n = self.knots.len();
        let mut k: usize = 0;
        while k < n
            invariant
                self.wf(),
                n == self.knots@.len(),
                k <= n,
                d.sense_values@.len() == n,
                d.timer_left@.len() == n,
                d.delay_head@.len() == n,
                scan_state(self.knots@, *d, 0) == scan_state(self.knots@, *d, k as int),
            decreases n - k,
        {
            match &self.knots[k].kind {
                KnotKind::Timer { ticks, .. } => {
                    let remaining = d.timer_left[k];
                    if remaining > *ticks {
                        return Err(RestoreError::InvalidTimer { knot: k, remaining, max: *ticks });
                    }
                },
                KnotKind::Delay { ticks } => {
                    let head = d.delay_head[k];
                    if (*ticks == 0 && head != 0) || (*ticks > 0 && head >= *ticks) {
                        return Err(RestoreError::InvalidDelayHead { knot: k, head, len: *ticks });
                    }
                },
                KnotKind::SignalIn { domain } => {
                    if !domain_value_is_valid(*domain, d.sense_values[k]) {
                        return Err(RestoreError::InvalidSignal { field: "sense_values", knot: k, domain: *domain });
                    }
                },
                _ => {},
            }
            k = k + 1;
        }
        Ok(())
    }

    /// Check that this runtime can resume from `state`.
    pub fn validate_checkpoint(&self, state: &RuntimeState) -> (r: Result<(), RestoreError>)
        requires
            self.wf(),
        ensures
            match r {
                Ok(()) => restore_fault(*self, *state) is None,
                Err(e) => restore_fault(*self, *state) == Some(e@),
            },
    {
        if state.version != RUNTIME_STATE_FORMAT_VERSION {
            return Err(RestoreError::UnsupportedVersion { found: state.version, supported: RUNTIME_STATE_FORMAT_VERSION });
        }
        let compiled = NumericPath::compiled();
        if !numeric_path_eq(state.numeric_path, compiled) {
            return Err(RestoreError::NumericPathMismatch { expected: compiled, found: state.numeric_path });
        }
        if state.data.phase != SETTLED_PHASE {
            return Err(RestoreError::InvalidPhase { found: state.data.phase });
        }
        let expected = self.runtime_fingerprint();
        if state.fingerprint != expected {
            return Err(RestoreError::FingerprintMismatch { expected, found: state.fingerprint });
        }
        match self.validate_snapshot_shapes(&state.data) {
            Err(e) => {
                return Err(e);
            },
            Ok(()) => {},
        }
        if state.data.rng == 0 {
            return Err(RestoreError::InvalidRng);
        }
        self.validate_knot_state(&state.data)
    }
}

impl Runtime {
    /// A checkpoint of every mutable value needed for deterministic
    /// continuation; the outbox is not part of it.
    pub fn snapshot(&self) -> (st: RuntimeState)
        ensures
            snapshot_of(st, *self),
    {
        let mut st = RuntimeState {
            version: 0,
            numeric_path: NumericPath::compiled(),
            fingerprint: 0,
            data: RuntimeStateData {
                sense_values: Vec::new(),
                port_vals: Vec::new(),
                prev_in: Vec::new(),
                prev_dec: Vec::new(),
                counter: Vec::new(),
                flag: Vec::new(),
                timer_left: Vec::new(),
                on_start_done: Vec::new(),
                delay_buf: Vec::new(),
                delay_head: Vec::new(),
                tick: 0,
                phase: 0,
                rng: 0,
            },
        };
        self.snapshot_into(&mut st);
        st
    }

    /// Overwrite every field of `state` with a checkpoint of this runtime.
    pub fn snapshot_into(&self, state: &mut RuntimeState)
        ensures
            snapshot_of(*final(state), *self),
    {
        state.version = RUNTIME_STATE_FORMAT_VERSION;
        state.numeric_path = NumericPath::compiled();
        state.fingerprint = self.runtime_fingerprint();
        state.data.sense_values = copy_vec(&self.sense_values);
        state.data.port_vals = copy_vec(&self.port_vals);
        state.data.prev_in = copy_vec(&self.prev_in);
        state.data.prev_dec = copy_vec(&self.prev_dec);
        state.data.counter = copy_vec(&self.counter);
        state.data.flag = copy_vec(&self.flag);
        state.data.timer_left = copy_vec(&self.timer_left);
        state.data.on_start_done = copy_vec(&self.on_start_done);
        state.data.delay_buf = copy_vec(&self.delay_buf);
        state.data.delay_head = copy_vec(&self.delay_head);
        state.data.tick = self.tick;
        state.data.phase = self.phase;
        state.data.rng = self.rng;
    }

    /// Resume from a compatible checkpoint. Every check runs before any field
    /// is assigned, so a rejected checkpoint leaves the runtime unchanged; an
    /// accepted one leaves the outbox empty.
    pub fn restore(&mut self, state: &RuntimeState) -> (r: Result<(), RestoreError>)
        requires
            old(self).wf(),
        ensures
            final(self).wf(),
            match r {
                Ok(()) => {
                    &&& restore_fault(*old(self), *state) is None
                    &&& restored_from(*final(self), *old(self), *state)
                },
                Err(e) => restore_fault(*old(self), *state) == Some(e@) && *final(self) == *old(self),
            },
    {
        match self.validate_checkpoint(state) {
            Err(e) => {
                return Err(e);
            },
            Ok(()) => {},
        }
        let ghost d = state.data;
        proof {
            lemma_scan_state_none(self.knots@, d, 0);
        }
        self.sense_values = copy_vec(&state.data.sense_values);
        self.port_vals = copy_vec(&state.data.port_vals);
        self.prev_in = copy_vec(&state.data.prev_in);
        self.prev_dec = copy_vec(&state.data.prev_dec);
        self.counter = copy_vec(&state.data.counter);
        self.flag = copy_vec(&state.data.flag);
        self.timer_left = copy_vec(&state.data.timer_left);
        self.on_start_done = copy_vec(&state.data.on_start_done);
        self.delay_buf = copy_vec(&state.data.delay_buf);
        self.delay_head = copy_vec(&state.data.delay_head);
        self.out_signals.clear();
        self.out_emits.clear();
        self.dropped_emits = 0;
        self.tick = state.data.tick;
        self.phase = state.data.phase;
        self.rng = state.data.rng;
        proof {
            let n = self.knots@.len() as int;
            assert forall|i: int| 0 <= i < n implies timer_ok(#[trigger] self.tags@[i], self.timer_left@[i]) by {
                assert(knot_state_fault(self.knots@, d, i) is None);
                assert(tag_refines(self.tags@[i], self.knots@[i].kind, self.inbound@[i]@));
            }
            assert forall|i: int| 0 <= i < n implies sense_ok((#[trigger] self.knots@[i]).kind, self.sense_values@[i]) by {
                assert(knot_state_fault(self.knots@, d, i) is None);
            }
            assert forall|i: int| 0 <= i < n implies match #[trigger] self.tags@[i] {
                KindTag::Delay { ticks } => (ticks > 0 ==> self.delay_len@[i] == ticks && self.delay_off@[i] + ticks
                    <= self.delay_buf@.len() && self.delay_head@[i] < ticks) && (ticks == 0 ==> self.delay_head@[i] == 0),
                _ => true,
            } by {
                assert(knot_state_fault(self.knots@, d, i) is None);
                assert(tag_refines(self.tags@[i], self.knots@[i].kind, self.inbound@[i]@));
            }
        }
        Ok(())
    }

    /// Bind a fresh runtime for `weave` and resume it from `state`.
    pub fn bind_restored(weave: Weave, opts: BindOpts, state: &RuntimeState) -> (r: Result<Runtime, BindRestoreError>)
        ensures
            match r {
                Ok(rt) => exists|rt0: Runtime| {
                    &&& bound_from(rt0, weave, opts)
                    &&& restore_fault(rt0, *state) is None
                    &&& restored_from(rt, rt0, *state)
                },
                Err(BindRestoreError::Bind(e)) => bind_refused(weave, opts, *e),
                Err(BindRestoreError::Restore(e)) => exists|rt: Runtime| bound_from(rt, weave, opts) && restore_fault(rt, *state) == Some(e@),
            },
    {
        let mut rt = match Runtime::bind(weave, opts) {
            Ok(rt) => rt,
            Err(e) => {
                return Err(BindRestoreError::Bind(Box::new(e)));
            },
        };
        let ghost rt0 = rt;
        match rt.restore(state) {
            Ok(()) => {
                assert(restored_from(rt, rt0, *state));
                Ok(rt)
            },
            Err(e) => Err(BindRestoreError::Restore(e)),
        }
    }
}

/// `rt` is `rt0` after a successful restore of `st`: the same tables, the
/// checkpoint's state, and an empty outbox.
pub open(crate) spec fn restored_from(rt: Runtime, rt0: Runtime, st: RuntimeState) -> bool {
    &&& rt.wf()
    &&& rt.same_tables(&rt0)
    &&& holds_state_of(st.data, rt)
    &&& rt.spec_outbox() == (Seq::<SignalOutSample>::empty(), Seq::<Emit>::empty(), 0usize)
}

/// `st` is a checkpoint of `rt`.
pub open(crate) spec fn snapshot_of(st: RuntimeState, rt: Runtime) -> bool {
    &&& st.version == RUNTIME_STATE_FORMAT_VERSION
    &&& st.numeric_path == NumericPath::spec_compiled()
    &&& st.fingerprint == rt.fingerprint
    &&& holds_state_of(st.data, rt)
}

/// One authored-name state entry of a [`RuntimeStateReport`].
#[derive(Clone, Debug, PartialEq)]
pub enum RuntimeStateEntry {
    /// A held `SignalIn` value.
    Sense { knot: String, value: Signal },
    /// A `Flag` latch.
    Flag { knot: String, value: bool },
    /// A `Counter`'s count.
    Counter { knot: String, value: i32 },
    /// A `Timer`'s remaining ticks.
    Timer { knot: String, remaining: u16 },
    /// A `Delay` ring: its length, head, and contents in output order.
    Delay { knot: String, len: u16, head: u16, values: Vec<Signal> },
    /// An edge detector's previous input.
    Edge { knot: String, previous: Signal },
    /// Whether an `OnStart` pulse has fired.
    OnStart { knot: String, completed: bool },
    /// A `Random` knot's last sample; the stream position stays opaque.
    Random { knot: String, last_sample: Signal, stream_is_opaque: bool },
}

/// A [`RuntimeStateEntry`] as a mathematical value.
pub enum EntryView {
    Sense { knot: Seq<char>, value: Signal },
    Flag { knot: Seq<char>, value: bool },
    Counter { knot: Seq<char>, value: i32 },
    Timer { knot: Seq<char>, remaining: u16 },
    Delay { knot: Seq<char>, len: u16, head: u16, values: Seq<Signal> },
    Edge { knot: Seq<char>, previous: Signal },
    OnStart { knot: Seq<char>, completed: bool },
    Random { knot: Seq<char>, last_sample: Signal, stream_is_opaque: bool },
}

impl View for RuntimeStateEntry {
    type V = EntryView;

    open spec fn view(&self) -> EntryView {
        match self {
            RuntimeStateEntry::Sense { knot, value } => EntryView::Sense { knot: knot@, value: *value },
            RuntimeStateEntry::Flag { knot, value } => EntryView::Flag { knot: knot@, value: *value },
            RuntimeStateEntry::Counter { knot, value } => EntryView::Counter { knot: knot@, value: *value },
            RuntimeStateEntry::Timer { knot, remaining } => EntryView::Timer { knot: knot@, remaining: *remaining },
            RuntimeStateEntry::Delay { knot, len, head, values } => EntryView::Delay {
                knot: knot@,
                len: *len,
                head: *head,
                values: values@,
            },
            RuntimeStateEntry::Edge { knot, previous } => EntryView::Edge { knot: knot@, previous: *previous },
            RuntimeStateEntry::OnStart { knot, completed } => EntryView::OnStart { knot: knot@, completed: *completed },
            RuntimeStateEntry::Random { knot, last_sample, stream_is_opaque } => EntryView::Random {
                knot: knot@,
                last_sample: *last_sample,
                stream_is_opaque: *stream_is_opaque,
            },
        }
    }
}

/// A read-only report of a runtime's or checkpoint's state.
#[derive(Clone, Debug, PartialEq)]
pub struct RuntimeStateReport {
    pub version: u32,
    pub numeric_path: NumericPath,
    pub fingerprint: u64,
    pub tick: u64,
    /// State entries in knot-name order.
    pub entries: Vec<RuntimeStateEntry>,
}

/// The contents of a delay ring at offset `off` with head `head`, oldest
/// first.
pub open spec fn ring_values(buf: Seq<Signal>, off: int, len: int, head: int) -> Seq<Signal> {
    Seq::new(len as nat, |m: int| buf[off + (head + m) % len])
}

/// The report entry of knot `k` when its state is `d`, if it has state.
pub open(crate) spec fn entry_of(rt: Runtime, d: StateSeqs, k: int) -> Option<EntryView> {
    let name = rt.knots@[k].id@;
    match rt.knots@[k].kind {
        KnotKind::SignalIn { .. } => Some(EntryView::Sense { knot: name, value: d.sense_values[k] }),
        KnotKind::Flag { .. } => Some(EntryView::Flag { knot: name, value: d.flag[k] }),
        KnotKind::Counter => Some(EntryView::Counter { knot: name, value: d.counter[k] }),
        KnotKind::Timer { .. } => Some(EntryView::Timer { knot: name, remaining: d.timer_left[k] }),
        KnotKind::Delay { ticks } => Some(EntryView::Delay {
            knot: name,
            len: ticks,
            head: d.delay_head[k],
            values: ring_values(d.delay_buf, rt.delay_off@[k] as int, ticks as int, d.delay_head[k] as int),
        }),
        KnotKind::OnStart => Some(EntryView::OnStart { knot: name, completed: d.on_start_done[k] }),
        KnotKind::Random { .. } => Some(EntryView::Random { knot: name, last_sample: d.counter[k], stream_is_opaque: true }),
        KnotKind::RisingFromZero | KnotKind::FallingToZero | KnotKind::Change => Some(
            EntryView::Edge { knot: name, previous: d.prev_in[k] },
        ),
        _ => None,
    }
}

/// The report entries of the knots `ord[0..m]`, in that order.
pub open(crate) spec fn entries_along(rt: Runtime, d: StateSeqs, ord: Seq<usize>, m: int) -> Seq<EntryView>
    decreases m,
{
    if m <= 0 {
        Seq::empty()
    } else {
        match entry_of(rt, d, ord[m - 1] as int) {
            Some(e) => entries_along(rt, d, ord, m - 1).push(e),
            None => entries_along(rt, d, ord, m - 1),
        }
    }
}

/// Sort keys of knots: their ids.
pub open spec fn knot_keys(ks: Seq<KnotDef>) -> Seq<(Seq<char>, Seq<char>)> {
    ks.map_values(|k: KnotDef| (k.id@, Seq::<char>::empty()))
}

/// `es` are the report entries of `rt` with state `d`, in knot-name order.
pub open(crate) spec fn report_entries(rt: Runtime, d: StateSeqs, es: Seq<EntryView>) -> bool {
    exists|ord: Seq<usize>| is_key_order(knot_keys(rt.knots@), ord) && es == entries_along(rt, d, ord, ord.len() as int)
}

/// The views of a list of report entries.
pub open spec fn entry_views(es: Seq<RuntimeStateEntry>) -> Seq<EntryView> {
    es.map_values(|e: RuntimeStateEntry| e@)
}

/// `d` fits the shape of `rt` and its delay heads lie inside their rings.
pub open(crate) spec fn data_fits(rt: Runtime, d: RuntimeStateData) -> bool {
    &&& shape_fault(rt, d) is None
    &&& forall|k: int| 0 <= k < rt.knots@.len() ==> match (#[trigger] rt.knots@[k]).kind {
        KnotKind::Delay { ticks } => ticks > 0 ==> d.delay_head@[k] < ticks,
        _ => true,
    }
}

impl Runtime {
    fn inspect_data(&self, version: u32, numeric_path: NumericPath, fingerprint: u64, d: &RuntimeStateData) -> (r: RuntimeStateReport)
        requires
            self.wf(),
            data_fits(*self, *d),
        ensures
            r.version == version,
            r.numeric_path == numeric_path,
            r.fingerprint == fingerprint,
            r.tick == d.tick,
            report_entries(*self, data_seqs(*d), entry_views(r.entries@)),
    {
        let n = self.knots.len();
        let mut keys: Vec<(String, String)> = Vec::new();
        let mut q: usize = 0;
        while q < n
            invariant
                n == self.knots@.len(),
                q <= n,
                key_views(keys@) == knot_keys(self.knots@.subrange(0, q as int)),
            decreases n - q,
        {
            let ghost before = keys@;
            let key = (copy_string(&self.knots[q].id), String::new());
            let ghost kv = (key.0@, key.1@);
            keys.push(key);
            proof {
                assert(key_views(keys@) =~= key_views(before).push(kv));
                assert(knot_keys(self.knots@.subrange(0, q + 1)) =~= knot_keys(self.knots@.subrange(0, q as int)).push(kv));
            }
            q = q + 1;
        }
        assert(self.knots@.subrange(0, n as int) =~= self.knots@);
        let ord = key_order(&keys);
        let mut entries: Vec<RuntimeStateEntry> = Vec::new();
        let mut m: usize = 0;
        while m < n
            invariant
                self.wf(),
                data_fits(*self, *d),
                n == self.knots@.len(),
                is_key_order(knot_keys(self.knots@), ord@),
                m <= n,
                entry_views(entries@) == entries_along(*self, data_seqs(*d), ord@, m as int),
            decreases n - m,
        {
            let k = ord[m];
            let ghost before = entries@;
            let name = copy_string(&self.knots[k].id);
            let mut pushed = true;
            match &self.knots[k].kind {
                KnotKind::SignalIn { .. } => entries.push(RuntimeStateEntry::Sense { knot: name, value: d.sense_values[k] }),
                KnotKind::Flag { .. } => entries.push(RuntimeStateEntry::Flag { knot: name, value: d.flag[k] }),
                KnotKind::Counter => entries.push(RuntimeStateEntry::Counter { knot: name, value: d.counter[k] }),
                KnotKind::Timer { .. } => entries.push(RuntimeStateEntry::Timer { knot: name, remaining: d.timer_left[k] }),
                KnotKind::Delay { ticks } => {
                    let values = self.ring_contents(d, k, *ticks);
                    entries.push(RuntimeStateEntry::Delay { knot: name, len: *ticks, head: d.delay_head[k], values });
                },
                KnotKind::OnStart => entries.push(RuntimeStateEntry::OnStart { knot: name, completed: d.on_start_done[k] }),
                KnotKind::Random { .. } => entries.push(
                    RuntimeStateEntry::Random { knot: name, last_sample: d.counter[k], stream_is_opaque: true },
                ),
                KnotKind::RisingFromZero | KnotKind::FallingToZero | KnotKind::Change => entries.push(
                    RuntimeStateEntry::Edge { knot: name, previous: d.prev_in[k] },
                ),
                _ => {
                    pushed = false;
                },
            }
            proof {
                if pushed {
                    assert(entry_views(entries@) =~= entry_views(before).push(entries@.last()@));
                } else {
                    assert(entries@ == before);
                }
            }
            m = m + 1;
        }
        RuntimeStateReport { version, numeric_path, fingerprint, tick: d.tick, entries }
    }

    /// The ring of delay knot `k` in output order.
    fn ring_contents(&self, d: &RuntimeStateData, k: usize, ticks: u16) -> (r: Vec<Signal>)
        requires
            self.wf(),
            data_fits(*self, *d),
            k < self.knots@.len(),
            self.knots@[k as int].kind == (KnotKind::Delay { ticks }),
        ensures
            r@ == ring_values(d.delay_buf@, self.delay_off@[k as int] as int, ticks as int, d.delay_head@[k as int] as int),
    {
        let mut r: Vec<Signal> = Vec::new();
        if ticks == 0 {
            assert(r@ =~= ring_values(d.delay_buf@, self.delay_off@[k as int] as int, 0, d.delay_head@[k as int] as int));
            return r;
        }
        proof {
            assert(tag_refines(self.tags@[k as int], self.knots@[k as int].kind, self.inbound@[k as int]@));
            assert(self.tags@[k as int] == KindTag::Delay { ticks });
        }
        let off = self.delay_off[k] as usize;
        let len = ticks as usize;
        let head = d.delay_head[k] as usize;
        let buf_len = d.delay_buf.len();
        let mut m: usize = 0;
        while m < len
            invariant
                0 < len <= 0xffff,
                head < len,
                off + len <= d.delay_buf@.len(),
                buf_len == d.delay_buf@.len(),
                m <= len,
                r@ == ring_values(d.delay_buf@, off as int, len as int, head as int).subrange(0, m as int),
            decreases len - m,
        {
            assert(((head + m) as int) % (len as int) < len as int) by (nonlinear_arith)
                requires
                    len > 0,
            ;
            let wrapped = (head + m) % len;
            assert(wrapped < len);
            let at = off + wrapped;
            r.push(d.delay_buf[at]);
            m = m + 1;
        }
        assert(r@ =~= ring_values(d.delay_buf@, off as int, len as int, head as int));
        r
    }

    /// Report this runtime's state by knot name.
    pub fn inspect_state(&self) -> (r: RuntimeStateReport)
        requires
            self.wf(),
        ensures
            r.version == RUNTIME_STATE_FORMAT_VERSION,
            r.numeric_path == NumericPath::spec_compiled(),
            r.fingerprint == self.spec_fingerprint(),
            r.tick == self.spec_tick(),
            report_entries(*self, runtime_seqs(*self), entry_views(r.entries@)),
    {
        let st = self.snapshot();
        proof {
            let d = st.data;
            assert forall|k: int| 0 <= k < self.knots@.len() implies match (#[trigger] self.knots@[k]).kind {
                KnotKind::Delay { ticks } => ticks > 0 ==> d.delay_head@[k] < ticks,
                _ => true,
            } by {
                assert(tag_refines(self.tags@[k], self.knots@[k].kind, self.inbound@[k]@));
            }
        }
        let r = self.inspect_data(RUNTIME_STATE_FORMAT_VERSION, NumericPath::compiled(), self.runtime_fingerprint(), &st.data);
        assert(data_seqs(st.data) == runtime_seqs(*self));
        r
    }

    /// Validate a checkpoint against this runtime and report its state
    /// without changing the runtime.
    pub fn inspect_checkpoint(&self, state: &RuntimeState) -> (r: Result<RuntimeStateReport, RestoreError>)
        requires
            self.wf(),
        ensures
            match r {
                Ok(rep) => {
                    &&& restore_fault(*self, *state) is None
                    &&& rep.version == state.version
                    &&& rep.numeric_path == state.numeric_path
                    &&& rep.fingerprint == state.fingerprint
                    &&& rep.tick == state.data.tick
                    &&& report_entries(*self, data_seqs(state.data), entry_views(rep.entries@))
                },
                Err(e) => restore_fault(*self, *state) == Some(e@),
            },
    {
        match self.validate_checkpoint(state) {
            Err(e) => {
                return Err(e);
            },
            Ok(()) => {},
        }
        proof {
            lemma_scan_state_none(self.knots@, state.data, 0);
            assert forall|k: int| 0 <= k < self.knots@.len() implies match (#[trigger] self.knots@[k]).kind {
                KnotKind::Delay { ticks } => ticks > 0 ==> state.data.delay_head@[k] < ticks,
                _ => true,
            } by {
                assert(knot_state_fault(self.knots@, state.data, k) is None);
            }
        }
        Ok(self.inspect_data(state.version, state.numeric_path, state.fingerprint, &state.data))
    }
}

/// The per-knot state sequences a report reads.
pub struct StateSeqs {
    pub sense_values: Seq<Signal>,
    pub prev_in: Seq<Signal>,
    pub counter: Seq<i32>,
    pub flag: Seq<bool>,
    pub timer_left: Seq<u16>,
    pub on_start_done: Seq<bool>,
    pub delay_buf: Seq<Signal>,
    pub delay_head: Seq<u16>,
}

/// The state sequences of checkpoint data.
pub open spec fn data_seqs(d: RuntimeStateData) -> StateSeqs {
    StateSeqs {
        sense_values: d.sense_values@,
        prev_in: d.prev_in@,
        counter: d.counter@,
        flag: d.flag@,
        timer_left: d.timer_left@,
        on_start_done: d.on_start_done@,
        delay_buf: d.delay_buf@,
        delay_head: d.delay_head@,
    }
}

/// The state sequences of a runtime.
pub open(crate) spec fn runtime_seqs(rt: Runtime) -> StateSeqs {
    StateSeqs {
        sense_values: rt.sense_values@,
        prev_in: rt.prev_in@,
        counter: rt.counter@,
        flag: rt.flag@,
        timer_left: rt.timer_left@,
        on_start_done: rt.on_start_done@,
        delay_buf: rt.delay_buf@,
        delay_head: rt.delay_head@,
    }
}

/// One named initial value of a [`RuntimePreset`].
#[derive(Clone, Debug)]
pub enum RuntimePresetEntry {
    /// Set a `Flag` latch before the first frame.
    Flag { knot: String, value: bool },
    /// Set a `Counter` before the first frame.
    Counter { knot: String, value: i32 },
    /// Set a held `SignalIn` value before the first frame.
    Sense { knot: String, value: Signal },
}

/// A [`RuntimePresetEntry`] as a mathematical value.
pub enum PresetView {
    Flag { knot: Seq<char>, value: bool },
    Counter { knot: Seq<char>, value: i32 },
    Sense { knot: Seq<char>, value: Signal },
}

impl PresetView {
    pub open spec fn knot(self) -> Seq<char> {
        match self {
            PresetView::Flag { knot, .. } | PresetView::Counter { knot, .. } | PresetView::Sense { knot, .. } => knot,
        }
    }
}

impl View for RuntimePresetEntry {
    type V = PresetView;

    open spec fn view(&self) -> PresetView {
        match self {
            RuntimePresetEntry::Flag { knot, value } => PresetView::Flag { knot: knot@, value: *value },
            RuntimePresetEntry::Counter { knot, value } => PresetView::Counter { knot: knot@, value: *value },
            RuntimePresetEntry::Sense { knot, value } => PresetView::Sense { knot: knot@, value: *value },
        }
    }
}

impl RuntimePresetEntry {
    /// The knot name the entry sets.
    pub fn knot(&self) -> (r: &String)
        ensures
            r@ == self@.knot(),
    {
        match self {
            RuntimePresetEntry::Flag { knot, .. } | RuntimePresetEntry::Counter { knot, .. } | RuntimePresetEntry::Sense {
                knot,
                ..
            } => knot,
        }
    }
}

/// Initial values addressed by knot name, applied by
/// [`Runtime::bind_with_preset`].
#[derive(Clone, Debug)]
pub struct RuntimePreset {
    entries: Vec<RuntimePresetEntry>,
}

/// The views of a list of preset entries.
pub open spec fn preset_views(es: Seq<RuntimePresetEntry>) -> Seq<PresetView> {
    es.map_values(|e: RuntimePresetEntry| e@)
}

impl RuntimePreset {
    pub closed spec fn spec_entries(&self) -> Seq<PresetView> {
        preset_views(self.entries@)
    }

    /// An empty preset.
    pub fn new() -> (p: RuntimePreset)
        ensures
            p.spec_entries() == Seq::<PresetView>::empty(),
    {
        let p = RuntimePreset { entries: Vec::new() };
        assert(p.spec_entries() =~= Seq::<PresetView>::empty());
        p
    }

    /// Append one entry; duplicates are refused at bind.
    pub fn push(&mut self, entry: RuntimePresetEntry)
        ensures
            final(self).spec_entries() == old(self).spec_entries().push(entry@),
    {
        self.entries.push(entry);
        assert(self.spec_entries() =~= old(self).spec_entries().push(entry@));
    }

    /// The entries in the order they were pushed.
    pub fn entries(&self) -> (r: &[RuntimePresetEntry])
        ensures
            preset_views(r@) == self.spec_entries(),
    {
        self.entries.as_slice()
    }
}

impl Default for RuntimePreset {
    fn default() -> (p: RuntimePreset)
        ensures
            p.spec_entries() == Seq::<PresetView>::empty(),
    {
        RuntimePreset::new()
    }
}

/// A preset failure as a mathematical value.
pub enum PFault {
    Bind(BindError),
    Duplicate { knot: Seq<char> },
    Missing { knot: Seq<char> },
    WrongKind { knot: Seq<char>, expected: Seq<char> },
    InvalidSignal { knot: Seq<char>, domain: SignalDomain },
}

impl View for PresetError {
    type V = PFault;

    open spec fn view(&self) -> PFault {
        match self {
            PresetError::Bind(e) => PFault::Bind(**e),
            PresetError::Duplicate { knot } => PFault::Duplicate { knot: knot@ },
            PresetError::Missing { knot } => PFault::Missing { knot: knot@ },
            PresetError::WrongKind { knot, expected } => PFault::WrongKind { knot: knot@, expected: expected@ },
            PresetError::InvalidSignal { knot, domain } => PFault::InvalidSignal { knot: knot@, domain: *domain },
        }
    }
}

/// Why entry `i` of `es` cannot be applied to knots `ks`, if it cannot.
pub open spec fn preset_entry_fault(ks: Seq<KnotDef>, es: Seq<PresetView>, i: int) -> Option<PFault> {
    let name = es[i].knot();
    if exists|j: int| 0 <= j < i && es[j].knot() == name {
        Some(PFault::Duplicate { knot: name })
    } else {
        match find_knot(ks, name) {
            None => Some(PFault::Missing { knot: name }),
            Some(id) => match es[i] {
                PresetView::Flag { .. } => if ks[id].kind is Flag {
                    None
                } else {
                    Some(PFault::WrongKind { knot: name, expected: "Flag"@ })
                },
                PresetView::Counter { .. } => if ks[id].kind is Counter {
                    None
                } else {
                    Some(PFault::WrongKind { knot: name, expected: "Counter"@ })
                },
                PresetView::Sense { value, .. } => match ks[id].kind {
                    KnotKind::SignalIn { domain } => if spec_domain_value_is_valid(domain, value) {
                        None
                    } else {
                        Some(PFault::InvalidSignal { knot: name, domain })
                    },
                    _ => Some(PFault::WrongKind { knot: name, expected: "SignalIn"@ }),
                },
            },
        }
    }
}

/// The first faulty entry at or after `i`.
pub open spec fn preset_fault_from(ks: Seq<KnotDef>, es: Seq<PresetView>, i: int) -> Option<PFault>
    decreases es.len() - i,
{
    if i < 0 || i >= es.len() {
        None
    } else if preset_entry_fault(ks, es, i) is Some {
        preset_entry_fault(ks, es, i)
    } else {
        preset_fault_from(ks, es, i + 1)
    }
}

/// The first entry of `es` that cannot be applied to `ks`, in order.
pub open spec fn preset_fault(ks: Seq<KnotDef>, es: Seq<PresetView>) -> Option<PFault> {
    preset_fault_from(ks, es, 0)
}

/// The target knot of entry `i`.
pub open spec fn preset_target(ks: Seq<KnotDef>, es: Seq<PresetView>, i: int) -> int {
    find_knot(ks, es[i].knot()).unwrap()
}

/// Flags after applying the first `m` entries in order.
pub open spec fn preset_flags(ks: Seq<KnotDef>, es: Seq<PresetView>, m: int, base: Seq<bool>) -> Seq<bool>
    decreases m,
{
    if m <= 0 {
        base
    } else {
        let prev = preset_flags(ks, es, m - 1, base);
        match es[m - 1] {
            PresetView::Flag { value, .. } => prev.update(preset_target(ks, es, m - 1), value),
            _ => prev,
        }
    }
}

/// Counters after applying the first `m` entries in order.
pub open spec fn preset_counters(ks: Seq<KnotDef>, es: Seq<PresetView>, m: int, base: Seq<i32>) -> Seq<i32>
    decreases m,
{
    if m <= 0 {
        base
    } else {
        let prev = preset_counters(ks, es, m - 1, base);
        match es[m - 1] {
            PresetView::Counter { value, .. } => prev.update(preset_target(ks, es, m - 1), value),
            _ => prev,
        }
    }
}

/// Held senses after applying the first `m` entries in order.
pub open spec fn preset_senses(ks: Seq<KnotDef>, es: Seq<PresetView>, m: int, base: Seq<Signal>) -> Seq<Signal>
    decreases m,
{
    if m <= 0 {
        base
    } else {
        let prev = preset_senses(ks, es, m - 1, base);
        match es[m - 1] {
            PresetView::Sense { value, .. } => prev.update(preset_target(ks, es, m - 1), value),
            _ => prev,
        }
    }
}

proof fn lemma_preset_fault_none(ks: Seq<KnotDef>, es: Seq<PresetView>, i: int)
    requires
        0 <= i,
        preset_fault_from(ks, es, i) is None,
    ensures
        forall|j: int| i <= j < es.len() ==> #[trigger] preset_entry_fault(ks, es, j) is None,
    decreases es.len() - i,
{
    if i < es.len() {
        lemma_preset_fault_none(ks, es, i + 1);
    }
}

/// Every entry of `es` holds in `rt`: the knot each entry names carries the
/// entry's flag, counter or held sense value.
pub open spec fn preset_applied(ks: Seq<KnotDef>, es: Seq<PresetView>, rt: Runtime) -> bool {
    forall|i: int|
        0 <= i < es.len() ==> match #[trigger] es[i] {
            PresetView::Flag { knot, value } => find_knot(ks, knot) matches Some(id) && rt.spec_flags()[id] == value,
            PresetView::Counter { knot, value } => find_knot(ks, knot) matches Some(id) && rt.spec_counters()[id] == value,
            PresetView::Sense { knot, value } => find_knot(ks, knot) matches Some(id) && rt.spec_sense_values()[id]
                == value,
        }
}

/// The knots no entry of `es` names keep the values of a fresh bind: flags
/// down, counters at zero, senses at `ZERO`.
pub open spec fn preset_leaves_rest(ks: Seq<KnotDef>, es: Seq<PresetView>, rt: Runtime) -> bool {
    forall|x: int|
        0 <= x < ks.len() ==> {
            &&& (forall|i: int| 0 <= i < es.len() ==> !(es[i] is Flag && #[trigger] find_knot(ks, es[i].knot()) == Some(x)))
                ==> !rt.spec_flags()[x]
            &&& (forall|i: int| 0 <= i < es.len() ==> !(es[i] is Counter && #[trigger] find_knot(ks, es[i].knot()) == Some(x)))
                ==> rt.spec_counters()[x] == 0
            &&& (forall|i: int| 0 <= i < es.len() ==> !(es[i] is Sense && #[trigger] find_knot(ks, es[i].knot()) == Some(x)))
                ==> rt.spec_sense_values()[x] == crate::signal::ZERO
        }
}

/// The knot an entry of a fault-free preset names exists, under that name.
proof fn lemma_preset_target(ks: Seq<KnotDef>, es: Seq<PresetView>, i: int)
    requires
        forall|j: int| 0 <= j < es.len() ==> #[trigger] preset_entry_fault(ks, es, j) is None,
        0 <= i < es.len(),
    ensures
        find_knot(ks, es[i].knot()) == Some(preset_target(ks, es, i)),
        0 <= preset_target(ks, es, i) < ks.len(),
        ks[preset_target(ks, es, i)].id@ == es[i].knot(),
{
    assert(preset_entry_fault(ks, es, i) is None);
    crate::validate::lemma_find_knot(ks, es[i].knot());
}

/// Two entries of a fault-free preset name two different knots.
proof fn lemma_preset_targets_differ(ks: Seq<KnotDef>, es: Seq<PresetView>, i: int, j: int)
    requires
        forall|q: int| 0 <= q < es.len() ==> #[trigger] preset_entry_fault(ks, es, q) is None,
        0 <= i < j < es.len(),
    ensures
        preset_target(ks, es, i) != preset_target(ks, es, j),
{
    lemma_preset_target(ks, es, i);
    lemma_preset_target(ks, es, j);
    assert(preset_entry_fault(ks, es, j) is None);
    assert(es[i].knot() != es[j].knot());
}

/// Applying the first `m` entries of a fault-free preset sets the flag of
/// each flag entry's knot to its value and keeps every other flag.
proof fn lemma_preset_flags(ks: Seq<KnotDef>, es: Seq<PresetView>, m: int, base: Seq<bool>)
    requires
        forall|j: int| 0 <= j < es.len() ==> #[trigger] preset_entry_fault(ks, es, j) is None,
        0 <= m <= es.len(),
        base.len() == ks.len(),
    ensures
        preset_flags(ks, es, m, base).len() == base.len(),
        forall|i: int| 0 <= i < m ==> (#[trigger] es[i] matches PresetView::Flag { value, .. } ==> preset_flags(ks, es, m, base)[preset_target(ks, es, i)] == value),
        forall|x: int| 0 <= x < base.len() && (forall|i: int| 0 <= i < m ==> !(es[i] is Flag && #[trigger] preset_target(ks, es, i) == x))
            ==> preset_flags(ks, es, m, base)[x] == base[x],
    decreases m,
{
    if m > 0 {
        lemma_preset_flags(ks, es, m - 1, base);
        lemma_preset_target(ks, es, m - 1);
        assert forall|i: int| 0 <= i < m implies (#[trigger] es[i] matches PresetView::Flag { value, .. } ==> preset_flags(ks, es, m, base)[preset_target(ks, es, i)] == value) by {
            lemma_preset_target(ks, es, i);
            if i < m - 1 {
                lemma_preset_targets_differ(ks, es, i, m - 1);
            }
        }
    }
}

/// Applying the first `m` entries of a fault-free preset sets the counter of
/// each counter entry's knot to its value and keeps every other counter.
proof fn lemma_preset_counters(ks: Seq<KnotDef>, es: Seq<PresetView>, m: int, base: Seq<i32>)
    requires
        forall|j: int| 0 <= j < es.len() ==> #[trigger] preset_entry_fault(ks, es, j) is None,
        0 <= m <= es.len(),
        base.len() == ks.len(),
    ensures
        preset_counters(ks, es, m, base).len() == base.len(),
        forall|i: int| 0 <= i < m ==> (#[trigger] es[i] matches PresetView::Counter { value, .. } ==> preset_counters(ks, es, m, base)[preset_target(ks, es, i)] == value),
        forall|x: int| 0 <= x < base.len() && (forall|i: int| 0 <= i < m ==> !(es[i] is Counter && #[trigger] preset_target(ks, es, i) == x))
            ==> preset_counters(ks, es, m, base)[x] == base[x],
    decreases m,
{
    if m > 0 {
        lemma_preset_counters(ks, es, m - 1, base);
        lemma_preset_target(ks, es, m - 1);
        assert forall|i: int| 0 <= i < m implies (#[trigger] es[i] matches PresetView::Counter { value, .. } ==> preset_counters(ks, es, m, base)[preset_target(ks, es, i)] == value) by {
            lemma_preset_target(ks, es, i);
            if i < m - 1 {
                lemma_preset_targets_differ(ks, es, i, m - 1);
            }
        }
    }
}

/// Applying the first `m` entries of a fault-free preset sets the held sense
/// of each sense entry's knot to its value and keeps every other sense.
proof fn lemma_preset_senses(ks: Seq<KnotDef>, es: Seq<PresetView>, m: int, base: Seq<Signal>)
    requires
        forall|j: int| 0 <= j < es.len() ==> #[trigger] preset_entry_fault(ks, es, j) is None,
        0 <= m <= es.len(),
        base.len() == ks.len(),
    ensures
        preset_senses(ks, es, m, base).len() == base.len(),
        forall|i: int| 0 <= i < m ==> (#[trigger] es[i] matches PresetView::Sense { value, .. } ==> preset_senses(ks, es, m, base)[preset_target(ks, es, i)] == value),
        forall|x: int| 0 <= x < base.len() && (forall|i: int| 0 <= i < m ==> !(es[i] is Sense && #[trigger] preset_target(ks, es, i) == x))
            ==> preset_senses(ks, es, m, base)[x] == base[x],
    decreases m,
{
    if m > 0 {
        lemma_preset_senses(ks, es, m - 1, base);
        lemma_preset_target(ks, es, m - 1);
        assert forall|i: int| 0 <= i < m implies (#[trigger] es[i] matches PresetView::Sense { value, .. } ==> preset_senses(ks, es, m, base)[preset_target(ks, es, i)] == value) by {
            lemma_preset_target(ks, es, i);
            if i < m - 1 {
                lemma_preset_targets_differ(ks, es, i, m - 1);
            }
        }
    }
}

/// A fault-free preset applied to a fresh runtime `base` gives a runtime
/// where every entry holds and every knot no entry names keeps its fresh
/// value.
proof fn lemma_preset_result(ks: Seq<KnotDef>, es: Seq<PresetView>, base: Runtime, rt: Runtime)
    requires
        forall|j: int| 0 <= j < es.len() ==> #[trigger] preset_entry_fault(ks, es, j) is None,
        base.wf(),
        base.spec_knots() == ks,
        fresh_state(base),
        rt.spec_flags() == preset_flags(ks, es, es.len() as int, base.spec_flags()),
        rt.spec_counters() == preset_counters(ks, es, es.len() as int, base.spec_counters()),
        rt.spec_sense_values() == preset_senses(ks, es, es.len() as int, base.spec_sense_values()),
    ensures
        preset_applied(ks, es, rt),
        preset_leaves_rest(ks, es, rt),
{
    let m = es.len() as int;
    lemma_preset_flags(ks, es, m, base.spec_flags());
    lemma_preset_counters(ks, es, m, base.spec_counters());
    lemma_preset_senses(ks, es, m, base.spec_sense_values());
    assert forall|i: int| 0 <= i < es.len() implies match #[trigger] es[i] {
        PresetView::Flag { knot, value } => find_knot(ks, knot) matches Some(id) && rt.spec_flags()[id] == value,
        PresetView::Counter { knot, value } => find_knot(ks, knot) matches Some(id) && rt.spec_counters()[id] == value,
        PresetView::Sense { knot, value } => find_knot(ks, knot) matches Some(id) && rt.spec_sense_values()[id] == value,
    } by {
        lemma_preset_target(ks, es, i);
    }
    assert forall|x: int| 0 <= x < ks.len() implies {
        &&& (forall|i: int| 0 <= i < es.len() ==> !(es[i] is Flag && #[trigger] find_knot(ks, es[i].knot()) == Some(x)))
            ==> !rt.spec_flags()[x]
        &&& (forall|i: int| 0 <= i < es.len() ==> !(es[i] is Counter && #[trigger] find_knot(ks, es[i].knot()) == Some(x)))
            ==> rt.spec_counters()[x] == 0
        &&& (forall|i: int| 0 <= i < es.len() ==> !(es[i] is Sense && #[trigger] find_knot(ks, es[i].knot()) == Some(x)))
            ==> rt.spec_sense_values()[x] == crate::signal::ZERO
    } by {
        assert forall|i: int| 0 <= i < es.len() implies #[trigger] find_knot(ks, es[i].knot()) == Some(preset_target(ks, es, i)) by {
            lemma_preset_target(ks, es, i);
        }
        assert(!base.spec_flags()[x] && base.spec_counters()[x] == 0 && base.spec_sense_values()[x] == crate::signal::ZERO);
    }
}

impl Runtime {
    /// Why entry `i` of `entries` cannot be applied to this runtime.
    fn check_preset_entry(&self, entries: &Vec<RuntimePresetEntry>, i: usize) -> (r: Result<(), PresetError>)
        requires
            self.wf(),
            i < entries@.len(),
        ensures
            match r {
                Ok(()) => preset_entry_fault(self.knots@, preset_views(entries@), i as int) is None,
                Err(e) => preset_entry_fault(self.knots@, preset_views(entries@), i as int) == Some(e@) && !(e is Bind),
            },
    {
        let ghost es = preset_views(entries@);
        let entry = &entries[i];
        let name = entry.knot();
        let mut j: usize = 0;
        while j < i
            invariant
                i < entries@.len(),
                es == preset_views(entries@),
                name@ == es[i as int].knot(),
                j <= i,
                forall|q: int| 0 <= q < j ==> es[q].knot() != name@,
            decreases i - j,
        {
            if string_eq(entries[j].knot(), name) {
                assert(es[j as int].knot() == name@);
                return Err(PresetError::Duplicate { knot: copy_string(name) });
            }
            j = j + 1;
        }
        match find_knot_index(&self.knots, name.as_str()) {
            None => Err(PresetError::Missing { knot: copy_string(name) }),
            Some(id) => {
                proof {
                    crate::validate::lemma_find_knot(self.knots@, name@);
                }
                match entry {
                    RuntimePresetEntry::Flag { .. } => if matches!(self.knots[id].kind, KnotKind::Flag { .. }) {
                        Ok(())
                    } else {
                        Err(PresetError::WrongKind { knot: copy_string(name), expected: "Flag" })
                    },
                    RuntimePresetEntry::Counter { .. } => if matches!(self.knots[id].kind, KnotKind::Counter) {
                        Ok(())
                    } else {
                        Err(PresetError::WrongKind { knot: copy_string(name), expected: "Counter" })
                    },
                    RuntimePresetEntry::Sense { value, .. } => match &self.knots[id].kind {
                        KnotKind::SignalIn { domain } => if domain_value_is_valid(*domain, *value) {
                            Ok(())
                        } else {
                            Err(PresetError::InvalidSignal { knot: copy_string(name), domain: *domain })
                        },
                        _ => Err(PresetError::WrongKind { knot: copy_string(name), expected: "SignalIn" }),
                    },
                }
            },
        }
    }

    /// Bind `weave`, then set every named initial value of `preset`. All
    /// entries are checked before any is applied.
    pub fn bind_with_preset(weave: Weave, opts: BindOpts, preset: &RuntimePreset) -> (r: Result<Runtime, PresetError>)
        ensures
            match r {
                Ok(rt) => exists|rt0: Runtime| {
                    &&& bound_from(rt0, weave, opts)
                    &&& preset_fault(weave.spec_knots(), preset.spec_entries()) is None
                    &&& rt.wf()
                    &&& rt.same_tables(&rt0)
                    &&& rt.spec_flags() == preset_flags(weave.spec_knots(), preset.spec_entries(), preset.spec_entries().len() as int, rt0.spec_flags())
                    &&& rt.spec_counters() == preset_counters(weave.spec_knots(), preset.spec_entries(), preset.spec_entries().len() as int, rt0.spec_counters())
                    &&& rt.spec_sense_values() == preset_senses(weave.spec_knots(), preset.spec_entries(), preset.spec_entries().len() as int, rt0.spec_sense_values())
                    &&& rt.spec_port_vals() == rt0.spec_port_vals()
                    &&& rt.spec_delay_buf() == rt0.spec_delay_buf()
                    &&& rt.same_clock_state(&rt0)
                    &&& rt.spec_outbox() == rt0.spec_outbox()
                    &&& rt.spec_tick() == rt0.spec_tick()
                    &&& rt.spec_phase() == rt0.spec_phase()
                    &&& rt.spec_rng() == rt0.spec_rng()
                    &&& fresh_state(rt0)
                } && preset_applied(weave.spec_knots(), preset.spec_entries(), rt) && preset_leaves_rest(
                    weave.spec_knots(),
                    preset.spec_entries(),
                    rt,
                ),
                Err(PresetError::Bind(e)) => bind_refused(weave, opts, *e),
                Err(e) => (exists|rt0: Runtime| bound_from(rt0, weave, opts)) && preset_fault(weave.spec_knots(), preset.spec_entries()) == Some(e@),
            },
    {
        let mut rt = match Runtime::bind(weave, opts) {
            Ok(rt) => rt,
            Err(e) => {
                return Err(PresetError::Bind(Box::new(e)));
            },
        };
        let ghost rt0 = rt;
        let entries = &preset.entries;
        let ghost es = preset_views(entries@);
        let n = entries.len();
        let mut i: usize = 0;
        while i < n
            invariant
                rt == rt0,
                bound_from(rt0, weave, opts),
                rt.wf(),
                es == preset.spec_entries(),
                n == entries@.len(),
                es == preset_views(entries@),
                i <= n,
                preset_fault(rt.knots@, es) == preset_fault_from(rt.knots@, es, i as int),
            decreases n - i,
        {
            match rt.check_preset_entry(entries, i) {
                Err(e) => {
                    proof {
                        assert(bound_from(rt0, weave, opts));
                    }
                    return Err(e);
                },
                Ok(()) => {},
            }
            i = i + 1;
        }
        proof {
            lemma_preset_fault_none(rt.knots@, es, 0);
        }
        let mut i: usize = 0;
        while i < n
            invariant
                bound_from(rt0, weave, opts),
                es == preset.spec_entries(),
                rt.wf(),
                rt.same_tables(&rt0),
                rt0.wf(),
                n == entries@.len(),
                es == preset_views(entries@),
                i <= n,
                forall|j: int| 0 <= j < es.len() ==> #[trigger] preset_entry_fault(rt0.knots@, es, j) is None,
                rt.flag@ == preset_flags(rt0.knots@, es, i as int, rt0.flag@),
                rt.counter@ == preset_counters(rt0.knots@, es, i as int, rt0.counter@),
                rt.sense_values@ == preset_senses(rt0.knots@, es, i as int, rt0.sense_values@),
                rt.port_vals@ == rt0.port_vals@,
                rt.delay_buf@ == rt0.delay_buf@,
                rt.timer_left@ == rt0.timer_left@,
                rt.delay_head@ == rt0.delay_head@,
                rt.same_clock_state(&rt0),
                rt.spec_outbox() == rt0.spec_outbox(),
                rt.tick == rt0.tick,
                rt.phase == rt0.phase,
                rt.rng == rt0.rng,
            decreases n - i,
        {
            let entry = &entries[i];
            let name = entry.knot();
            let id = match find_knot_index(&rt.knots, name.as_str()) {
                Some(id) => id,
                None => {
                    proof {
                        assert(preset_entry_fault(rt0.knots@, es, i as int) is None);
                    }
                    i = i + 1;
                    continue;
                },
            };
            proof {
                assert(preset_entry_fault(rt0.knots@, es, i as int) is None);
                crate::validate::lemma_find_knot(rt.knots@, name@);
                assert(preset_target(rt0.knots@, es, i as int) == id as int);
            }
            match entry {
                RuntimePresetEntry::Flag { value, .. } => {
                    rt.flag.set(id, *value);
                },
                RuntimePresetEntry::Counter { value, .. } => {
                    rt.counter.set(id, *value);
                },
                RuntimePresetEntry::Sense { value, .. } => {
                    let ghost prev = rt.sense_values@;
                    rt.sense_values.set(id, *value);
                    proof {
                        assert forall|k: int| 0 <= k < rt.knots@.len() implies sense_ok((#[trigger] rt.knots@[k]).kind, rt.sense_values@[k]) by {
                            if k != id {
                                assert(sense_ok(rt.knots@[k].kind, prev[k]));
                            }
                        }
                    }
                },
            }
            i = i + 1;
        }
        proof {
            lemma_preset_result(rt0.knots@, es, rt0, rt);
        }
        Ok(rt)
    }
}

proof fn lemma_scan_state_all_none(ks: Seq<KnotDef>, d: RuntimeStateData, i: int)
    requires
        0 <= i,
        forall|k: int| i <= k < ks.len() ==> #[trigger] knot_state_fault(ks, d, k) is None,
    ensures
        scan_state(ks, d, i) is None,
    decreases ks.len() - i,
{
    if i < ks.len() {
        lemma_scan_state_all_none(ks, d, i + 1);
    }
}

/// A checkpoint taken after a settle is accepted by every runtime with the
/// same knots and the same fingerprint: restore never refuses a runtime's own
/// settled snapshot.
pub proof fn lemma_settled_snapshot_is_restorable(rt: Runtime, st: RuntimeState, other: Runtime)
    requires
        rt.wf(),
        rt.spec_phase() == SETTLED_PHASE,
        snapshot_of(st, rt),
        other.wf(),
        other.spec_knots() == rt.spec_knots(),
        other.spec_fingerprint() == rt.spec_fingerprint(),
    ensures
        restore_fault(other, st) is None,
{
    let d = st.data;
    let ks = rt.knots@;
    assert forall|k: int| 0 <= k < ks.len() implies #[trigger] knot_state_fault(ks, d, k) is None by {
        assert(tag_refines(rt.tags@[k], rt.knots@[k].kind, rt.inbound@[k]@));
        assert(timer_ok(rt.tags@[k], rt.timer_left@[k]));
        assert(sense_ok(rt.knots@[k].kind, rt.sense_values@[k]));
    }
    lemma_scan_state_all_none(ks, d, 0);
}

/// Restoring a checkpoint reproduces the checkpointed runtime's state: every
/// per-knot value, held sense, port, delay ring, the tick, the phase and the
/// random stream.
pub proof fn lemma_restore_reproduces_snapshot(rt: Runtime, st: RuntimeState, restored: Runtime)
    requires
        snapshot_of(st, rt),
        holds_state_of(st.data, restored),
    ensures
        restored.same_state(&rt),
        restored.spec_tick() == rt.spec_tick(),
        restored.spec_phase() == rt.spec_phase(),
        restored.spec_rng() == rt.spec_rng(),
{
}

fn numeric_path_eq(a: NumericPath, b: NumericPath) -> (r: bool)
    ensures
        r == (a == b),
{
    match (a, b) {
        (NumericPath::F32, NumericPath::F32) => true,
        (NumericPath::I32Q16, NumericPath::I32Q16) => true,
        _ => false,
    }
}

} // verus!
