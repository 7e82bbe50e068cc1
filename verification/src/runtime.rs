//! Bind: turn a validated [`Weave`] into a dense, executable [`Runtime`].
//!
//! Bind interns host paths and command names, resolves threads to dense
//! (knot, slot) pairs, builds the inbound-edge table, a topological order,
//! per-knot dispatch tags and delay rings, so that `loom` only reads tables
//! built here. The host resolves sense, path and command handles once after
//! bind and uses only those dense handles per frame.

use vstd::prelude::*;

use crate::settle::{dyn_of, frame_start};
use crate::fingerprint::{fnv1a64, runtime_fingerprint_for, spec_fingerprint_of, spec_fnv1a64};
use vstd::utf8::encode_utf8;
use crate::catalog::{port_slot, port_table, ports_of, KnotKind, NumericPath, PortDir, PortSlot, SignalDomain};
use crate::graph::{acyclic, edges_in_range, is_rank, no_self_loops, topo_sort};
use crate::handles::{CmdId, HostPathId, KnotHandle, SenseId};
use crate::kind_tag::{tag_from_kind, KindTag};
use crate::outbox::{Emit, SignalOutSample};
use crate::runtime_error::{BindError, HandleError};
use crate::signal::{Signal, ONE, ZERO};
use crate::text::{copy_string, str_eq};
use crate::token::fresh_token;
use crate::validate::{
    budget_fault, find_knot, find_knot_index, knot_edges, lemma_valid_threads_resolve, thread_knots,
    validate, weave_edges, Budget, VFault, ValidationError, MAX_DENSE,
};
use crate::weave::{KnotDef, ThreadDef, Weave};

verus! {

/// Ports per knot in the dense port store.
pub const MAX_PORTS: usize = 8;

/// Host frame time.
#[derive(Clone, Copy, Debug, PartialEq, Eq)]
pub struct HostTime {
    pub tick: u64,
}

/// Seed for the `Random` knots' stream.
#[derive(Clone, Copy, Debug, PartialEq, Eq)]
pub struct Seed(pub u64);

/// Bind-time options.
#[derive(Clone, Copy, Debug)]
pub struct BindOpts {
    /// Seed of the random stream (a fixed default when absent).
    pub seed: Option<Seed>,
    /// Cap on `EmitCommand` entries per frame; further emits are counted as
    /// dropped.
    pub max_emits_per_tick: u16,
    /// Budget the weave is validated against.
    pub budget: Budget,
}

pub open spec fn spec_default_bind_opts() -> BindOpts {
    BindOpts { seed: None, max_emits_per_tick: 8, budget: crate::validate::spec_default_budget() }
}

impl Default for BindOpts {
    fn default() -> (o: BindOpts)
        ensures
            o == spec_default_bind_opts(),
    {
        BindOpts { seed: None, max_emits_per_tick: 8, budget: Budget::default() }
    }
}

/// Default seed when [`BindOpts::seed`] is absent.
pub const DEFAULT_SEED: u64 = 0xC0FF_EE00_D15C_AFED;

/// Seeded knots, listed at bind so that `loom` seeds them without scanning
/// every knot.
#[derive(Clone, Copy, Debug, PartialEq, Eq)]
pub enum SenseSeed {
    Constant { kid: u16, value: Signal },
    SignalIn { kid: u16 },
    OnStart { kid: u16 },
}

impl SenseSeed {
    pub open spec fn kid(self) -> u16 {
        match self {
            SenseSeed::Constant { kid, .. } => kid,
            SenseSeed::SignalIn { kid } => kid,
            SenseSeed::OnStart { kid } => kid,
        }
    }
}

// ---------------------------------------------------------------------------
// Hashing
// ---------------------------------------------------------------------------

/// The random stream state for a seed and a weave-id mix (never zero).
pub open spec fn spec_rng_state(seed: u64, mix: u64) -> u64 {
    (seed ^ mix) | 1
}

// ---------------------------------------------------------------------------
// Capacity guards
// ---------------------------------------------------------------------------

/// `e` reports that `resource` overflowed at `count` while binding `weave_id`.
pub open spec fn is_capacity_error(e: BindError, weave_id: Seq<char>, resource: Seq<char>, count: int) -> bool {
    match e {
        BindError::CapacityExceeded { weave_id: w, resource: r, count: c } => w@ == weave_id && r@ == resource && c
            == count,
        _ => false,
    }
}

/// Reject the one owner token reserved as invalid.
pub fn reserve_owner(owner: u64, weave_id: &str) -> (r: Result<(), BindError>)
    ensures
        match r {
            Ok(()) => owner != u64::MAX,
            Err(e) => owner == u64::MAX && is_capacity_error(e, weave_id@, "runtime owner token"@, usize::MAX as int),
        },
{
    if owner == u64::MAX {
        return Err(
            BindError::CapacityExceeded { weave_id: weave_id.to_owned(), resource: "runtime owner token", count: usize::MAX },
        );
    }
    Ok(())
}

/// The dense id of the knot at authoring index `index`.
pub fn dense_knot_id(index: usize, weave_id: &str) -> (r: Result<u16, BindError>)
    requires
        index < usize::MAX,
    ensures
        match r {
            Ok(k) => index <= MAX_DENSE && k == index,
            Err(e) => index > MAX_DENSE && is_capacity_error(e, weave_id@, "knot"@, index + 1),
        },
{
    if index > MAX_DENSE {
        return Err(BindError::CapacityExceeded { weave_id: weave_id.to_owned(), resource: "knot", count: index + 1 });
    }
    Ok(index as u16)
}

/// Index of the first name equal to `name`.
pub open spec fn find_name_from(names: Seq<String>, name: Seq<char>, i: int) -> Option<int>
    decreases names.len() - i,
{
    if i < 0 || i >= names.len() {
        None
    } else if names[i]@ == name {
        Some(i)
    } else {
        find_name_from(names, name, i + 1)
    }
}

pub open spec fn find_name(names: Seq<String>, name: Seq<char>) -> Option<int> {
    find_name_from(names, name, 0)
}

proof fn lemma_find_name_from(names: Seq<String>, name: Seq<char>, i: int)
    requires
        0 <= i,
    ensures
        find_name_from(names, name, i) matches Some(j) ==> i <= j < names.len() && names[j]@ == name && forall|k: int|
            i <= k < j ==> names[k]@ != name,
        find_name_from(names, name, i) is None ==> forall|k: int| i <= k < names.len() ==> names[k]@ != name,
    decreases names.len() - i,
{
    if i < names.len() && names[i]@ != name {
        lemma_find_name_from(names, name, i + 1);
    }
}

pub proof fn lemma_find_name(names: Seq<String>, name: Seq<char>)
    ensures
        find_name(names, name) matches Some(j) ==> 0 <= j < names.len() && names[j]@ == name && forall|k: int|
            0 <= k < j ==> names[k]@ != name,
        find_name(names, name) is None ==> forall|k: int| 0 <= k < names.len() ==> names[k]@ != name,
{
    lemma_find_name_from(names, name, 0);
}

fn find_name_exec(names: &Vec<String>, name: &str) -> (r: Option<usize>)
    ensures
        match r {
            Some(j) => j < names@.len() && names@[j as int]@ == name@ && forall|k: int| 0 <= k < j ==> names@[k]@ != name@,
            None => forall|k: int| 0 <= k < names@.len() ==> names@[k]@ != name@,
        },
        r matches Some(j) ==> find_name(names@, name@) == Some(j as int),
        r is None ==> find_name(names@, name@) is None,
{
    let mut j: usize = 0;
    while j < names.len()
        invariant
            j <= names@.len(),
            forall|k: int| 0 <= k < j ==> names@[k]@ != name@,
            find_name(names@, name@) == find_name_from(names@, name@, j as int),
        decreases names@.len() - j,
    {
        if str_eq(names[j].as_str(), name) {
            return Some(j);
        }
        j = j + 1;
    }
    None
}

/// Intern a name into a compact table: its existing index, or a new index
/// when the table still has room in the `u16` id space.
pub open spec fn intern_result(names: Seq<String>, name: Seq<char>) -> Option<int> {
    match find_name(names, name) {
        Some(j) => if j > MAX_DENSE {
            None
        } else {
            Some(j)
        },
        None => if names.len() > MAX_DENSE {
            None
        } else {
            Some(names.len() as int)
        },
    }
}

fn intern(names: &mut Vec<String>, name: &str) -> (r: Option<u16>)
    ensures
        match r {
            Some(j) => intern_result(old(names)@, name@) == Some(j as int) && (if find_name(old(names)@, name@) is Some {
                final(names)@ == old(names)@
            } else {
                final(names)@.len() == old(names)@.len() + 1 && final(names)@.drop_last() == old(names)@
                    && final(names)@.last()@ == name@
            }),
            None => intern_result(old(names)@, name@) is None && final(names)@ == old(names)@,
        },
{
    match find_name_exec(names, name) {
        Some(j) => {
            if j > MAX_DENSE {
                return None;
            }
            Some(j as u16)
        },
        None => {
            if names.len() > MAX_DENSE {
                return None;
            }
            let j = names.len() as u16;
            names.push(name.to_owned());
            proof {
                assert(final(names)@.drop_last() =~= old(names)@);
            }
            Some(j)
        },
    }
}

/// Intern a `SignalOut` path, keeping host path ids compact.
pub fn intern_host_path(owner: u64, path: &str, path_names: &mut Vec<String>, weave_id: &str) -> (r: Result<
    HostPathId,
    BindError,
>)
    requires
        old(path_names)@.len() < usize::MAX,
    ensures
        match r {
            Ok(id) => id.spec_owner() == owner && intern_result(old(path_names)@, path@) == Some(id.spec_index() as int),
            Err(e) => intern_result(old(path_names)@, path@) is None && final(path_names)@ == old(path_names)@
                && is_capacity_error(e, weave_id@, "host path"@, (old(path_names)@.len() + 1) as int),
        },
        intern_result(old(path_names)@, path@) matches Some(j) ==> (if j < old(path_names)@.len() {
            final(path_names)@ == old(path_names)@
        } else {
            final(path_names)@ == old(path_names)@.push(final(path_names)@.last()) && final(path_names)@.last()@ == path@
        }),
{
    let before = path_names.len();
    proof {
        lemma_find_name(path_names@, path@);
    }
    match intern(path_names, path) {
        Some(j) => {
            proof {
                if find_name(old(path_names)@, path@) is None {
                    assert(path_names@ =~= old(path_names)@.push(path_names@.last()));
                }
            }
            Ok(HostPathId { owner, index: j })
        },
        None => Err(
            BindError::CapacityExceeded { weave_id: weave_id.to_owned(), resource: "host path", count: before + 1 },
        ),
    }
}

/// Intern an `EmitCommand` name, keeping command ids compact.
pub fn intern_command(owner: u64, name: &str, cmd_names: &mut Vec<String>, weave_id: &str) -> (r: Result<
    CmdId,
    BindError,
>)
    requires
        old(cmd_names)@.len() < usize::MAX,
    ensures
        match r {
            Ok(id) => id.spec_owner() == owner && intern_result(old(cmd_names)@, name@) == Some(id.spec_index() as int),
            Err(e) => intern_result(old(cmd_names)@, name@) is None && final(cmd_names)@ == old(cmd_names)@
                && is_capacity_error(e, weave_id@, "command"@, (old(cmd_names)@.len() + 1) as int),
        },
        intern_result(old(cmd_names)@, name@) matches Some(j) ==> (if j < old(cmd_names)@.len() {
            final(cmd_names)@ == old(cmd_names)@
        } else {
            final(cmd_names)@ == old(cmd_names)@.push(final(cmd_names)@.last()) && final(cmd_names)@.last()@ == name@
        }),
{
    let before = cmd_names.len();
    proof {
        lemma_find_name(cmd_names@, name@);
    }
    match intern(cmd_names, name) {
        Some(j) => {
            proof {
                if find_name(old(cmd_names)@, name@) is None {
                    assert(cmd_names@ =~= old(cmd_names)@.push(cmd_names@.last()));
                }
            }
            Ok(CmdId { owner, index: j })
        },
        None => Err(
            BindError::CapacityExceeded { weave_id: weave_id.to_owned(), resource: "command", count: before + 1 },
        ),
    }
}

/// Extend the delay buffer length by `len`.
pub fn checked_delay_buffer_len(current_len: usize, len: usize, weave_id: &str) -> (r: Result<usize, BindError>)
    ensures
        match r {
            Ok(n) => n == current_len + len,
            Err(e) => current_len + len > usize::MAX && is_capacity_error(e, weave_id@, "delay buffer"@, usize::MAX as int),
        },
{
    match current_len.checked_add(len) {
        Some(n) => Ok(n),
        None => Err(BindError::CapacityExceeded { weave_id: weave_id.to_owned(), resource: "delay buffer", count: usize::MAX }),
    }
}

/// Place a delay ring of `len` slots after `current_len` slots: its offset
/// and the new buffer length, both within the `u16` id space.
pub fn delay_buffer_layout(current_len: usize, len: usize, weave_id: &str) -> (r: Result<(u16, usize), BindError>)
    ensures
        match r {
            Ok((off, n)) => current_len <= MAX_DENSE && off == current_len && n == current_len + len && n <= MAX_DENSE,
            Err(e) => if current_len > MAX_DENSE {
                is_capacity_error(e, weave_id@, "delay buffer offset"@, current_len as int)
            } else if current_len + len > usize::MAX {
                is_capacity_error(e, weave_id@, "delay buffer"@, usize::MAX as int)
            } else {
                current_len + len > MAX_DENSE && is_capacity_error(e, weave_id@, "delay buffer"@, current_len + len)
            },
        },
{
    if current_len > MAX_DENSE {
        return Err(
            BindError::CapacityExceeded { weave_id: weave_id.to_owned(), resource: "delay buffer offset", count: current_len },
        );
    }
    let new_len = match checked_delay_buffer_len(current_len, len, weave_id) {
        Ok(n) => n,
        Err(e) => {
            return Err(e);
        },
    };
    if new_len > MAX_DENSE {
        return Err(BindError::CapacityExceeded { weave_id: weave_id.to_owned(), resource: "delay buffer", count: new_len });
    }
    Ok((current_len as u16, new_len))
}


// ---------------------------------------------------------------------------
// The runtime
// ---------------------------------------------------------------------------

/// A bound weave: dense tables built at bind, per-knot state, and the
/// outbox of the current frame.
pub struct Runtime {
    pub(crate) owner: u64,
    pub(crate) knots: Vec<KnotDef>,
    pub(crate) path_names: Vec<String>,
    pub(crate) cmd_names: Vec<String>,
    pub(crate) knot_path: Vec<u16>,
    pub(crate) knot_cmd: Vec<u16>,
    pub(crate) threads: Vec<(u16, u8, u16, u8)>,
    pub(crate) inbound: Vec<Vec<(u16, u8, u8)>>,
    pub(crate) clear_mask: Vec<bool>,
    pub(crate) clear_count: usize,
    pub(crate) topo: Vec<u16>,
    pub(crate) tags: Vec<KindTag>,
    pub(crate) sense_seeds: Vec<SenseSeed>,
    pub(crate) sense_values: Vec<Signal>,
    pub(crate) port_vals: Vec<Signal>,
    pub(crate) prev_in: Vec<Signal>,
    pub(crate) prev_dec: Vec<Signal>,
    pub(crate) counter: Vec<i32>,
    pub(crate) flag: Vec<bool>,
    pub(crate) timer_left: Vec<u16>,
    pub(crate) on_start_done: Vec<bool>,
    pub(crate) delay_buf: Vec<Signal>,
    pub(crate) delay_off: Vec<u16>,
    pub(crate) delay_len: Vec<u16>,
    pub(crate) delay_head: Vec<u16>,
    pub(crate) out_signals: Vec<SignalOutSample>,
    pub(crate) out_emits: Vec<Emit>,
    pub(crate) dropped_emits: usize,
    pub(crate) max_emits_per_tick: u16,
    pub(crate) tick: u64,
    pub(crate) phase: u8,
    pub(crate) rng: u64,
    pub(crate) seed_mix: u64,
    pub(crate) fingerprint: u64,
    pub(crate) bind_seed: Option<u64>,
}

/// A held sense value fits its `SignalIn` domain.
pub open spec fn sense_ok(kind: KnotKind, v: Signal) -> bool {
    match kind {
        KnotKind::SignalIn { domain } => crate::outbox::spec_domain_value_is_valid(domain, v),
        _ => true,
    }
}

/// A timer's remaining ticks never exceed its period.
pub open spec fn timer_ok(tag: KindTag, left: u16) -> bool {
    match tag {
        KindTag::TimerPulseHold { ticks } | KindTag::TimerFedCountdown { ticks } => left <= ticks,
        _ => true,
    }
}

/// Index of port `slot` of knot `k` in the dense port store.
pub open spec fn port_index(k: int, slot: int) -> int {
    k * MAX_PORTS + slot
}

impl Runtime {
    pub open(crate) spec fn n(&self) -> nat {
        self.knots@.len()
    }

    /// The dense tables are consistent: every index the evaluator computes
    /// from them is in range.
    pub open(crate) spec fn wf(&self) -> bool {
        let n = self.knots@.len();
        &&& 0 < n <= MAX_DENSE
        &&& self.tags@.len() == n
        &&& self.knot_path@.len() == n
        &&& self.knot_cmd@.len() == n
        &&& self.sense_values@.len() == n
        &&& self.prev_in@.len() == n
        &&& self.prev_dec@.len() == n
        &&& self.counter@.len() == n
        &&& self.flag@.len() == n
        &&& self.timer_left@.len() == n
        &&& self.on_start_done@.len() == n
        &&& self.delay_off@.len() == n
        &&& self.delay_len@.len() == n
        &&& self.delay_head@.len() == n
        &&& self.port_vals@.len() == n * MAX_PORTS
        &&& self.topo@.len() == n
        &&& forall|i: int| 0 <= i < n ==> (#[trigger] self.topo@[i]) < n
        &&& forall|i: int| 0 <= i < n ==> (#[trigger] self.tags@[i]).wf()
        &&& forall|i: int| 0 <= i < n ==> tag_refines(#[trigger] self.tags@[i], self.knots@[i].kind, self.inbound@[i]@)
        &&& self.inbound@.len() == n
        &&& forall|k: int, j: int|
            0 <= k < n && 0 <= j < self.inbound@[k]@.len() ==> (#[trigger] self.inbound@[k]@[j]).0 < n
                && self.inbound@[k]@[j].1 < MAX_PORTS && self.inbound@[k]@[j].2 < MAX_PORTS
        &&& self.clear_mask@.len() == n * MAX_PORTS
        &&& forall|j: int| 0 <= j < self.sense_seeds@.len() ==> (#[trigger] self.sense_seeds@[j]).kid() < n
            && self.tags@[self.sense_seeds@[j].kid() as int] is Sense
        &&& forall|a: int, b: int| 0 <= a < b < self.sense_seeds@.len() ==> #[trigger] self.sense_seeds@[a].kid() < #[trigger] self.sense_seeds@[b].kid()
        &&& forall|i: int| 0 <= i < n && self.tags@[i] is SignalOut ==> #[trigger] self.knot_path@[i] < self.path_names@.len()
        &&& forall|i: int| 0 <= i < n && self.tags@[i] is EmitCommand ==> #[trigger] self.knot_cmd@[i] < self.cmd_names@.len()
        &&& forall|i: int|
            0 <= i < n ==> match #[trigger] self.tags@[i] {
                KindTag::Delay { ticks } => (ticks > 0 ==> self.delay_len@[i] == ticks && self.delay_off@[i] + ticks
                    <= self.delay_buf@.len() && self.delay_head@[i] < ticks) && (ticks == 0 ==> self.delay_head@[i] == 0),
                _ => true,
            }
        &&& self.delay_buf@.len() == delay_prefix(self.knots@, n as int)
        &&& self.path_names@.len() <= MAX_DENSE + 1
        &&& self.cmd_names@.len() <= MAX_DENSE + 1
        &&& self.out_emits@.len() <= self.max_emits_per_tick
        &&& self.rng != 0
        &&& forall|i: int| 0 <= i < n ==> timer_ok(#[trigger] self.tags@[i], self.timer_left@[i])
        &&& forall|i: int| 0 <= i < n ==> sense_ok((#[trigger] self.knots@[i]).kind, self.sense_values@[i])
        &&& self.fingerprint == spec_fingerprint_of(
            self.knots@,
            self.threads@,
            self.path_names@,
            self.cmd_names@,
            self.max_emits_per_tick,
            self.seed_mix,
            self.bind_seed,
        )
    }
}

/// Resolve every thread of a valid weave to (from knot, from slot, to knot,
/// to slot).
fn resolve_threads(ks: &Vec<KnotDef>, ts: &Vec<ThreadDef>) -> (r: Vec<(u16, u8, u16, u8)>)
    requires
        ks@.len() <= MAX_DENSE,
        ts@.len() <= MAX_DENSE,
        forall|t: int| 0 <= t < ts@.len() ==> crate::validate::thread_fault(ks@, ts@, t) is None,
    ensures
        r@.len() == ts@.len(),
        forall|t: int| 0 <= t < ts@.len() ==> {
            let x = #[trigger] r@[t];
            let th = ts@[t];
            &&& find_knot(ks@, th.from.knot@) == Some(x.0 as int)
            &&& find_knot(ks@, th.to.knot@) == Some(x.2 as int)
            &&& crate::validate::source_of(ks@, th) == Some((x.0 as int, x.1 as int))
            &&& crate::validate::target_of(ks@, th) == Some((x.2 as int, x.3 as int))
            &&& x.0 < ks@.len() && x.2 < ks@.len()
            &&& x.1 < port_table(ks@[x.0 as int].kind).len() && port_table(ks@[x.0 as int].kind)[x.1 as int].dir == PortDir::Out
            &&& x.3 < port_table(ks@[x.2 as int].kind).len() && port_table(ks@[x.2 as int].kind)[x.3 as int].dir == PortDir::In
            &&& x.1 < MAX_PORTS && x.3 < MAX_PORTS
        },
{
    let mut r: Vec<(u16, u8, u16, u8)> = Vec::new();
    let mut t: usize = 0;
    while t < ts.len()
        invariant
            ks@.len() <= MAX_DENSE,
            ts@.len() <= MAX_DENSE,
            forall|t: int| 0 <= t < ts@.len() ==> crate::validate::thread_fault(ks@, ts@, t) is None,
            t <= ts@.len(),
            r@.len() == t,
            forall|s: int| 0 <= s < t ==> {
                let x = #[trigger] r@[s];
                let th = ts@[s];
                &&& find_knot(ks@, th.from.knot@) == Some(x.0 as int)
                &&& find_knot(ks@, th.to.knot@) == Some(x.2 as int)
                &&& crate::validate::source_of(ks@, th) == Some((x.0 as int, x.1 as int))
                &&& crate::validate::target_of(ks@, th) == Some((x.2 as int, x.3 as int))
                &&& x.0 < ks@.len() && x.2 < ks@.len()
                &&& x.1 < port_table(ks@[x.0 as int].kind).len() && port_table(ks@[x.0 as int].kind)[x.1 as int].dir == PortDir::Out
                &&& x.3 < port_table(ks@[x.2 as int].kind).len() && port_table(ks@[x.2 as int].kind)[x.3 as int].dir == PortDir::In
                &&& x.1 < MAX_PORTS && x.3 < MAX_PORTS
            },
        decreases ts@.len() - t,
    {
        let th = &ts[t];
        proof {
            assert(crate::validate::thread_fault(ks@, ts@, t as int) is None);
            crate::validate::lemma_find_knot(ks@, th.from.knot@);
            crate::validate::lemma_find_knot(ks@, th.to.knot@);
        }
        let fi = find_knot_index(ks, th.from.knot.as_str());
        let ti = find_knot_index(ks, th.to.knot.as_str());
        match (fi, ti) {
            (Some(fi), Some(ti)) => {
                let fp = crate::validate::resolve_port_row(&ks[fi].kind, th.from.port.as_str());
                let tp = crate::validate::resolve_port_row(&ks[ti].kind, th.to.port.as_str());
                proof {
                    crate::catalog::lemma_find_port(port_table(ks@[fi as int].kind), th.from.port@);
                    crate::catalog::lemma_find_port(port_table(ks@[ti as int].kind), th.to.port@);
                    crate::catalog::lemma_slot_is_row(ks@[fi as int].kind);
                    crate::catalog::lemma_slot_is_row(ks@[ti as int].kind);
                }
                match (fp, tp) {
                    (Some((fp, _)), Some((tp, _))) => {
                        r.push((fi as u16, fp as u8, ti as u16, tp as u8));
                    },
                    _ => {
                        proof {
                            assert(false);
                        }
                    },
                }
            },
            _ => {
                proof {
                    assert(false);
                }
            },
        }
        t = t + 1;
    }
    r
}


/// The distinct `SignalOut` paths of the first `i` knots, in first-seen
/// order.
pub open spec fn paths_seen(ks: Seq<KnotDef>, i: int) -> Seq<Seq<char>>
    decreases i,
{
    if i <= 0 {
        Seq::empty()
    } else {
        let prev = paths_seen(ks, i - 1);
        match ks[i - 1].kind {
            KnotKind::SignalOut { path, .. } => if prev.contains(path@) {
                prev
            } else {
                prev.push(path@)
            },
            _ => prev,
        }
    }
}

/// The distinct `EmitCommand` names of the first `i` knots, in first-seen
/// order.
pub open spec fn cmds_seen(ks: Seq<KnotDef>, i: int) -> Seq<Seq<char>>
    decreases i,
{
    if i <= 0 {
        Seq::empty()
    } else {
        let prev = cmds_seen(ks, i - 1);
        match ks[i - 1].kind {
            KnotKind::EmitCommand { name } => if prev.contains(name@) {
                prev
            } else {
                prev.push(name@)
            },
            _ => prev,
        }
    }
}

/// A name list holds `name` exactly when the lookup finds it.
proof fn lemma_find_name_contains(names: Seq<String>, name: Seq<char>)
    ensures
        find_name(names, name) is Some <==> crate::validate::names_view(names).contains(name),
{
    lemma_find_name(names, name);
    let v = crate::validate::names_view(names);
    if v.contains(name) {
        let k = choose|k: int| 0 <= k < v.len() && v[k] == name;
        assert(names[k]@ == name);
    }
    if find_name(names, name) is Some {
        let j = find_name(names, name)->Some_0;
        assert(v[j] == name);
    }
}

/// Intern the host paths and command names of `ks`, in knot order.
fn build_name_tables(owner: u64, ks: &Vec<KnotDef>, weave_id: &str) -> (r: (Vec<String>, Vec<String>, Vec<u16>, Vec<u16>))
    requires
        ks@.len() <= MAX_DENSE,
    ensures
        ({
            let (paths, cmds, kp, kc) = r;
            &&& kp@.len() == ks@.len()
            &&& kc@.len() == ks@.len()
            &&& paths@.len() <= ks@.len()
            &&& cmds@.len() <= ks@.len()
            &&& forall|i: int| 0 <= i < ks@.len() ==> match #[trigger] ks@[i].kind {
                KnotKind::SignalOut { path, .. } => kp@[i] < paths@.len() && paths@[kp@[i] as int]@ == path@,
                KnotKind::EmitCommand { name } => kc@[i] < cmds@.len() && cmds@[kc@[i] as int]@ == name@,
                _ => true,
            }
            &&& forall|a: int, b: int| 0 <= a < b < paths@.len() ==> paths@[a]@ != paths@[b]@
            &&& forall|a: int, b: int| 0 <= a < b < cmds@.len() ==> cmds@[a]@ != cmds@[b]@
            &&& crate::validate::names_view(paths@) == paths_seen(ks@, ks@.len() as int)
            &&& crate::validate::names_view(cmds@) == cmds_seen(ks@, ks@.len() as int)
        }),
{
    let mut paths: Vec<String> = Vec::new();
    let mut cmds: Vec<String> = Vec::new();
    let mut kp: Vec<u16> = Vec::new();
    let mut kc: Vec<u16> = Vec::new();
    let mut i: usize = 0;
    while i < ks.len()
        invariant
            ks@.len() <= MAX_DENSE,
            i <= ks@.len(),
            kp@.len() == i,
            kc@.len() == i,
            paths@.len() <= i,
            cmds@.len() <= i,
            forall|j: int| 0 <= j < i ==> match #[trigger] ks@[j].kind {
                KnotKind::SignalOut { path, .. } => kp@[j] < paths@.len() && paths@[kp@[j] as int]@ == path@,
                KnotKind::EmitCommand { name } => kc@[j] < cmds@.len() && cmds@[kc@[j] as int]@ == name@,
                _ => true,
            },
            forall|a: int, b: int| 0 <= a < b < paths@.len() ==> paths@[a]@ != paths@[b]@,
            forall|a: int, b: int| 0 <= a < b < cmds@.len() ==> cmds@[a]@ != cmds@[b]@,
            crate::validate::names_view(paths@) == paths_seen(ks@, i as int),
            crate::validate::names_view(cmds@) == cmds_seen(ks@, i as int),
        decreases ks@.len() - i,
    {
        let ghost paths0 = paths@;
        let ghost cmds0 = cmds@;
        match &ks[i].kind {
            KnotKind::SignalOut { path, .. } => {
                proof {
                    lemma_find_name(paths@, path@);
                    lemma_find_name_contains(paths@, path@);
                }
                match intern_host_path(owner, path.as_str(), &mut paths, weave_id) {
                    Ok(id) => {
                        kp.push(id.index);
                        kc.push(0);
                        proof {
                            assert forall|a: int, b: int| 0 <= a < b < paths@.len() implies paths@[a]@ != paths@[b]@ by {
                                if b == paths0.len() {
                                    assert(paths@[a] == paths0[a]);
                                }
                            }
                        }
                    },
                    Err(_) => {
                        proof {
                            assert(false);
                        }
                        kp.push(0);
                        kc.push(0);
                    },
                }
            },
            KnotKind::EmitCommand { name } => {
                proof {
                    lemma_find_name(cmds@, name@);
                    lemma_find_name_contains(cmds@, name@);
                }
                match intern_command(owner, name.as_str(), &mut cmds, weave_id) {
                    Ok(id) => {
                        kp.push(0);
                        kc.push(id.index);
                        proof {
                            assert forall|a: int, b: int| 0 <= a < b < cmds@.len() implies cmds@[a]@ != cmds@[b]@ by {
                                if b == cmds0.len() {
                                    assert(cmds@[a] == cmds0[a]);
                                }
                            }
                        }
                    },
                    Err(_) => {
                        proof {
                            assert(false);
                        }
                        kp.push(0);
                        kc.push(0);
                    },
                }
            },
            _ => {
                kp.push(0);
                kc.push(0);
            },
        }
        proof {
            assert forall|j: int| 0 <= j < i + 1 implies match #[trigger] ks@[j].kind {
                KnotKind::SignalOut { path, .. } => kp@[j] < paths@.len() && paths@[kp@[j] as int]@ == path@,
                KnotKind::EmitCommand { name } => kc@[j] < cmds@.len() && cmds@[kc@[j] as int]@ == name@,
                _ => true,
            } by {
                if j < i {
                    match ks@[j].kind {
                        KnotKind::SignalOut { path, .. } => {
                            assert(paths@[kp@[j] as int] == paths0[kp@[j] as int]);
                        },
                        KnotKind::EmitCommand { name } => {
                            assert(cmds@[kc@[j] as int] == cmds0[kc@[j] as int]);
                        },
                        _ => {},
                    }
                } else {
                    match ks@[j].kind {
                        KnotKind::SignalOut { path, .. } => {
                            lemma_find_name(paths0, path@);
                        },
                        KnotKind::EmitCommand { name } => {
                            lemma_find_name(cmds0, name@);
                        },
                        _ => {},
                    }
                }
            }
        }
        proof {
            assert(crate::validate::names_view(paths@) =~= paths_seen(ks@, i + 1));
            assert(crate::validate::names_view(cmds@) =~= cmds_seen(ks@, i + 1));
        }
        i = i + 1;
    }
    (paths, cmds, kp, kc)
}


/// The (from knot, from slot, to slot) an inbound table entry records for a
/// resolved thread.
pub open spec fn inbound_entry(t: (u16, u8, u16, u8)) -> (u16, u8, u8) {
    (t.0, t.1, t.3)
}

/// The inbound entries of knot `k` among the first `t` threads, in thread
/// order.
pub open spec fn into_prefix(threads: Seq<(u16, u8, u16, u8)>, k: int, t: int) -> Seq<(u16, u8, u8)>
    decreases t,
{
    if t <= 0 {
        Seq::empty()
    } else {
        let p = into_prefix(threads, k, t - 1);
        if threads[t - 1].2 == k {
            p.push(inbound_entry(threads[t - 1]))
        } else {
            p
        }
    }
}

/// The inbound entries of knot `k`, in thread order.
pub open spec fn inbound_of(threads: Seq<(u16, u8, u16, u8)>, k: int) -> Seq<(u16, u8, u8)> {
    into_prefix(threads, k, threads.len() as int)
}

/// Group resolved threads by target knot.
fn build_inbound(n: usize, threads: &Vec<(u16, u8, u16, u8)>) -> (r: Vec<Vec<(u16, u8, u8)>>)
    requires
        n <= MAX_DENSE,
    ensures
        r@.len() == n,
        forall|k: int| 0 <= k < n ==> (#[trigger] r@[k])@ == inbound_of(threads@, k),
{
    let mut r: Vec<Vec<(u16, u8, u8)>> = Vec::new();
    let mut k: usize = 0;
    while k < n
        invariant
            k <= n,
            r@.len() == k,
            forall|q: int| 0 <= q < k ==> (#[trigger] r@[q])@ == inbound_of(threads@, q),
        decreases n - k,
    {
        let mut list: Vec<(u16, u8, u8)> = Vec::new();
        let mut t: usize = 0;
        while t < threads.len()
            invariant
                t <= threads@.len(),
                list@ == into_prefix(threads@, k as int, t as int),
            decreases threads@.len() - t,
        {
            let th = threads[t];
            if th.2 as usize == k {
                list.push((th.0, th.1, th.3));
            }
            t = t + 1;
        }
        r.push(list);
        k = k + 1;
    }
    r
}

/// Prefix monotonicity of a table whose consecutive entries do not decrease.
proof fn lemma_monotone_prefix(off: Seq<u32>, k: int, a: int, b: int)
    requires
        0 <= a <= b <= k,
        k < off.len(),
        forall|q: int| 0 <= q < k ==> #[trigger] off[q] <= off[q + 1],
    ensures
        off[a] <= off[b],
    decreases b - a,
{
    if a < b {
        lemma_monotone_prefix(off, k, a + 1, b);
        assert(off[a] <= off[a + 1]);
    }
}


/// Some inbound entry feeds slot `slot`.
pub open spec fn wired_slot(entries: Seq<(u16, u8, u8)>, slot: u8) -> bool {
    exists|j: int| 0 <= j < entries.len() && (#[trigger] entries[j]).2 == slot
}

fn find_wired(entries: &Vec<(u16, u8, u8)>, slot: u8) -> (r: Option<usize>)
    ensures
        match r {
            Some(j) => j < entries@.len() && entries@[j as int].2 == slot,
            None => !wired_slot(entries@, slot),
        },
{
    let mut j: usize = 0;
    while j < entries.len()
        invariant
            j <= entries@.len(),
            forall|q: int| 0 <= q < j ==> (#[trigger] entries@[q]).2 != slot,
        decreases entries@.len() - j,
    {
        if entries[j].2 == slot {
            return Some(j);
        }
        j = j + 1;
    }
    None
}

/// The tag of knot kind `kind` refined by its wiring.
pub open spec fn tag_refines(tag: KindTag, kind: KnotKind, entries: Seq<(u16, u8, u8)>) -> bool {
    match kind {
        KnotKind::EmitCommand { .. } => tag == KindTag::EmitCommand { enable_wired: wired_slot(entries, 1) },
        KnotKind::Random { domain, require_gate } => if domain == SignalDomain::Count {
            tag == KindTag::RandomCount { require_gate, min_wired: wired_slot(entries, 0), max_wired: wired_slot(entries, 1) }
        } else {
            tag == KindTag::RandomLevel { require_gate, min_wired: wired_slot(entries, 0), max_wired: wired_slot(entries, 1) }
        },
        KnotKind::Calc { domain, op: crate::catalog::CalcOp::Div } => if domain == SignalDomain::Count {
            tag is CalcDivCount || tag is CalcDivCountConst
        } else {
            tag is CalcDivLevel || tag is CalcDivLevelConst
        },
        _ => tag.tags_kind(kind),
    }
}

/// Seeded knots of `ks` are exactly listed.
pub open spec fn seeds_match(seeds: Seq<SenseSeed>, ks: Seq<KnotDef>) -> bool {
    &&& forall|j: int| 0 <= j < seeds.len() ==> (#[trigger] seeds[j]).kid() < ks.len() && match seeds[j] {
        SenseSeed::Constant { kid, value } => ks[kid as int].kind matches KnotKind::Constant { value: v, .. } && v == value,
        SenseSeed::SignalIn { kid } => ks[kid as int].kind is SignalIn,
        SenseSeed::OnStart { kid } => ks[kid as int].kind is OnStart,
    }
    &&& forall|k: int|
        0 <= k < ks.len() && (ks[k].kind is Constant || ks[k].kind is SignalIn || ks[k].kind is OnStart) ==> exists|j: int|
            0 <= j < seeds.len() && #[trigger] seeds[j].kid() == k
}

/// Slot `p` of knot `k` is an input fed by no thread, zeroed before every
/// settle.
pub open spec fn clear_slot(ks: Seq<KnotDef>, inbound: Seq<Seq<(u16, u8, u8)>>, k: int, p: int) -> bool {
    &&& 0 <= p < port_table(ks[k].kind).len()
    &&& port_table(ks[k].kind)[p].dir == PortDir::In
    &&& !wired_slot(inbound[k], p as u8)
}

/// Number of set flags among the first `m`.
pub open spec fn count_set(mask: Seq<bool>, m: int) -> nat
    decreases m,
{
    if m <= 0 {
        0
    } else {
        count_set(mask, m - 1) + if mask[m - 1] {
            1nat
        } else {
            0nat
        }
    }
}

pub proof fn lemma_count_set_prefix(a: Seq<bool>, b: Seq<bool>, m: int)
    requires
        0 <= m <= a.len(),
        m <= b.len(),
        forall|i: int| 0 <= i < m ==> a[i] == b[i],
    ensures
        count_set(a, m) == count_set(b, m),
    decreases m,
{
    if m > 0 {
        lemma_count_set_prefix(a, b, m - 1);
    }
}

/// Build the clear mask, the refined dispatch tags and the seed list.
fn build_dispatch(ks: &Vec<KnotDef>, inbound: &Vec<Vec<(u16, u8, u8)>>) -> (r: (Vec<bool>, usize, Vec<KindTag>, Vec<SenseSeed>))
    requires
        0 < ks@.len() <= MAX_DENSE,
        inbound@.len() == ks@.len(),
        forall|k: int, j: int|
            0 <= k < ks@.len() && 0 <= j < inbound@[k]@.len() ==> (#[trigger] inbound@[k]@[j]).0 < ks@.len(),
        forall|k: int| 0 <= k < ks@.len() ==> crate::validate::param_fault(#[trigger] ks@[k].kind) is None,
    ensures
        ({
            let (mask, count, tags, seeds) = r;
            let iv = inbound@.map_values(|v: Vec<(u16, u8, u8)>| v@);
            &&& mask@.len() == ks@.len() * MAX_PORTS
            &&& forall|k: int, p: int|
                0 <= k < ks@.len() && 0 <= p < MAX_PORTS ==> #[trigger] mask@[port_index(k, p)] == clear_slot(ks@, iv, k, p)
            &&& count == count_set(mask@, mask@.len() as int)
            &&& tags@.len() == ks@.len()
            &&& forall|k: int| 0 <= k < ks@.len() ==> (#[trigger] tags@[k]).wf()
            &&& forall|k: int| 0 <= k < ks@.len() ==> tag_refines(#[trigger] tags@[k], ks@[k].kind, inbound@[k]@)
            &&& forall|k: int| 0 <= k < ks@.len() ==> ((#[trigger] tags@[k]) is Sense <==> (ks@[k].kind is Constant
                || ks@[k].kind is SignalIn || ks@[k].kind is OnStart))
            &&& forall|k: int| 0 <= k < ks@.len() ==> ((#[trigger] tags@[k]) is SignalOut <==> ks@[k].kind is SignalOut)
            &&& forall|k: int| 0 <= k < ks@.len() ==> ((#[trigger] tags@[k]) is EmitCommand <==> ks@[k].kind is EmitCommand)
            &&& forall|k: int| 0 <= k < ks@.len() ==> ((#[trigger] tags@[k]) matches KindTag::Delay { ticks } ==> ks@[k].kind
                == KnotKind::Delay { ticks })
            &&& seeds_match(seeds@, ks@)
            &&& forall|a: int, b: int| 0 <= a < b < seeds@.len() ==> #[trigger] seeds@[a].kid() < #[trigger] seeds@[b].kid()
        }),
{
    let n = ks.len();
    let ghost iv = inbound@.map_values(|v: Vec<(u16, u8, u8)>| v@);
    let mut mask: Vec<bool> = Vec::new();
    let mut count: usize = 0;
    let mut tags: Vec<KindTag> = Vec::new();
    let mut seeds: Vec<SenseSeed> = Vec::new();
    let mut k: usize = 0;
    while k < n
        invariant
            n == ks@.len(),
            0 < n <= MAX_DENSE,
            inbound@.len() == n,
            iv == inbound@.map_values(|v: Vec<(u16, u8, u8)>| v@),
            forall|k: int, j: int| 0 <= k < n && 0 <= j < inbound@[k]@.len() ==> (#[trigger] inbound@[k]@[j]).0 < n,
            forall|k: int| 0 <= k < n ==> crate::validate::param_fault(#[trigger] ks@[k].kind) is None,
            k <= n,
            mask@.len() == k * MAX_PORTS,
            forall|q: int, p: int| 0 <= q < k && 0 <= p < MAX_PORTS ==> #[trigger] mask@[port_index(q, p)] == clear_slot(ks@, iv, q, p),
            count == count_set(mask@, mask@.len() as int),
            count <= mask@.len(),
            tags@.len() == k,
            forall|q: int| 0 <= q < k ==> (#[trigger] tags@[q]).wf(),
            forall|q: int| 0 <= q < k ==> tag_refines(#[trigger] tags@[q], ks@[q].kind, inbound@[q]@),
            forall|q: int| 0 <= q < k ==> ((#[trigger] tags@[q]) is Sense <==> (ks@[q].kind is Constant
                || ks@[q].kind is SignalIn || ks@[q].kind is OnStart)),
            forall|q: int| 0 <= q < k ==> ((#[trigger] tags@[q]) is SignalOut <==> ks@[q].kind is SignalOut),
            forall|q: int| 0 <= q < k ==> ((#[trigger] tags@[q]) is EmitCommand <==> ks@[q].kind is EmitCommand),
            forall|q: int| 0 <= q < k ==> ((#[trigger] tags@[q]) matches KindTag::Delay { ticks } ==> ks@[q].kind
                == KnotKind::Delay { ticks }),
            forall|j: int| 0 <= j < seeds@.len() ==> (#[trigger] seeds@[j]).kid() < k && match seeds@[j] {
                SenseSeed::Constant { kid, value } => ks@[kid as int].kind matches KnotKind::Constant { value: v, .. } && v == value,
                SenseSeed::SignalIn { kid } => ks@[kid as int].kind is SignalIn,
                SenseSeed::OnStart { kid } => ks@[kid as int].kind is OnStart,
            },
            forall|q: int|
                0 <= q < k && (ks@[q].kind is Constant || ks@[q].kind is SignalIn || ks@[q].kind is OnStart) ==> exists|j: int|
                    0 <= j < seeds@.len() && #[trigger] seeds@[j].kid() == q,
            forall|a: int, b: int| 0 <= a < b < seeds@.len() ==> #[trigger] seeds@[a].kid() < #[trigger] seeds@[b].kid(),
        decreases n - k,
    {
        let kind = &ks[k].kind;
        let entries = &inbound[k];
        proof {
            assert(iv[k as int] == entries@);
            crate::catalog::lemma_slot_is_row(*kind);
        }
        // Unwired inputs are zeroed before every settle.
        let ports = ports_of(kind);
        let mut p: usize = 0;
        while p < MAX_PORTS
            invariant
                n == ks@.len(),
                0 < n <= MAX_DENSE,
                k < n,
                *kind == ks@[k as int].kind,
                iv[k as int] == entries@,
                crate::catalog::ports_match(ports@, port_table(*kind)),
                ports@.len() <= 5,
                forall|q: int| 0 <= q < port_table(*kind).len() ==> #[trigger] port_table(*kind)[q].slot == q,
                p <= MAX_PORTS,
                mask@.len() == k * MAX_PORTS + p,
                forall|q: int, pp: int| 0 <= q < k && 0 <= pp < MAX_PORTS ==> #[trigger] mask@[port_index(q, pp)] == clear_slot(ks@, iv, q, pp),
                forall|pp: int| 0 <= pp < p ==> #[trigger] mask@[port_index(k as int, pp)] == clear_slot(ks@, iv, k as int, pp),
                count == count_set(mask@, mask@.len() as int),
                count <= mask@.len(),
            decreases MAX_PORTS - p,
        {
            let mut flag = false;
            if p < ports.len() {
                let info = ports[p];
                proof {
                    assert(info.spec() == port_table(*kind)[p as int]);
                }
                let is_in = match info.dir {
                    PortDir::In => true,
                    PortDir::Out => false,
                };
                if is_in && find_wired(entries, p as u8).is_none() {
                    flag = true;
                }
            }
            let ghost before = mask@;
            mask.push(flag);
            if flag {
                count = count + 1;
            }
            proof {
                lemma_count_set_prefix(mask@, before, before.len() as int);
                assert(mask@[port_index(k as int, p as int)] == flag);
                assert(flag == clear_slot(ks@, iv, k as int, p as int));
                assert(mask@.drop_last() =~= before);
                assert forall|q: int, pp: int| 0 <= q < k && 0 <= pp < MAX_PORTS implies #[trigger] mask@[port_index(q, pp)]
                    == clear_slot(ks@, iv, q, pp) by {
                    assert(port_index(q, pp) < before.len());
                    assert(mask@[port_index(q, pp)] == before[port_index(q, pp)]);
                }
                assert forall|pp: int| 0 <= pp < p + 1 implies #[trigger] mask@[port_index(k as int, pp)] == clear_slot(
                    ks@,
                    iv,
                    k as int,
                    pp,
                ) by {
                    if pp < p {
                        assert(mask@[port_index(k as int, pp)] == before[port_index(k as int, pp)]);
                    }
                }
            }
            p = p + 1;
        }
        // Dispatch tag, refined by wiring.
        let base = tag_from_kind(kind);
        let tag = match kind {
            KnotKind::EmitCommand { .. } => KindTag::EmitCommand { enable_wired: find_wired(entries, 1).is_some() },
            KnotKind::Random { domain, require_gate } => {
                let min_wired = find_wired(entries, 0).is_some();
                let max_wired = find_wired(entries, 1).is_some();
                match domain {
                    SignalDomain::Count => KindTag::RandomCount { require_gate: *require_gate, min_wired, max_wired },
                    _ => KindTag::RandomLevel { require_gate: *require_gate, min_wired, max_wired },
                }
            },
            KnotKind::Calc { domain, op: crate::catalog::CalcOp::Div } => {
                match find_wired(entries, 1) {
                    Some(j) => {
                        let from = entries[j].0 as usize;
                        match &ks[from].kind {
                            KnotKind::Constant { value, .. } => match domain {
                                SignalDomain::Count => KindTag::CalcDivCountConst { divisor: *value },
                                _ => KindTag::CalcDivLevelConst { divisor: *value },
                            },
                            _ => base,
                        }
                    },
                    None => base,
                }
            },
            _ => base,
        };
        tags.push(tag);
        // Seeds.
        let ghost seeds0 = seeds@;
        match kind {
            KnotKind::Constant { value, .. } => {
                seeds.push(SenseSeed::Constant { kid: k as u16, value: *value });
            },
            KnotKind::SignalIn { .. } => {
                seeds.push(SenseSeed::SignalIn { kid: k as u16 });
            },
            KnotKind::OnStart => {
                seeds.push(SenseSeed::OnStart { kid: k as u16 });
            },
            _ => {},
        }
        proof {
            assert forall|q: int|
                0 <= q < k + 1 && (ks@[q].kind is Constant || ks@[q].kind is SignalIn || ks@[q].kind is OnStart) implies exists|j: int|
                    0 <= j < seeds@.len() && #[trigger] seeds@[j].kid() == q by {
                if q < k {
                    let j = choose|j: int| 0 <= j < seeds0.len() && #[trigger] seeds0[j].kid() == q;
                    assert(seeds@[j] == seeds0[j]);
                } else {
                    assert(seeds@[seeds0.len() as int].kid() == q);
                }
            }
        }
        k = k + 1;
    }
    (mask, count, tags, seeds)
}


/// `e` reports that the delay buffer overflowed while binding `weave_id`.
pub open spec fn is_delay_capacity_error(e: BindError, weave_id: Seq<char>) -> bool {
    match e {
        BindError::CapacityExceeded { weave_id: w, resource: r, .. } => w@ == weave_id && r@ == "delay buffer"@,
        _ => false,
    }
}

/// Delay ring slots of a knot kind.
pub open spec fn ring_len(kind: KnotKind) -> nat {
    match kind {
        KnotKind::Delay { ticks } => ticks as nat,
        _ => 0,
    }
}

/// Delay ring slots of the first `m` knots.
pub open spec fn delay_prefix(ks: Seq<KnotDef>, m: int) -> nat
    decreases m,
{
    if m <= 0 {
        0
    } else {
        delay_prefix(ks, m - 1) + ring_len(ks[m - 1].kind)
    }
}

proof fn lemma_delay_prefix_monotone(ks: Seq<KnotDef>, a: int, b: int)
    requires
        0 <= a <= b,
    ensures
        delay_prefix(ks, a) <= delay_prefix(ks, b),
    decreases b - a,
{
    if a < b {
        lemma_delay_prefix_monotone(ks, a, b - 1);
    }
}

/// Lay out the delay rings of `ks` in one buffer.
fn build_delays(ks: &Vec<KnotDef>, weave_id: &str) -> (r: Result<(usize, Vec<u16>, Vec<u16>), BindError>)
    ensures
        match r {
            Ok((total, off, len)) => {
                &&& total == delay_prefix(ks@, ks@.len() as int)
                &&& total <= MAX_DENSE
                &&& off@.len() == ks@.len()
                &&& len@.len() == ks@.len()
                &&& forall|k: int| 0 <= k < ks@.len() ==> match #[trigger] ks@[k].kind {
                    KnotKind::Delay { ticks } => ticks > 0 ==> len@[k] == ticks && off@[k] + ticks <= total,
                    _ => true,
                }
            },
            Err(e) => delay_prefix(ks@, ks@.len() as int) > MAX_DENSE && is_delay_capacity_error(e, weave_id@),
        },
{
    let n = ks.len();
    let mut total: usize = 0;
    let mut off: Vec<u16> = Vec::new();
    let mut len: Vec<u16> = Vec::new();
    let mut k: usize = 0;
    while k < n
        invariant
            n == ks@.len(),
            k <= n,
            total == delay_prefix(ks@, k as int),
            total <= MAX_DENSE,
            off@.len() == k,
            len@.len() == k,
            forall|q: int| 0 <= q < k ==> match #[trigger] ks@[q].kind {
                KnotKind::Delay { ticks } => ticks > 0 ==> len@[q] == ticks && off@[q] + ticks <= total,
                _ => true,
            },
        decreases n - k,
    {
        match &ks[k].kind {
            KnotKind::Delay { ticks } => {
                if *ticks > 0 {
                    match delay_buffer_layout(total, *ticks as usize, weave_id) {
                        Ok((o, new_total)) => {
                            off.push(o);
                            len.push(*ticks);
                            total = new_total;
                        },
                        Err(e) => {
                            proof {
                                lemma_delay_prefix_monotone(ks@, k + 1, n as int);
                            }
                            return Err(e);
                        },
                    }
                } else {
                    off.push(0);
                    len.push(0);
                }
            },
            _ => {
                off.push(0);
                len.push(0);
            },
        }
        k = k + 1;
    }
    Ok((total, off, len))
}

/// A vector of `n` copies of `v`.
fn filled<T: Copy>(n: usize, v: T) -> (r: Vec<T>)
    ensures
        r@.len() == n,
        forall|i: int| 0 <= i < n ==> #[trigger] r@[i] == v,
{
    let mut r: Vec<T> = Vec::new();
    let mut i: usize = 0;
    while i < n
        invariant
            i <= n,
            r@.len() == i,
            forall|j: int| 0 <= j < i ==> #[trigger] r@[j] == v,
        decreases n - i,
    {
        r.push(v);
        i = i + 1;
    }
    r
}


/// The (from knot, to knot) edges of resolved threads.
pub open spec fn thread_edges(threads: Seq<(u16, u8, u16, u8)>) -> Seq<(usize, usize)> {
    threads.map_values(|t: (u16, u8, u16, u8)| (t.0 as usize, t.2 as usize))
}

/// The edges of `e` that join two different knots, in order.
pub open spec fn loop_free(e: Seq<(usize, usize)>) -> Seq<(usize, usize)>
    decreases e.len(),
{
    if e.len() == 0 {
        e
    } else if e.last().0 != e.last().1 {
        loop_free(e.drop_last()).push(e.last())
    } else {
        loop_free(e.drop_last())
    }
}

/// Edges that never join a knot to itself are all kept.
pub proof fn lemma_loop_free_id(e: Seq<(usize, usize)>)
    requires
        forall|k: int| 0 <= k < e.len() ==> (#[trigger] e[k]).0 != e[k].1,
    ensures
        loop_free(e) == e,
    decreases e.len(),
{
    if e.len() > 0 {
        lemma_loop_free_id(e.drop_last());
        assert(e.drop_last().push(e.last()) =~= e);
    }
}

/// A topological order of the `n` knots under `threads` (Kahn), or `None`
/// when the threads form a cycle. A thread from a knot to itself orders
/// nothing and is left out.
pub fn topo_order(n: usize, threads: &Vec<(u16, u8, u16, u8)>) -> (r: Option<Vec<u16>>)
    requires
        n <= MAX_DENSE + 1,
        threads@.len() < u32::MAX,
        forall|u: int| 0 <= u < threads@.len() ==> (#[trigger] threads@[u]).0 < n && threads@[u].2 < n,
    ensures
        r is Some <==> acyclic(n as nat, loop_free(thread_edges(threads@))),
        r matches Some(order) ==> {
            &&& order@.len() == n
            &&& forall|q: int| 0 <= q < n ==> (#[trigger] order@[q]) < n
            &&& forall|a: int, b: int| 0 <= a < b < n ==> #[trigger] order@[a] != #[trigger] order@[b]
            &&& forall|u: int, a: int, b: int|
                #![trigger threads@[u], order@[a], order@[b]]
                0 <= u < threads@.len() && 0 <= a < n && 0 <= b < n && threads@[u].0 != threads@[u].2 && order@[a]
                    == threads@[u].0 && order@[b] == threads@[u].2 ==> a < b
        },
{
    let ghost te = thread_edges(threads@);
    let mut edges: Vec<(usize, usize)> = Vec::new();
    let mut t: usize = 0;
    while t < threads.len()
        invariant
            t <= threads@.len(),
            te == thread_edges(threads@),
            te.len() == threads@.len(),
            edges@ == loop_free(te.subrange(0, t as int)),
            edges@.len() <= t,
            forall|u: int| 0 <= u < threads@.len() ==> (#[trigger] threads@[u]).0 < n && threads@[u].2 < n,
            forall|k: int| 0 <= k < edges@.len() ==> (#[trigger] edges@[k]).0 != edges@[k].1 && edges@[k].0 < n && edges@[k].1 < n,
            forall|u: int|
                0 <= u < t && (#[trigger] te[u]).0 != te[u].1 ==> exists|k: int| 0 <= k < edges@.len() && edges@[k] == te[u],
        decreases threads@.len() - t,
    {
        let (a, _, b, _) = threads[t];
        let ghost old_edges = edges@;
        proof {
            assert(te[t as int] == (a as usize, b as usize));
            assert(te.subrange(0, t + 1).drop_last() =~= te.subrange(0, t as int));
        }
        if a != b {
            edges.push((a as usize, b as usize));
            proof {
                assert forall|u: int| 0 <= u < t + 1 && (#[trigger] te[u]).0 != te[u].1 implies exists|k: int|
                    0 <= k < edges@.len() && edges@[k] == te[u] by {
                    if u < t {
                        let k = choose|k: int| 0 <= k < old_edges.len() && old_edges[k] == te[u];
                        assert(edges@[k] == old_edges[k]);
                    } else {
                        assert(edges@[old_edges.len() as int] == te[u]);
                    }
                }
            }
        }
        t = t + 1;
    }
    assert(te.subrange(0, threads@.len() as int) =~= te);
    assert(no_self_loops(edges@));
    assert(edges_in_range(n as nat, edges@));
    let (order, pos) = topo_sort(n, &edges);
    if order.len() != n {
        return None;
    }
    let mut topo: Vec<u16> = Vec::new();
    let mut i: usize = 0;
    while i < n
        invariant
            n <= MAX_DENSE + 1,
            order@.len() == n,
            forall|q: int| 0 <= q < n ==> (#[trigger] order@[q]) < n,
            i <= n,
            topo@.len() == i,
            forall|q: int| 0 <= q < i ==> (#[trigger] topo@[q]) as usize == order@[q] && topo@[q] < n,
        decreases n - i,
    {
        topo.push(order[i] as u16);
        i = i + 1;
    }
    proof {
        let rank = pos@.map_values(|p: usize| p as int);
        assert forall|a: int, b: int| 0 <= a < b < n implies #[trigger] topo@[a] != #[trigger] topo@[b] by {
            assert(pos@[order@[a] as int] == a);
            assert(pos@[order@[b] as int] == b);
        }
        assert forall|u: int, a: int, b: int|
            #![trigger threads@[u], topo@[a], topo@[b]]
            0 <= u < threads@.len() && 0 <= a < n && 0 <= b < n && threads@[u].0 != threads@[u].2 && topo@[a]
                == threads@[u].0 && topo@[b] == threads@[u].2 implies a < b by {
            assert(te[u] == (threads@[u].0 as usize, threads@[u].2 as usize));
            let k = choose|k: int| 0 <= k < edges@.len() && edges@[k] == te[u];
            assert(rank[edges@[k].0 as int] < rank[edges@[k].1 as int]);
            assert(pos@[order@[a] as int] == a);
            assert(pos@[order@[b] as int] == b);
        }
    }
    Some(topo)
}

proof fn lemma_into_prefix_bounds(threads: Seq<(u16, u8, u16, u8)>, k: int, t: int, n: nat)
    requires
        0 <= t <= threads.len(),
        forall|u: int| 0 <= u < threads.len() ==> (#[trigger] threads[u]).0 < n && threads[u].1 < MAX_PORTS && threads[u].3 < MAX_PORTS,
    ensures
        forall|j: int| 0 <= j < into_prefix(threads, k, t).len() ==> (#[trigger] into_prefix(threads, k, t)[j]).0 < n
            && into_prefix(threads, k, t)[j].1 < MAX_PORTS && into_prefix(threads, k, t)[j].2 < MAX_PORTS,
    decreases t,
{
    if t > 0 {
        lemma_into_prefix_bounds(threads, k, t - 1, n);
        let p = into_prefix(threads, k, t - 1);
        if threads[t - 1].2 == k {
            assert forall|j: int| 0 <= j < into_prefix(threads, k, t).len() implies (#[trigger] into_prefix(threads, k, t)[j]).0 < n
                && into_prefix(threads, k, t)[j].1 < MAX_PORTS && into_prefix(threads, k, t)[j].2 < MAX_PORTS by {
                if j < p.len() {
                    assert(into_prefix(threads, k, t)[j] == p[j]);
                }
            }
        }
    }
}

/// Per-knot state and the frame outbox are all at their initial values.
pub open(crate) spec fn fresh_state(rt: Runtime) -> bool {
    let n = rt.knots@.len();
    &&& rt.tick == 0
    &&& rt.phase == 0
    &&& rt.out_signals@.len() == 0
    &&& rt.out_emits@.len() == 0
    &&& rt.dropped_emits == 0
    &&& forall|i: int| 0 <= i < n ==> #[trigger] rt.sense_values@[i] == ZERO
    &&& forall|i: int| 0 <= i < n * MAX_PORTS ==> #[trigger] rt.port_vals@[i] == ZERO
    &&& forall|i: int| 0 <= i < n ==> #[trigger] rt.prev_in@[i] == ZERO
    &&& forall|i: int| 0 <= i < n ==> #[trigger] rt.prev_dec@[i] == ZERO
    &&& forall|i: int| 0 <= i < n ==> #[trigger] rt.counter@[i] == 0
    &&& forall|i: int| 0 <= i < n ==> !#[trigger] rt.flag@[i]
    &&& forall|i: int| 0 <= i < n ==> #[trigger] rt.timer_left@[i] == 0
    &&& forall|i: int| 0 <= i < n ==> !#[trigger] rt.on_start_done@[i]
    &&& forall|i: int| 0 <= i < n ==> #[trigger] rt.delay_head@[i] == 0
    &&& forall|i: int| 0 <= i < rt.delay_buf@.len() ==> #[trigger] rt.delay_buf@[i] == ZERO
}

/// `rt` is a freshly bound runtime of `weave` under `opts`.
pub open(crate) spec fn bound_from(rt: Runtime, weave: Weave, opts: BindOpts) -> bool {
    &&& budget_fault(weave.spec_knots(), weave.spec_threads(), opts.budget) is None
    &&& delay_prefix(weave.spec_knots(), weave.spec_knots().len() as int) <= MAX_DENSE
    &&& rt.wf()
    &&& rt.spec_knots() == weave.spec_knots()
    &&& tables_built(rt, weave.spec_knots(), weave.spec_threads())
    &&& fresh_state(rt)
    &&& rt.spec_max_emits() == opts.max_emits_per_tick
    &&& rt.spec_rng() == spec_rng_state(base_seed(opts), rt.spec_seed_mix())
    &&& rt.spec_seed_mix() == spec_fnv1a64(encode_utf8(weave.spec_id()))
    &&& rt.spec_bind_seed() == match opts.seed {
        Some(s) => Some(s.0),
        None => None::<u64>,
    }
}

/// The resolved thread `x` is the thread `th` among the knots `ks`: its
/// source and target (knot, slot).
pub open spec fn thread_resolved(ks: Seq<KnotDef>, th: ThreadDef, x: (u16, u8, u16, u8)) -> bool {
    &&& crate::validate::source_of(ks, th) == Some((x.0 as int, x.1 as int))
    &&& crate::validate::target_of(ks, th) == Some((x.2 as int, x.3 as int))
}

/// The dense tables of `rt` are those built from the knots `ks` and threads
/// `ts`: resolved threads in order, inbound lists per target, the mask of
/// unwired inputs, a topological order, the seeded knots, and the interned
/// host paths and commands in first-seen order.
pub open(crate) spec fn tables_built(rt: Runtime, ks: Seq<KnotDef>, ts: Seq<ThreadDef>) -> bool {
    let n = ks.len();
    &&& rt.threads@.len() == ts.len()
    &&& forall|t: int| 0 <= t < ts.len() ==> thread_resolved(ks, ts[t], #[trigger] rt.threads@[t])
    &&& forall|k: int| 0 <= k < n ==> (#[trigger] rt.inbound@[k])@ == inbound_of(rt.threads@, k)
    &&& forall|k: int, p: int|
        0 <= k < n && 0 <= p < MAX_PORTS ==> #[trigger] rt.clear_mask@[port_index(k, p)] == clear_slot(
            ks,
            rt.inbound@.map_values(|v: Vec<(u16, u8, u8)>| v@),
            k,
            p,
        )
    &&& rt.clear_count == count_set(rt.clear_mask@, rt.clear_mask@.len() as int)
    &&& forall|a: int, b: int| 0 <= a < b < n ==> #[trigger] rt.topo@[a] != #[trigger] rt.topo@[b]
    &&& forall|u: int, a: int, b: int|
        #![trigger rt.threads@[u], rt.topo@[a], rt.topo@[b]]
        0 <= u < ts.len() && 0 <= a < n && 0 <= b < n && rt.threads@[u].0 != rt.threads@[u].2 && rt.topo@[a]
            == rt.threads@[u].0 && rt.topo@[b] == rt.threads@[u].2 ==> a < b
    &&& forall|k: int| 0 <= k < n ==> ((#[trigger] rt.tags@[k]) is Sense <==> (ks[k].kind is Constant || ks[k].kind is SignalIn
        || ks[k].kind is OnStart))
    &&& forall|k: int| 0 <= k < n ==> ((#[trigger] rt.tags@[k]) is SignalOut <==> ks[k].kind is SignalOut)
    &&& forall|k: int| 0 <= k < n ==> ((#[trigger] rt.tags@[k]) is EmitCommand <==> ks[k].kind is EmitCommand)
    &&& seeds_match(rt.sense_seeds@, ks)
    &&& forall|i: int| 0 <= i < n ==> match #[trigger] ks[i].kind {
        KnotKind::SignalOut { path, .. } => rt.knot_path@[i] < rt.path_names@.len() && rt.path_names@[rt.knot_path@[i] as int]@ == path@,
        KnotKind::EmitCommand { name } => rt.knot_cmd@[i] < rt.cmd_names@.len() && rt.cmd_names@[rt.knot_cmd@[i] as int]@ == name@,
        _ => true,
    }
    &&& crate::validate::names_view(rt.path_names@) == paths_seen(ks, n as int)
    &&& crate::validate::names_view(rt.cmd_names@) == cmds_seen(ks, n as int)
}

/// Name lists with the same characters encode alike.
proof fn lemma_names_bytes_views(a: Seq<String>, b: Seq<String>)
    requires
        crate::validate::names_view(a) == crate::validate::names_view(b),
    ensures
        crate::fingerprint::names_bytes(a) == crate::fingerprint::names_bytes(b),
    decreases a.len(),
{
    assert(a.len() == crate::validate::names_view(a).len());
    assert(b.len() == crate::validate::names_view(b).len());
    if a.len() > 0 {
        assert(crate::validate::names_view(a.drop_last()) =~= crate::validate::names_view(b.drop_last())) by {
            assert forall|i: int| 0 <= i < a.len() - 1 implies crate::validate::names_view(a.drop_last())[i]
                == crate::validate::names_view(b.drop_last())[i] by {
                assert(crate::validate::names_view(a)[i] == crate::validate::names_view(b)[i]);
            }
        }
        lemma_names_bytes_views(a.drop_last(), b.drop_last());
        assert(crate::validate::names_view(a)[a.len() - 1] == crate::validate::names_view(b)[a.len() - 1]);
    }
}

/// Binding one weave twice under the same options resolves the same
/// threads, interns the same names and yields the same fingerprint: the
/// fingerprint is a function of the weave and the options.
pub proof fn lemma_bind_fingerprint_determined(a: Runtime, b: Runtime, weave: Weave, opts: BindOpts)
    requires
        bound_from(a, weave, opts),
        bound_from(b, weave, opts),
    ensures
        a.spec_threads() == b.spec_threads(),
        crate::validate::names_view(a.spec_path_names()) == crate::validate::names_view(b.spec_path_names()),
        crate::validate::names_view(a.spec_cmd_names()) == crate::validate::names_view(b.spec_cmd_names()),
        a.spec_fingerprint() == b.spec_fingerprint(),
{
    let ks = weave.spec_knots();
    let ts = weave.spec_threads();
    assert forall|t: int| 0 <= t < ts.len() implies a.threads@[t] == b.threads@[t] by {
        assert(thread_resolved(ks, ts[t], a.threads@[t]));
        assert(thread_resolved(ks, ts[t], b.threads@[t]));
    }
    assert(a.threads@ =~= b.threads@);
    lemma_names_bytes_views(a.path_names@, b.path_names@);
    lemma_names_bytes_views(a.cmd_names@, b.cmd_names@);
    assert(a.path_names@.len() == crate::validate::names_view(a.path_names@).len());
    assert(b.path_names@.len() == crate::validate::names_view(b.path_names@).len());
    assert(a.cmd_names@.len() == crate::validate::names_view(a.cmd_names@).len());
    assert(b.cmd_names@.len() == crate::validate::names_view(b.cmd_names@).len());
    assert(crate::fingerprint::fingerprint_bytes(
        a.knots@,
        a.threads@,
        a.path_names@,
        a.cmd_names@,
        a.max_emits_per_tick,
        a.seed_mix,
        a.bind_seed,
    ) == crate::fingerprint::fingerprint_bytes(
        b.knots@,
        b.threads@,
        b.path_names@,
        b.cmd_names@,
        b.max_emits_per_tick,
        b.seed_mix,
        b.bind_seed,
    ));
}

/// `e` is an error that binding `weave` under `opts` may report: the
/// validation fault if there is one, else the delay-ring capacity error.
pub open(crate) spec fn bind_refused(weave: Weave, opts: BindOpts, e: BindError) -> bool {
    match budget_fault(weave.spec_knots(), weave.spec_threads(), opts.budget) {
        Some(f) => e matches BindError::InvalidWeave { weave_id, source } && weave_id@ == weave.spec_id() && source@ == f,
        None => is_delay_capacity_error(e, weave.spec_id()) && delay_prefix(weave.spec_knots(), weave.spec_knots().len() as int)
            > MAX_DENSE,
    }
}

/// The seed the random stream starts from.
pub open spec fn base_seed(opts: BindOpts) -> u64 {
    match opts.seed {
        Some(s) => s.0,
        None => DEFAULT_SEED,
    }
}

impl Runtime {
    pub open(crate) spec fn spec_knots(&self) -> Seq<KnotDef> {
        self.knots@
    }

    pub open(crate) spec fn spec_fingerprint(&self) -> u64 {
        self.fingerprint
    }

    pub open(crate) spec fn spec_bind_seed(&self) -> Option<u64> {
        self.bind_seed
    }

    pub open(crate) spec fn spec_flags(&self) -> Seq<bool> {
        self.flag@
    }

    pub open(crate) spec fn spec_counters(&self) -> Seq<i32> {
        self.counter@
    }

    pub open(crate) spec fn spec_owner(&self) -> u64 {
        self.owner
    }

    pub open(crate) spec fn spec_rng(&self) -> u64 {
        self.rng
    }

    pub open(crate) spec fn spec_seed_mix(&self) -> u64 {
        self.seed_mix
    }

    pub open(crate) spec fn spec_max_emits(&self) -> u16 {
        self.max_emits_per_tick
    }

    pub open(crate) spec fn spec_tick(&self) -> u64 {
        self.tick
    }

    pub open(crate) spec fn spec_phase(&self) -> u8 {
        self.phase
    }

    pub open(crate) spec fn spec_port_vals(&self) -> Seq<Signal> {
        self.port_vals@
    }

    pub open(crate) spec fn spec_sense_values(&self) -> Seq<Signal> {
        self.sense_values@
    }

    pub open(crate) spec fn spec_delay_buf(&self) -> Seq<Signal> {
        self.delay_buf@
    }

    pub open(crate) spec fn spec_tags(&self) -> Seq<KindTag> {
        self.tags@
    }

    pub open(crate) spec fn spec_threads(&self) -> Seq<(u16, u8, u16, u8)> {
        self.threads@
    }

    pub open(crate) spec fn spec_clear_count(&self) -> usize {
        self.clear_count
    }

    pub open(crate) spec fn spec_seeds(&self) -> Seq<SenseSeed> {
        self.sense_seeds@
    }

    pub open(crate) spec fn spec_on_start_done(&self) -> Seq<bool> {
        self.on_start_done@
    }

    /// Validate `weave` against `opts.budget` and build its runtime under a
    /// fresh owner token.
    pub fn bind(weave: Weave, opts: BindOpts) -> (r: Result<Runtime, BindError>)
        ensures
            match r {
                Ok(rt) => bound_from(rt, weave, opts),
                Err(e) => bind_refused(weave, opts, e),
            },
    {
        Runtime::bind_owned(weave, opts, fresh_token())
    }

    /// Validate `weave` against `opts.budget` and build its runtime under
    /// the owner token `owner`.
    pub(crate) fn bind_owned(weave: Weave, opts: BindOpts, owner: u64) -> (r: Result<Runtime, BindError>)
        requires
            owner != u64::MAX,
        ensures
            match r {
                Ok(rt) => bound_from(rt, weave, opts) && rt.spec_owner() == owner,
                Err(e) => bind_refused(weave, opts, e),
            },
    {
        proof {
            use_type_invariant(&weave);
            lemma_valid_threads_resolve(weave.spec_id(), weave.spec_numeric(), weave.spec_knots(), weave.spec_threads());
        }
        let weave_id: String = weave.id().to_owned();
        match validate(&weave, &opts.budget) {
            Ok(()) => {},
            Err(source) => {
                return Err(BindError::InvalidWeave { weave_id, source });
            },
        }
        match reserve_owner(owner, weave_id.as_str()) {
            Ok(()) => {},
            Err(e) => {
                return Err(e);
            },
        }
        let seed_mix = fnv1a64(weave.id().as_bytes());
        let ghost ks0 = weave.spec_knots();
        let ghost ts0 = weave.spec_threads();
        let def = weave.into_def();
        let knots = def.knots;
        let ts = def.threads;
        let n = knots.len();
        proof {
            assert forall|k: int| 0 <= k < n implies crate::validate::param_fault(#[trigger] knots@[k].kind) is None by {
                assert(crate::validate::knot_fault(knots@, k) is None);
            }
        }
        let (path_names, cmd_names, knot_path, knot_cmd) = build_name_tables(owner, &knots, weave_id.as_str());
        let threads = resolve_threads(&knots, &ts);
        proof {
            assert(thread_edges(threads@) =~= knot_edges(ks0, ts0)) by {
                assert forall|u: int| 0 <= u < ts0.len() implies #[trigger] thread_edges(threads@)[u] == knot_edges(
                    ks0,
                    ts0,
                )[u] by {
                    assert(threads@[u].0 < n);
                }
            }
        }
        proof {
            crate::validate::lemma_scan_self_none(ks0, ts0, 0);
            assert forall|k: int| 0 <= k < thread_edges(threads@).len() implies (#[trigger] thread_edges(threads@)[k]).0
                != thread_edges(threads@)[k].1 by {
                assert(thread_edges(threads@)[k] == knot_edges(ks0, ts0)[k]);
                assert(crate::validate::thread_knots(ks0, ts0[k]).0 != crate::validate::thread_knots(ks0, ts0[k]).1);
            }
            lemma_loop_free_id(thread_edges(threads@));
        }
        let topo = match topo_order(n, &threads) {
            Some(order) => order,
            None => {
                return Err(BindError::InvalidTopology { weave_id });
            },
        };
        let inbound = build_inbound(n, &threads);
        proof {
            assert forall|k: int, j: int| 0 <= k < n && 0 <= j < inbound@[k]@.len() implies (#[trigger] inbound@[k]@[j]).0 < n
                && inbound@[k]@[j].1 < MAX_PORTS && inbound@[k]@[j].2 < MAX_PORTS by {
                lemma_into_prefix_bounds(threads@, k, threads@.len() as int, n as nat);
                assert(inbound@[k]@ == into_prefix(threads@, k, threads@.len() as int));
            }
        }
        let (clear_mask, clear_count, tags, sense_seeds) = build_dispatch(&knots, &inbound);
        let (total, delay_off, delay_len) = match build_delays(&knots, weave_id.as_str()) {
            Ok(x) => x,
            Err(e) => {
                return Err(e);
            },
        };
        let base = match opts.seed {
            Some(s) => s.0,
            None => DEFAULT_SEED,
        };
        let rng = (base ^ seed_mix) | 1;
        proof {
            lemma_or_one_nonzero(base ^ seed_mix);
        }
        let bind_seed = match opts.seed {
            Some(s) => Some(s.0),
            None => None,
        };
        let fingerprint = runtime_fingerprint_for(
            &knots,
            &threads,
            &path_names,
            &cmd_names,
            opts.max_emits_per_tick,
            seed_mix,
            bind_seed,
        );
        let rt = Runtime {
            owner,
            knots,
            path_names,
            cmd_names,
            knot_path,
            knot_cmd,
            threads,
            inbound,
            clear_mask,
            clear_count,
            topo,
            tags,
            sense_seeds,
            sense_values: filled(n, ZERO),
            port_vals: filled(n * MAX_PORTS, ZERO),
            prev_in: filled(n, ZERO),
            prev_dec: filled(n, ZERO),
            counter: filled(n, 0i32),
            flag: filled(n, false),
            timer_left: filled(n, 0u16),
            on_start_done: filled(n, false),
            delay_buf: filled(total, ZERO),
            delay_off,
            delay_len,
            delay_head: filled(n, 0u16),
            out_signals: Vec::new(),
            out_emits: Vec::new(),
            dropped_emits: 0,
            max_emits_per_tick: opts.max_emits_per_tick,
            tick: 0,
            phase: 0,
            rng,
            seed_mix,
            fingerprint,
            bind_seed,
        };
        proof {
            assert forall|i: int| 0 <= i < n implies match #[trigger] rt.tags@[i] {
                KindTag::Delay { ticks } => (ticks > 0 ==> rt.delay_len@[i] == ticks && rt.delay_off@[i] + ticks
                    <= rt.delay_buf@.len() && rt.delay_head@[i] < ticks) && (ticks == 0 ==> rt.delay_head@[i] == 0),
                _ => true,
            } by {
                match rt.tags@[i] {
                    KindTag::Delay { ticks } => {
                        assert(ks0[i].kind == KnotKind::Delay { ticks });
                    },
                    _ => {},
                }
            }
        }
        proof {
            assert forall|t: int| 0 <= t < ts0.len() implies thread_resolved(ks0, ts0[t], #[trigger] rt.threads@[t]) by {
                assert(threads@[t] == rt.threads@[t]);
            }
            assert(rt.inbound@.map_values(|v: Vec<(u16, u8, u8)>| v@) =~= inbound@.map_values(
                |v: Vec<(u16, u8, u8)>| v@,
            ));
            assert(tables_built(rt, ks0, ts0));
        }
        Ok(rt)
    }
}


/// One xorshift64 step.
pub open spec fn xorshift(x: u64) -> u64 {
    let a = x ^ ((x << 13u64) as u64);
    let b = a ^ (a >> 7u64);
    b ^ ((b << 17u64) as u64)
}

/// `e` is the foreign-handle error for handles of kind `handle`.
pub open spec fn is_foreign(e: HandleError, handle: Seq<char>) -> bool {
    match e {
        HandleError::ForeignRuntime { handle: h } => h@ == handle,
        _ => false,
    }
}

impl Runtime {
    pub open(crate) spec fn spec_path_names(&self) -> Seq<String> {
        self.path_names@
    }

    pub open(crate) spec fn spec_cmd_names(&self) -> Seq<String> {
        self.cmd_names@
    }

    pub open(crate) spec fn spec_port(&self, k: int, slot: int) -> Signal {
        self.port_vals@[port_index(k, slot)]
    }

    pub open(crate) spec fn spec_outbox(&self) -> (Seq<SignalOutSample>, Seq<Emit>, usize) {
        (self.out_signals@, self.out_emits@, self.dropped_emits)
    }

    /// Everything but the frame outbox, tick, phase and random stream is
    /// unchanged from `other`.
    pub open(crate) spec fn same_tables(&self, other: &Runtime) -> bool {
        &&& self.owner == other.owner
        &&& self.knots@ == other.knots@
        &&& self.path_names@ == other.path_names@
        &&& self.cmd_names@ == other.cmd_names@
        &&& self.knot_path@ == other.knot_path@
        &&& self.knot_cmd@ == other.knot_cmd@
        &&& self.threads@ == other.threads@
        &&& self.inbound@ == other.inbound@
        &&& self.clear_mask@ == other.clear_mask@
        &&& self.clear_count == other.clear_count
        &&& self.topo@ == other.topo@
        &&& self.tags@ == other.tags@
        &&& self.sense_seeds@ == other.sense_seeds@
        &&& self.delay_off@ == other.delay_off@
        &&& self.delay_len@ == other.delay_len@
        &&& self.max_emits_per_tick == other.max_emits_per_tick
        &&& self.seed_mix == other.seed_mix
        &&& self.fingerprint == other.fingerprint
        &&& self.bind_seed == other.bind_seed
    }

    /// Edge memories, timers, OnStart marks and delay rings are unchanged
    /// from `other` (flags, counters, senses and ports may differ).
    pub open(crate) spec fn same_clock_state(&self, other: &Runtime) -> bool {
        &&& self.prev_in@ == other.prev_in@
        &&& self.prev_dec@ == other.prev_dec@
        &&& self.timer_left@ == other.timer_left@
        &&& self.on_start_done@ == other.on_start_done@
        &&& self.delay_buf@ == other.delay_buf@
        &&& self.delay_head@ == other.delay_head@
    }

    /// Per-knot state and delay rings (not the held senses or ports) are
    /// unchanged from `other`.
    pub open(crate) spec fn same_knot_state(&self, other: &Runtime) -> bool {
        &&& self.prev_in@ == other.prev_in@
        &&& self.prev_dec@ == other.prev_dec@
        &&& self.counter@ == other.counter@
        &&& self.flag@ == other.flag@
        &&& self.timer_left@ == other.timer_left@
        &&& self.on_start_done@ == other.on_start_done@
        &&& self.delay_buf@ == other.delay_buf@
        &&& self.delay_head@ == other.delay_head@
    }

    /// Per-knot state, held senses, ports and delay rings are unchanged from
    /// `other`.
    pub open(crate) spec fn same_state(&self, other: &Runtime) -> bool {
        &&& self.sense_values@ == other.sense_values@
        &&& self.port_vals@ == other.port_vals@
        &&& self.prev_in@ == other.prev_in@
        &&& self.prev_dec@ == other.prev_dec@
        &&& self.counter@ == other.counter@
        &&& self.flag@ == other.flag@
        &&& self.timer_left@ == other.timer_left@
        &&& self.on_start_done@ == other.on_start_done@
        &&& self.delay_buf@ == other.delay_buf@
        &&& self.delay_head@ == other.delay_head@
    }

    /// Restart the random stream from `seed`, mixed with the weave id exactly
    /// as at bind.
    pub fn reseed(&mut self, seed: Seed)
        requires
            old(self).wf(),
        ensures
            final(self).wf(),
            final(self).spec_rng() == spec_rng_state(seed.0, old(self).spec_seed_mix()),
            final(self).same_tables(old(self)),
            final(self).same_state(old(self)),
            final(self).spec_outbox() == old(self).spec_outbox(),
            final(self).spec_tick() == old(self).spec_tick(),
            final(self).spec_phase() == old(self).spec_phase(),
    {
        proof {
            lemma_or_one_nonzero(seed.0 ^ self.seed_mix);
        }
        self.rng = (seed.0 ^ self.seed_mix) | 1;
    }

    /// Next value of the xorshift64 stream (its low 32 bits).
    pub(crate) fn next_rng_u32(&mut self) -> (r: u32)
        requires
            old(self).wf(),
        ensures
            final(self).wf(),
            final(self).spec_rng() == xorshift(old(self).spec_rng()),
            r == (xorshift(old(self).spec_rng()) as u32),
            final(self).same_tables(old(self)),
            final(self).same_state(old(self)),
            final(self).spec_outbox() == old(self).spec_outbox(),
            final(self).spec_tick() == old(self).spec_tick(),
            final(self).spec_phase() == old(self).spec_phase(),
    {
        proof {
            lemma_xorshift_nonzero(self.rng);
        }
        let mut x = self.rng;
        x = x ^ (x << 13u64);
        x = x ^ (x >> 7u64);
        x = x ^ (x << 17u64);
        self.rng = x;
        x as u32
    }

    /// The sense handle of the `SignalIn` knot named `name`.
    pub fn sense_id(&self, name: &str) -> (r: Option<SenseId>)
        requires
            self.wf(),
        ensures
            match r {
                Some(id) => find_knot(self.spec_knots(), name@) == Some(id.spec_index() as int)
                    && self.spec_knots()[id.spec_index() as int].kind is SignalIn && id.spec_owner() == self.spec_owner(),
                None => !(find_knot(self.spec_knots(), name@) matches Some(k) && self.spec_knots()[k].kind is SignalIn),
            },
    {
        proof {
            crate::validate::lemma_find_knot(self.knots@, name@);
        }
        match find_knot_index(&self.knots, name) {
            Some(k) => match &self.knots[k].kind {
                KnotKind::SignalIn { .. } => Some(SenseId { owner: self.owner, index: k as u16 }),
                _ => None,
            },
            None => None,
        }
    }

    /// The checked-access handle of the knot named `name`.
    pub fn knot_id(&self, name: &str) -> (r: Option<KnotHandle>)
        requires
            self.wf(),
        ensures
            match r {
                Some(h) => find_knot(self.spec_knots(), name@) == Some(h.spec_index() as int) && h.spec_owner()
                    == self.spec_owner(),
                None => find_knot(self.spec_knots(), name@) is None,
            },
    {
        proof {
            crate::validate::lemma_find_knot(self.knots@, name@);
        }
        match find_knot_index(&self.knots, name) {
            Some(k) => Some(KnotHandle { owner: self.owner, index: k as u16 }),
            None => None,
        }
    }

    /// The host path handle of a `SignalOut` path.
    pub fn path_id(&self, path: &str) -> (r: Option<HostPathId>)
        requires
            self.wf(),
        ensures
            match r {
                Some(id) => find_name(self.spec_path_names(), path@) == Some(id.spec_index() as int) && id.spec_owner()
                    == self.spec_owner(),
                None => find_name(self.spec_path_names(), path@) is None,
            },
    {
        match find_name_exec(&self.path_names, path) {
            Some(j) => Some(HostPathId { owner: self.owner, index: j as u16 }),
            None => None,
        }
    }

    /// The command handle of an `EmitCommand` name.
    pub fn cmd_id(&self, name: &str) -> (r: Option<CmdId>)
        requires
            self.wf(),
        ensures
            match r {
                Some(id) => find_name(self.spec_cmd_names(), name@) == Some(id.spec_index() as int) && id.spec_owner()
                    == self.spec_owner(),
                None => find_name(self.spec_cmd_names(), name@) is None,
            },
    {
        match find_name_exec(&self.cmd_names, name) {
            Some(j) => Some(CmdId { owner: self.owner, index: j as u16 }),
            None => None,
        }
    }

    /// The path a host path handle stands for.
    pub fn path_name(&self, id: HostPathId) -> (r: Result<&str, HandleError>)
        ensures
            match r {
                Ok(s) => id.spec_owner() == self.spec_owner() && id.spec_index() < self.spec_path_names().len() && s@
                    == self.spec_path_names()[id.spec_index() as int]@,
                Err(e) => if id.spec_owner() != self.spec_owner() {
                    is_foreign(e, "host path"@)
                } else {
                    id.spec_index() >= self.spec_path_names().len() && e == HandleError::InvalidHostPath { path: id }
                },
            },
    {
        if id.owner != self.owner {
            return Err(HandleError::ForeignRuntime { handle: "host path" });
        }
        if id.index as usize >= self.path_names.len() {
            return Err(HandleError::InvalidHostPath { path: id });
        }
        Ok(self.path_names[id.index as usize].as_str())
    }

    /// The command name a command handle stands for.
    pub fn cmd_name(&self, id: CmdId) -> (r: Result<&str, HandleError>)
        ensures
            match r {
                Ok(s) => id.spec_owner() == self.spec_owner() && id.spec_index() < self.spec_cmd_names().len() && s@
                    == self.spec_cmd_names()[id.spec_index() as int]@,
                Err(e) => if id.spec_owner() != self.spec_owner() {
                    is_foreign(e, "command"@)
                } else {
                    id.spec_index() >= self.spec_cmd_names().len() && e == HandleError::InvalidCommand { cmd: id }
                },
            },
    {
        if id.owner != self.owner {
            return Err(HandleError::ForeignRuntime { handle: "command" });
        }
        if id.index as usize >= self.cmd_names.len() {
            return Err(HandleError::InvalidCommand { cmd: id });
        }
        Ok(self.cmd_names[id.index as usize].as_str())
    }

    /// Start a frame: record its tick and empty the outbox.
    pub fn begin_frame(&mut self, time: HostTime)
        requires
            old(self).wf(),
        ensures
            final(self).wf(),
            final(self).spec_tick() == time.tick,
            final(self).spec_phase() == 1,
            final(self).spec_outbox() == (Seq::<SignalOutSample>::empty(), Seq::<Emit>::empty(), 0usize),
            final(self).same_tables(old(self)),
            final(self).same_state(old(self)),
            final(self).spec_rng() == old(self).spec_rng(),
            dyn_of(*final(self)) == frame_start(dyn_of(*old(self))),
    {
        self.tick = time.tick;
        self.out_signals.clear();
        self.out_emits.clear();
        self.dropped_emits = 0;
        self.phase = 1;
    }

    /// Length of the flat delay ring buffer.
    pub fn delay_buf_len(&self) -> (r: usize)
        ensures
            r == self.spec_delay_buf().len(),
    {
        self.delay_buf.len()
    }

    /// The dispatch tag of each knot, by dense knot index.
    pub fn kind_tags(&self) -> (r: &[KindTag])
        ensures
            r@ == self.spec_tags(),
    {
        self.tags.as_slice()
    }

    /// The seeded knots (`SignalIn` and `Constant`), in knot order.
    pub fn sense_seeds(&self) -> (r: &[SenseSeed])
        ensures
            r@ == self.spec_seeds(),
    {
        self.sense_seeds.as_slice()
    }

    /// Number of dispatch tags (one per knot).
    pub fn kind_tag_count(&self) -> (r: usize)
        ensures
            r == self.spec_tags().len(),
    {
        self.tags.len()
    }

    /// Number of input slots zeroed before every settle (the inputs no thread
    /// feeds).
    pub fn clear_port_index_count(&self) -> (r: usize)
        ensures
            r == self.spec_clear_count(),
    {
        self.clear_count
    }

    /// Number of inbound edges (one per thread).
    pub fn inbound_edge_count(&self) -> (r: usize)
        ensures
            r == self.spec_threads().len(),
    {
        self.threads.len()
    }

    /// Number of `SignalOut` samples one settle can write.
    pub fn outbox_signals_capacity(&self) -> (r: usize)
        ensures
            r == count_signal_outs(self.spec_tags(), self.spec_tags().len() as int),
    {
        let mut c: usize = 0;
        let mut i: usize = 0;
        while i < self.tags.len()
            invariant
                i <= self.tags@.len(),
                c == count_signal_outs(self.tags@, i as int),
                c <= i,
            decreases self.tags@.len() - i,
        {
            if let KindTag::SignalOut = self.tags[i] {
                c = c + 1;
            }
            i = i + 1;
        }
        c
    }

    /// The port `slot` of the knot a handle stands for, when that knot has
    /// such a port.
    fn checked_port(&self, knot: KnotHandle, slot: PortSlot) -> (r: Result<usize, HandleError>)
        requires
            self.wf(),
        ensures
            match r {
                Ok(i) => knot.spec_owner() == self.spec_owner() && knot.spec_index() < self.spec_knots().len() && slot.0
                    < port_table(self.spec_knots()[knot.spec_index() as int].kind).len() && i == port_index(
                    knot.spec_index() as int,
                    slot.0 as int,
                ) && i < self.spec_port_vals().len(),
                Err(e) => if knot.spec_owner() != self.spec_owner() {
                    is_foreign(e, "knot"@)
                } else if knot.spec_index() >= self.spec_knots().len() {
                    e == HandleError::InvalidKnot { knot }
                } else {
                    slot.0 >= port_table(self.spec_knots()[knot.spec_index() as int].kind).len() && e
                        == HandleError::InvalidPort { knot, port: slot }
                },
            },
    {
        if knot.owner != self.owner {
            return Err(HandleError::ForeignRuntime { handle: "knot" });
        }
        let k = knot.index as usize;
        if k >= self.knots.len() {
            return Err(HandleError::InvalidKnot { knot });
        }
        let ports = ports_of(&self.knots[k].kind);
        proof {
            crate::catalog::lemma_slot_is_row(self.knots@[k as int].kind);
        }
        if slot.0 as usize >= ports.len() {
            return Err(HandleError::InvalidPort { knot, port: slot });
        }
        Ok(k * MAX_PORTS + slot.0 as usize)
    }

    /// Checked read of a port (for tests and tooling).
    pub fn get_port_checked(&self, knot: KnotHandle, slot: PortSlot) -> (r: Result<Signal, HandleError>)
        requires
            self.wf(),
        ensures
            match r {
                Ok(v) => knot.spec_owner() == self.spec_owner() && knot.spec_index() < self.spec_knots().len() && slot.0
                    < port_table(self.spec_knots()[knot.spec_index() as int].kind).len() && v == self.spec_port(
                    knot.spec_index() as int,
                    slot.0 as int,
                ),
                Err(e) => if knot.spec_owner() != self.spec_owner() {
                    is_foreign(e, "knot"@)
                } else if knot.spec_index() >= self.spec_knots().len() {
                    e == HandleError::InvalidKnot { knot }
                } else {
                    slot.0 >= port_table(self.spec_knots()[knot.spec_index() as int].kind).len() && e
                        == HandleError::InvalidPort { knot, port: slot }
                },
            },
    {
        match self.checked_port(knot, slot) {
            Ok(i) => Ok(self.port_vals[i]),
            Err(e) => Err(e),
        }
    }

    /// Checked write of a port (for tests and tooling).
    pub fn set_port_checked(&mut self, knot: KnotHandle, slot: PortSlot, v: Signal) -> (r: Result<(), HandleError>)
        requires
            old(self).wf(),
        ensures
            final(self).wf(),
            final(self).same_tables(old(self)),
            match r {
                Ok(()) => knot.spec_owner() == old(self).spec_owner() && knot.spec_index() < old(self).spec_knots().len()
                    && slot.0 < port_table(old(self).spec_knots()[knot.spec_index() as int].kind).len()
                    && final(self).spec_port_vals() == old(self).spec_port_vals().update(
                    port_index(knot.spec_index() as int, slot.0 as int),
                    v,
                ),
                Err(e) => final(self).spec_port_vals() == old(self).spec_port_vals() && if knot.spec_owner() != old(self).spec_owner() {
                    is_foreign(e, "knot"@)
                } else if knot.spec_index() >= old(self).spec_knots().len() {
                    e == HandleError::InvalidKnot { knot }
                } else {
                    slot.0 >= port_table(old(self).spec_knots()[knot.spec_index() as int].kind).len() && e
                        == HandleError::InvalidPort { knot, port: slot }
                },
            },
            final(self).spec_sense_values() == old(self).spec_sense_values(),
            final(self).spec_outbox() == old(self).spec_outbox(),
            final(self).same_knot_state(old(self)),
            final(self).spec_tick() == old(self).spec_tick(),
            final(self).spec_phase() == old(self).spec_phase(),
            final(self).spec_rng() == old(self).spec_rng(),
            r is Err ==> *final(self) == *old(self),
    {
        match self.checked_port(knot, slot) {
            Ok(i) => {
                self.port_vals.set(i, v);
                Ok(())
            },
            Err(e) => Err(e),
        }
    }
}

/// Number of `SignalOut` tags among the first `m`.
pub open spec fn count_signal_outs(tags: Seq<KindTag>, m: int) -> nat
    decreases m,
{
    if m <= 0 {
        0
    } else {
        count_signal_outs(tags, m - 1) + if tags[m - 1] is SignalOut {
            1nat
        } else {
            0nat
        }
    }
}

/// Number of `SignalOut` knots among the first `m`.
pub open spec fn count_signal_out_knots(ks: Seq<KnotDef>, m: int) -> nat
    decreases m,
{
    if m <= 0 {
        0
    } else {
        count_signal_out_knots(ks, m - 1) + if ks[m - 1].kind is SignalOut {
            1nat
        } else {
            0nat
        }
    }
}

proof fn lemma_count_signal_outs_prefix(tags: Seq<KindTag>, ks: Seq<KnotDef>, m: int)
    requires
        0 <= m <= tags.len(),
        m <= ks.len(),
        forall|k: int| 0 <= k < m ==> ((#[trigger] tags[k]) is SignalOut <==> ks[k].kind is SignalOut),
    ensures
        count_signal_outs(tags, m) == count_signal_out_knots(ks, m),
    decreases m,
{
    if m > 0 {
        lemma_count_signal_outs_prefix(tags, ks, m - 1);
    }
}

/// Right after bind, the outbox reserves one sample per `SignalOut` knot of
/// the weave; frames keep the tables (`begin_frame` and `loom` state
/// `same_tables`), so the reservation never changes.
pub proof fn lemma_signal_capacity_is_signal_out_knots(rt: Runtime, weave: Weave, opts: BindOpts)
    requires
        bound_from(rt, weave, opts),
    ensures
        count_signal_outs(rt.spec_tags(), rt.spec_tags().len() as int) == count_signal_out_knots(
            weave.spec_knots(),
            weave.spec_knots().len() as int,
        ),
{
    lemma_count_signal_outs_prefix(rt.tags@, weave.spec_knots(), rt.tags@.len() as int);
}

/// Runtimes with the same tables reserve the same number of samples.
pub proof fn lemma_signal_capacity_kept(a: Runtime, b: Runtime)
    requires
        a.same_tables(&b),
    ensures
        count_signal_outs(a.spec_tags(), a.spec_tags().len() as int) == count_signal_outs(
            b.spec_tags(),
            b.spec_tags().len() as int,
        ),
{
}


pub proof fn lemma_or_one_nonzero(x: u64)
    ensures
        (x | 1) != 0,
{
    assert((x | 1) != 0) by (bit_vector);
}

/// The xorshift step never reaches zero from a non-zero state.
pub proof fn lemma_xorshift_nonzero(x: u64)
    requires
        x != 0,
    ensures
        xorshift(x) != 0,
{
    let a = x ^ ((x << 13u64) as u64);
    let b = a ^ (a >> 7u64);
    assert(a != 0) by (bit_vector)
        requires
            x != 0,
            a == x ^ ((x << 13u64) as u64),
    ;
    assert(b != 0) by (bit_vector)
        requires
            a != 0,
            b == a ^ (a >> 7u64),
    ;
    assert(b ^ ((b << 17u64) as u64) != 0) by (bit_vector)
        requires
            b != 0,
    ;
}

} // verus!
