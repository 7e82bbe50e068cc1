//! Host I/O surfaces of one frame: the act outbox and sense writes.

use vstd::prelude::*;

use crate::catalog::{KnotKind, SignalDomain};
use crate::handles::{CmdId, HostPathId, SenseId};
use crate::runtime::{is_foreign, Runtime};
use crate::runtime_error::HandleError;
use crate::signal::{Signal, ONE, ZERO};

verus! {

/// One `SignalOut` value written during the last loom.
#[derive(Clone, Copy, Debug, PartialEq, Eq, Structural)]
pub struct SignalOutSample {
    /// Dense id of the `SignalOut` host path.
    pub path: HostPathId,
    /// Value written this frame.
    pub value: Signal,
}

/// One `EmitCommand` entry written since the last frame start.
#[derive(Clone, Copy, Debug, PartialEq, Eq, Structural)]
pub struct Emit {
    /// Dense id of the interned command name.
    pub cmd: CmdId,
    /// Payload sampled from the emit knot's `payload` port.
    pub payload: Signal,
}

/// Mutable host handle for writing sense values before a settle.
pub struct PortWriter<'a> {
    pub(crate) rt: &'a mut Runtime,
}

impl<'a> PortWriter<'a> {
    pub open(crate) spec fn runtime(&self) -> Runtime {
        *self.rt
    }

    /// Write a host sense by its dense handle.
    pub fn set_sense(&mut self, id: SenseId, value: Signal) -> (r: Result<(), HandleError>)
        requires
            old(self).runtime().wf(),
        ensures
            final(self).runtime().wf(),
            set_sense_result(old(self).runtime(), id, value, r, final(self).runtime()),
    {
        self.rt.set_sense(id, value)
    }
}

/// Values a sense of domain `domain` may hold: `Bool` senses hold `ZERO` or
/// `ONE`; `Level` and `Count` senses hold any value.
pub open spec fn spec_domain_value_is_valid(domain: SignalDomain, value: Signal) -> bool {
    match domain {
        SignalDomain::Bool => value == ZERO || value == ONE,
        _ => true,
    }
}

/// Whether `value` is a valid sample for a sense of `domain`.
pub fn domain_value_is_valid(domain: SignalDomain, value: Signal) -> (r: bool)
    ensures
        r == spec_domain_value_is_valid(domain, value),
{
    match domain {
        SignalDomain::Bool => value == ZERO || value == ONE,
        _ => true,
    }
}

/// The outcome of writing `value` through sense handle `id`: rejected
/// handles and values leave the runtime unchanged; an accepted write sets
/// exactly that sense.
pub open spec fn set_sense_result(
    before: Runtime,
    id: SenseId,
    value: Signal,
    r: Result<(), HandleError>,
    after: Runtime,
) -> bool {
    let ks = before.spec_knots();
    let k = id.spec_index() as int;
    &&& after.same_tables(&before)
    &&& after.spec_outbox() == before.spec_outbox()
    &&& after.spec_port_vals() == before.spec_port_vals()
    &&& after.same_knot_state(&before)
    &&& after.spec_tick() == before.spec_tick()
    &&& after.spec_phase() == before.spec_phase()
    &&& after.spec_rng() == before.spec_rng()
    &&& match r {
        Ok(()) => {
            &&& id.spec_owner() == before.spec_owner()
            &&& k < ks.len()
            &&& ks[k].kind matches KnotKind::SignalIn { domain } && spec_domain_value_is_valid(domain, value)
            &&& after.spec_sense_values() == before.spec_sense_values().update(k, value)
        },
        Err(e) => {
            &&& after.spec_sense_values() == before.spec_sense_values()
            &&& if id.spec_owner() != before.spec_owner() {
                is_foreign(e, "sense"@)
            } else if !(k < ks.len() && ks[k].kind is SignalIn) {
                e == HandleError::InvalidSense { sense: id }
            } else {
                ks[k].kind matches KnotKind::SignalIn { domain } && !spec_domain_value_is_valid(domain, value) && e
                    == HandleError::DomainValue { sense: id, domain }
            }
        },
    }
}

/// Borrowed view of the acts written by the last settle and the emits
/// rejected by the per-frame cap.
pub struct Outbox<'a> {
    pub(crate) signals: &'a [SignalOutSample],
    pub(crate) emits: &'a [Emit],
    pub(crate) dropped_emits: usize,
}

impl<'a> Outbox<'a> {
    pub open(crate) spec fn spec_signals(&self) -> Seq<SignalOutSample> {
        self.signals@
    }

    pub open(crate) spec fn spec_emits(&self) -> Seq<Emit> {
        self.emits@
    }

    pub open(crate) spec fn spec_dropped(&self) -> usize {
        self.dropped_emits
    }

    /// `SignalOut` samples in settle order.
    pub fn signals(&self) -> (r: &'a [SignalOutSample])
        ensures
            r@ == self.spec_signals(),
    {
        self.signals
    }

    /// `EmitCommand` entries in settle order (at most the per-frame cap).
    pub fn emits(&self) -> (r: &'a [Emit])
        ensures
            r@ == self.spec_emits(),
    {
        self.emits
    }

    /// Emits rejected by the cap this frame (saturating).
    pub fn dropped_emits(&self) -> (r: usize)
        ensures
            r == self.spec_dropped(),
    {
        self.dropped_emits
    }
}

impl Runtime {
    /// Write a host sense by its dense handle (the `SignalIn` knot it stands
    /// for must accept the value's domain).
    pub fn set_sense(&mut self, id: SenseId, value: Signal) -> (r: Result<(), HandleError>)
        requires
            old(self).wf(),
        ensures
            final(self).wf(),
            set_sense_result(*old(self), id, value, r, *final(self)),
    {
        if id.owner != self.owner {
            return Err(HandleError::ForeignRuntime { handle: "sense" });
        }
        let i = id.index as usize;
        if i >= self.knots.len() {
            return Err(HandleError::InvalidSense { sense: id });
        }
        let domain = match &self.knots[i].kind {
            KnotKind::SignalIn { domain } => *domain,
            _ => {
                return Err(HandleError::InvalidSense { sense: id });
            },
        };
        if !domain_value_is_valid(domain, value) {
            return Err(HandleError::DomainValue { sense: id, domain });
        }
        self.sense_values.set(i, value);
        Ok(())
    }

    /// Borrow the runtime for host sense writes.
    pub fn port_writer(&mut self) -> (w: PortWriter<'_>)
        ensures
            w.runtime() == *old(self),
    {
        PortWriter { rt: self }
    }

    /// The acts of the current frame.
    pub fn outbox(&self) -> (o: Outbox<'_>)
        ensures
            o.spec_signals() == self.spec_outbox().0,
            o.spec_emits() == self.spec_outbox().1,
            o.spec_dropped() == self.spec_outbox().2,
    {
        Outbox { signals: self.out_signals.as_slice(), emits: self.out_emits.as_slice(), dropped_emits: self.dropped_emits }
    }
}

} // verus!
