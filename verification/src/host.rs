//! A scripted host: queued frames of sense writes, a frame driver, and the
//! outbox turned into host commands.

use vstd::prelude::*;

use crate::catalog::KnotKind;
use crate::handles::{CmdId, HostPathId, SenseId};
use crate::outbox::{spec_domain_value_is_valid, Emit, SignalOutSample};
use crate::runtime::{HostTime, Runtime};
use crate::runtime_error::HandleError;
use crate::settle::{dyn_of, frame_result, frame_start, tables_of};
use crate::signal::Signal;

verus! {

/// One host-side act of a settled frame.
#[derive(Clone, Copy, Debug, PartialEq, Eq, Structural)]
pub enum HostCommand {
    /// Set the host value behind a `SignalOut` path.
    SetLevel { path: HostPathId, value: Signal },
    /// Run a command with its payload.
    Emit { cmd: CmdId, payload: Signal },
}

/// The host commands of an outbox: every signal sample as `SetLevel`, then
/// every emit as `Emit`, each in outbox order.
pub open spec fn outbox_commands(signals: Seq<SignalOutSample>, emits: Seq<Emit>) -> Seq<HostCommand> {
    signals.map_values(|s: SignalOutSample| HostCommand::SetLevel { path: s.path, value: s.value }) + emits.map_values(
        |e: Emit| HostCommand::Emit { cmd: e.cmd, payload: e.payload },
    )
}

/// Whether writing `value` through `id` is accepted by `rt`.
pub open spec fn write_ok(rt: Runtime, id: SenseId, value: Signal) -> bool {
    let ks = rt.spec_knots();
    let k = id.spec_index() as int;
    &&& id.spec_owner() == rt.spec_owner()
    &&& k < ks.len()
    &&& ks[k].kind matches KnotKind::SignalIn { domain } && spec_domain_value_is_valid(domain, value)
}

/// Held senses after the first `m` writes of `senses`.
pub open spec fn senses_after(base: Seq<Signal>, senses: Seq<(SenseId, Signal)>, m: int) -> Seq<Signal>
    decreases m,
{
    if m <= 0 {
        base
    } else {
        senses_after(base, senses, m - 1).update(senses[m - 1].0.spec_index() as int, senses[m - 1].1)
    }
}

/// The outcome of applying `senses` in order to `before`: all are accepted
/// and set, or the first rejected write reports its error and the writes
/// before it are set.
pub open spec fn writes_result(
    before: Runtime,
    senses: Seq<(SenseId, Signal)>,
    r: Result<(), HandleError>,
    after: Runtime,
) -> bool {
    &&& after.same_tables(&before)
    &&& after.same_knot_state(&before)
    &&& after.spec_outbox() == before.spec_outbox()
    &&& after.spec_port_vals() == before.spec_port_vals()
    &&& after.spec_tick() == before.spec_tick()
    &&& after.spec_phase() == before.spec_phase()
    &&& after.spec_rng() == before.spec_rng()
    &&& match r {
        Ok(()) => {
            &&& forall|j: int| 0 <= j < senses.len() ==> write_ok(before, #[trigger] senses[j].0, senses[j].1)
            &&& after.spec_sense_values() == senses_after(before.spec_sense_values(), senses, senses.len() as int)
        },
        Err(e) => exists|j: int|
            {
                &&& 0 <= j < senses.len()
                &&& forall|q: int| 0 <= q < j ==> write_ok(before, #[trigger] senses[q].0, senses[q].1)
                &&& crate::outbox::set_sense_result(
                    before,
                    senses[j].0,
                    senses[j].1,
                    Err(e),
                    before,
                )
                &&& after.spec_sense_values() == senses_after(before.spec_sense_values(), senses, j)
            },
    }
}

/// `after` is `before` after one frame of the writes `senses`, reporting
/// `r`. When every write is accepted (`Ok`): the writes are held and the
/// frame settled once. Otherwise: the frame begun (outbox emptied), the
/// writes before the first refused one held, nothing settled, and the error
/// is that write's refusal.
pub open spec fn frame_ran(before: Runtime, senses: Seq<(SenseId, Signal)>, r: Result<(), HandleError>, after: Runtime) -> bool {
    match r {
        Ok(()) => {
            &&& after.spec_sense_values() == senses_after(before.spec_sense_values(), senses, senses.len() as int)
            &&& dyn_of(after) == frame_result(before, after.spec_sense_values())
        },
        Err(e) => {
            &&& dyn_of(after) == frame_start(dyn_of(before))
            &&& exists|j: int|
                {
                    &&& 0 <= j < senses.len()
                    &&& forall|q: int| 0 <= q < j ==> write_ok(before, #[trigger] senses[q].0, senses[q].1)
                    &&& !write_ok(before, senses[j].0, senses[j].1)
                    &&& crate::outbox::set_sense_result(before, senses[j].0, senses[j].1, Err(e), before)
                    &&& after.spec_sense_values() == senses_after(before.spec_sense_values(), senses, j)
                }
        },
    }
}

/// Write `senses` in order, stopping at the first rejected write.
pub fn apply_senses(rt: &mut Runtime, senses: &[(SenseId, Signal)]) -> (r: Result<(), HandleError>)
    requires
        old(rt).wf(),
    ensures
        final(rt).wf(),
        writes_result(*old(rt), senses@, r, *final(rt)),
{
    let ghost start = *rt;
    let mut i: usize = 0;
    while i < senses.len()
        invariant
            rt.wf(),
            start == *old(rt),
            i <= senses@.len(),
            rt.same_tables(&start),
            rt.same_knot_state(&start),
            rt.spec_outbox() == start.spec_outbox(),
            rt.spec_port_vals() == start.spec_port_vals(),
            rt.spec_tick() == start.spec_tick(),
            rt.spec_phase() == start.spec_phase(),
            rt.spec_rng() == start.spec_rng(),
            forall|j: int| 0 <= j < i ==> write_ok(start, #[trigger] senses@[j].0, senses@[j].1),
            rt.spec_sense_values() == senses_after(start.spec_sense_values(), senses@, i as int),
        decreases senses@.len() - i,
    {
        let (id, value) = senses[i];
        let ghost mid = *rt;
        match rt.set_sense(id, value) {
            Ok(()) => {},
            Err(e) => {
                proof {
                    let j = i as int;
                    assert(senses@[j] == (id, value));
                    assert(crate::outbox::set_sense_result(start, senses@[j].0, senses@[j].1, Err(e), start));
                    assert(rt.spec_sense_values() == senses_after(start.spec_sense_values(), senses@, j));
                    assert(forall|q: int| 0 <= q < j ==> write_ok(start, #[trigger] senses@[q].0, senses@[q].1));
                }
                return Err(e);
            },
        }
        i = i + 1;
    }
    Ok(())
}

/// A host that replays queued frames of sense writes and records the
/// commands of each settle.
#[derive(Clone, Debug)]
pub struct ScriptedHost {
    /// Tick of the next frame.
    pub tick: u64,
    frames: Vec<Vec<(SenseId, Signal)>>,
    next_frame: usize,
    last: Vec<HostCommand>,
    /// Number of commands produced by each settled frame.
    pub commands_per_tick: Vec<usize>,
}

impl ScriptedHost {
    /// The queued frames not yet replayed.
    pub closed spec fn pending(&self) -> Seq<Seq<(SenseId, Signal)>> {
        self.frames@.subrange(self.next_frame as int, self.frames@.len() as int).map_values(
            |f: Vec<(SenseId, Signal)>| f@,
        )
    }

    /// Commands of the last settled frame.
    pub closed spec fn spec_last(&self) -> Seq<HostCommand> {
        self.last@
    }

    /// Tick of the next frame.
    pub closed spec fn spec_tick(&self) -> u64 {
        self.tick
    }

    /// Number of commands of each settled frame.
    pub closed spec fn spec_counts(&self) -> Seq<usize> {
        self.commands_per_tick@
    }

    pub closed spec fn host_wf(&self) -> bool {
        self.next_frame <= self.frames@.len()
    }

    /// A host at tick 0 with no queued frames.
    pub fn new() -> (h: ScriptedHost)
        ensures
            h.host_wf(),
            h.spec_tick() == 0,
            h.pending() == Seq::<Seq<(SenseId, Signal)>>::empty(),
            h.spec_last() == Seq::<HostCommand>::empty(),
            h.spec_counts() == Seq::<usize>::empty(),
    {
        let h = ScriptedHost { tick: 0, frames: Vec::new(), next_frame: 0, last: Vec::new(), commands_per_tick: Vec::new() };
        assert(h.pending() =~= Seq::<Seq<(SenseId, Signal)>>::empty());
        h
    }

    /// Queue one frame of sense writes.
    pub fn push_frame(&mut self, senses: &[(SenseId, Signal)])
        requires
            old(self).host_wf(),
        ensures
            final(self).host_wf(),
            final(self).spec_tick() == old(self).spec_tick(),
            final(self).pending() == old(self).pending().push(senses@),
            final(self).spec_last() == old(self).spec_last(),
            final(self).spec_counts() == old(self).spec_counts(),
    {
        let mut frame: Vec<(SenseId, Signal)> = Vec::new();
        let mut i: usize = 0;
        while i < senses.len()
            invariant
                i <= senses@.len(),
                frame@ == senses@.subrange(0, i as int),
            decreases senses@.len() - i,
        {
            frame.push(senses[i]);
            i = i + 1;
        }
        assert(frame@ =~= senses@);
        self.frames.push(frame);
        assert(self.pending() =~= old(self).pending().push(senses@));
    }

    /// Commands produced by the last settled frame.
    pub fn last_commands(&self) -> (r: &[HostCommand])
        ensures
            r@ == self.spec_last(),
    {
        self.last.as_slice()
    }

    /// The next queued frame, or no writes when the queue is empty.
    fn take_frame(&mut self) -> (f: Vec<(SenseId, Signal)>)
        requires
            old(self).host_wf(),
        ensures
            final(self).host_wf(),
            final(self).spec_tick() == old(self).spec_tick(),
            final(self).spec_last() == old(self).spec_last(),
            final(self).spec_counts() == old(self).spec_counts(),
            if old(self).pending().len() == 0 {
                f@ == Seq::<(SenseId, Signal)>::empty() && final(self).pending() == old(self).pending()
            } else {
                f@ == old(self).pending()[0] && final(self).pending() == old(self).pending().drop_first()
            },
    {
        if self.next_frame < self.frames.len() {
            let f = copy_frame(&self.frames[self.next_frame]);
            self.next_frame = self.next_frame + 1;
            assert(self.pending() =~= old(self).pending().drop_first());
            f
        } else {
            Vec::new()
        }
    }
}

impl Default for ScriptedHost {
    fn default() -> (h: ScriptedHost)
        ensures
            h.host_wf(),
            h.spec_tick() == 0,
            h.pending() == Seq::<Seq<(SenseId, Signal)>>::empty(),
            h.spec_last() == Seq::<HostCommand>::empty(),
            h.spec_counts() == Seq::<usize>::empty(),
    {
        ScriptedHost::new()
    }
}

/// A host that never writes senses: a scripted host with nothing queued,
/// whose frames only settle the graph and advance the tick.
pub type NullHost = ScriptedHost;

fn copy_frame(v: &Vec<(SenseId, Signal)>) -> (r: Vec<(SenseId, Signal)>)
    ensures
        r@ == v@,
{
    let mut r: Vec<(SenseId, Signal)> = Vec::new();
    let mut i: usize = 0;
    while i < v.len()
        invariant
            i <= v@.len(),
            r@ == v@.subrange(0, i as int),
        decreases v@.len() - i,
    {
        r.push(v[i]);
        i = i + 1;
    }
    assert(r@ =~= v@);
    r
}

/// The host commands of `rt`'s current outbox.
pub fn outbox_to_commands(rt: &Runtime) -> (r: Vec<HostCommand>)
    ensures
        r@ == outbox_commands(rt.spec_outbox().0, rt.spec_outbox().1),
{
    let mut r: Vec<HostCommand> = Vec::new();
    append_commands(rt, &mut r);
    assert(r@ =~= outbox_commands(rt.spec_outbox().0, rt.spec_outbox().1));
    r
}

/// Append the host commands of `rt`'s current outbox to `out`.
pub fn append_commands(rt: &Runtime, out: &mut Vec<HostCommand>)
    ensures
        final(out)@ == old(out)@ + outbox_commands(rt.spec_outbox().0, rt.spec_outbox().1),
{
    let ob = rt.outbox();
    let signals = ob.signals();
    let emits = ob.emits();
    let ghost cmds_s = signals@.map_values(|s: SignalOutSample| HostCommand::SetLevel { path: s.path, value: s.value });
    let ghost cmds_e = emits@.map_values(|e: Emit| HostCommand::Emit { cmd: e.cmd, payload: e.payload });
    let mut i: usize = 0;
    while i < signals.len()
        invariant
            i <= signals@.len(),
            cmds_s == signals@.map_values(|s: SignalOutSample| HostCommand::SetLevel { path: s.path, value: s.value }),
            out@ == old(out)@ + cmds_s.subrange(0, i as int),
        decreases signals@.len() - i,
    {
        let s = signals[i];
        out.push(HostCommand::SetLevel { path: s.path, value: s.value });
        assert(cmds_s.subrange(0, i + 1) =~= cmds_s.subrange(0, i as int).push(cmds_s[i as int]));
        i = i + 1;
    }
    assert(cmds_s.subrange(0, signals@.len() as int) =~= cmds_s);
    let mut j: usize = 0;
    while j < emits.len()
        invariant
            j <= emits@.len(),
            cmds_e == emits@.map_values(|e: Emit| HostCommand::Emit { cmd: e.cmd, payload: e.payload }),
            out@ == old(out)@ + cmds_s + cmds_e.subrange(0, j as int),
        decreases emits@.len() - j,
    {
        let e = emits[j];
        out.push(HostCommand::Emit { cmd: e.cmd, payload: e.payload });
        assert(cmds_e.subrange(0, j + 1) =~= cmds_e.subrange(0, j as int).push(cmds_e[j as int]));
        j = j + 1;
    }
    assert(cmds_e.subrange(0, emits@.len() as int) =~= cmds_e);
    assert(final(out)@ =~= old(out)@ + outbox_commands(rt.spec_outbox().0, rt.spec_outbox().1));
}

/// The sense writes the next frame of `host` makes: its first queued frame,
/// or none.
pub open spec fn queued(host: ScriptedHost) -> Seq<(SenseId, Signal)> {
    if host.pending().len() == 0 {
        Seq::empty()
    } else {
        host.pending()[0]
    }
}

/// Run one frame: begin it at the host's tick, write the next queued frame's
/// senses, settle, record the commands, and advance the tick. A rejected
/// write ends the frame before the settle and leaves the host's tick.
pub fn tick_once(host: &mut ScriptedHost, rt: &mut Runtime) -> (r: Result<(), HandleError>)
    requires
        old(host).host_wf(),
        old(rt).wf(),
        old(host).spec_tick() < u64::MAX,
    ensures
        final(host).host_wf(),
        final(rt).wf(),
        final(rt).same_tables(old(rt)),
        final(rt).spec_tick() == old(host).spec_tick(),
        final(host).pending() == if old(host).pending().len() == 0 {
            old(host).pending()
        } else {
            old(host).pending().drop_first()
        },
        r is Ok <==> forall|j: int|
            0 <= j < queued(*old(host)).len() ==> write_ok(*old(rt), #[trigger] queued(*old(host))[j].0, queued(*old(host))[j].1),
        frame_ran(*old(rt), queued(*old(host)), r, *final(rt)),
        match r {
            Ok(()) => {
                &&& final(rt).spec_phase() == 2
                &&& final(host).spec_tick() == old(host).spec_tick() + 1
                &&& final(host).spec_last() == outbox_commands(final(rt).spec_outbox().0, final(rt).spec_outbox().1)
                &&& final(host).spec_counts() == old(host).spec_counts().push(final(host).spec_last().len() as usize)
            },
            Err(_) => {
                &&& final(rt).spec_phase() == 1
                &&& final(host).spec_tick() == old(host).spec_tick()
                &&& final(host).spec_last() == old(host).spec_last()
                &&& final(host).spec_counts() == old(host).spec_counts()
            },
        },
{
    let tick = host.tick;
    rt.begin_frame(HostTime { tick });
    let ghost begun = *rt;
    let frame = host.take_frame();
    assert(frame@ == queued(*old(host)));
    match apply_senses(rt, frame.as_slice()) {
        Ok(()) => {},
        Err(e) => {
            proof {
                let j = choose|j: int|
                    {
                        &&& 0 <= j < frame@.len()
                        &&& forall|q: int| 0 <= q < j ==> write_ok(begun, #[trigger] frame@[q].0, frame@[q].1)
                        &&& crate::outbox::set_sense_result(begun, frame@[j].0, frame@[j].1, Err(e), begun)
                    };
                assert(!write_ok(*old(rt), queued(*old(host))[j].0, queued(*old(host))[j].1));
                assert(dyn_of(*rt) =~= dyn_of(begun));
                assert forall|q: int| 0 <= q < j implies write_ok(*old(rt), #[trigger] frame@[q].0, frame@[q].1) by {
                    assert(write_ok(begun, frame@[q].0, frame@[q].1));
                }
                assert(begun.spec_sense_values() == old(rt).spec_sense_values());
                assert(crate::outbox::set_sense_result(*old(rt), frame@[j].0, frame@[j].1, Err(e), *old(rt)));
                assert(rt.spec_sense_values() == senses_after(old(rt).spec_sense_values(), queued(*old(host)), j));
                assert(dyn_of(*rt) == frame_start(dyn_of(*old(rt))));
            }
            return Err(e);
        },
    }
    proof {
        assert forall|j: int| 0 <= j < frame@.len() implies write_ok(*old(rt), #[trigger] frame@[j].0, frame@[j].1) by {
            assert(write_ok(begun, frame@[j].0, frame@[j].1));
        }
        assert(dyn_of(*rt) =~= dyn_of(begun));
        assert(tables_of(*rt) =~= tables_of(*old(rt)));
    }
    rt.loom();
    let cmds = outbox_to_commands(rt);
    let n = cmds.len();
    host.last = cmds;
    host.commands_per_tick.push(n);
    host.tick = tick + 1;
    Ok(())
}

} // verus!
