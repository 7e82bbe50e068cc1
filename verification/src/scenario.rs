//! A deterministic frame runner over one bound runtime, with checks of the
//! last settled frame by typed handles.

use vstd::prelude::*;

use crate::builder::BuildError;
use crate::cookbook::helpers::sample_of;
use crate::handles::{CmdId, HostPathId, SenseId};
use crate::host::{apply_senses, writes_result};
use crate::outbox::Emit;
use crate::runtime::{BindOpts, HostTime, Runtime};
use crate::recipe::{Recipe, RecipeBind, RecipeInstance};
use crate::runtime_error::{HandleError, RecipeError, ScenarioError};
use crate::signal::{is_truthy, truthy, Signal};
use crate::text::to_owned_string;
use crate::weave::Weave;

verus! {

/// How many of `emits` carry the command handle `cmd`.
pub open spec fn count_cmd(emits: Seq<Emit>, cmd: CmdId) -> nat
    decreases emits.len(),
{
    if emits.len() == 0 {
        0
    } else {
        count_cmd(emits.drop_last(), cmd) + if emits.last().cmd == cmd {
            1nat
        } else {
            0nat
        }
    }
}

/// Build a recipe's weave and bind it with `opts`.
pub fn bind_recipe(weave: Result<Weave, BuildError>, opts: BindOpts) -> (r: Result<Runtime, RecipeError>)
    ensures
        match r {
            Ok(rt) => weave matches Ok(w) && crate::runtime::bound_from(rt, w, opts),
            Err(RecipeError::Build(e)) => weave == Err::<Weave, BuildError>(e),
            Err(RecipeError::Bind(e)) => weave matches Ok(w) && crate::runtime::bind_refused(w, opts, *e),
            Err(RecipeError::Resolve(_)) => false,
        },
{
    match weave {
        Err(e) => Err(RecipeError::Build(e)),
        Ok(w) => match Runtime::bind(w, opts) {
            Ok(rt) => Ok(rt),
            Err(e) => Err(RecipeError::Bind(Box::new(e))),
        },
    }
}

/// One bound [`Recipe`] advanced one frame at a time, with checks of the
/// last settled frame through selectors over the recipe's ports.
pub struct Scenario<R: Recipe> {
    instance: RecipeInstance<R>,
    next_tick: u64,
    last_tick: Option<u64>,
}

impl<R: Recipe> Scenario<R> {
    pub closed spec fn spec_runtime(&self) -> Runtime {
        self.instance.spec_runtime()
    }

    pub closed spec fn spec_ports(&self) -> R::Ports {
        self.instance.spec_ports()
    }

    pub closed spec fn spec_next_tick(&self) -> u64 {
        self.next_tick
    }

    pub closed spec fn spec_last_tick(&self) -> Option<u64> {
        self.last_tick
    }

    /// The tick checks report: the last completed frame, else the next one.
    pub open spec fn spec_current_tick(&self) -> u64 {
        match self.spec_last_tick() {
            Some(t) => t,
            None => self.spec_next_tick(),
        }
    }

    pub closed spec fn wf(&self) -> bool {
        self.instance.wf()
    }

    /// A scenario over a bound instance, starting at tick 0.
    pub fn new(instance: RecipeInstance<R>) -> (s: Scenario<R>)
        requires
            instance.wf(),
        ensures
            s.wf(),
            s.spec_runtime() == instance.spec_runtime(),
            s.spec_ports() == instance.spec_ports(),
            s.spec_next_tick() == 0,
            s.spec_last_tick() is None,
    {
        Scenario { instance, next_tick: 0, last_tick: None }
    }

    /// Bind `R`, run `run` over the scenario, and hand back its result; a
    /// recipe that fails to build, bind or resolve ends it first.
    pub fn run<T, F: FnOnce(&mut Scenario<R>) -> Result<T, ScenarioError>>(run: F) -> (r: Result<T, ScenarioError>)
        requires
            forall|s: &mut Scenario<R>| (*s).wf() ==> #[trigger] run.requires((s,)),
        ensures
            (exists|e: RecipeError| r == Err::<T, ScenarioError>(ScenarioError::Recipe(e))) || exists|s: &mut Scenario<
                R,
            >| run.ensures((s,), r),
    {
        let instance = match R::bind() {
            Ok(i) => i,
            Err(e) => {
                return Err(ScenarioError::Recipe(e));
            },
        };
        let mut scenario = Scenario::new(instance);
        run(&mut scenario)
    }

    /// The runtime, for handle resolution and inspection.
    pub fn runtime(&self) -> (r: &Runtime)
        ensures
            *r == self.spec_runtime(),
    {
        self.instance.runtime()
    }

    /// The recipe's resolved ports.
    pub fn ports(&self) -> (r: &R::Ports)
        ensures
            *r == self.spec_ports(),
    {
        self.instance.ports()
    }

    /// Run one frame at the next tick: `write` names the sense writes
    /// through a [`Frame`], which are applied in order before the settle.
    /// An error of `write`, or a rejected write, ends the frame unsettled.
    pub fn frame<F: FnOnce(&mut Frame<'_, R>) -> Result<(), ScenarioError>>(&mut self, write: F) -> (r: Result<
        (),
        ScenarioError,
    >)
        requires
            old(self).wf(),
            forall|f: &mut Frame<R>| #[trigger] write.requires((f,)),
        ensures
            final(self).wf(),
            final(self).spec_runtime().same_tables(&old(self).spec_runtime()),
            final(self).spec_ports() == old(self).spec_ports(),
            final(self).spec_runtime().spec_tick() == old(self).spec_next_tick(),
            match r {
                Ok(()) => {
                    &&& final(self).spec_runtime().spec_phase() == 2
                    &&& final(self).spec_last_tick() == Some(old(self).spec_next_tick())
                    &&& final(self).spec_next_tick() == (if old(self).spec_next_tick() == u64::MAX {
                        0
                    } else {
                        old(self).spec_next_tick() + 1
                    })
                },
                Err(_) => {
                    &&& final(self).spec_runtime().spec_phase() == 1
                    &&& final(self).spec_last_tick() == old(self).spec_last_tick()
                    &&& final(self).spec_next_tick() == old(self).spec_next_tick()
                },
            },
    {
        let mut frame = Frame { ports: self.instance.ports(), writes: Vec::new() };
        let written = write(&mut frame);
        let writes = frame.writes;
        match written {
            Ok(()) => self.frame_with(writes.as_slice()),
            Err(e) => {
                let tick = self.next_tick;
                self.instance.runtime_mut().begin_frame(HostTime { tick });
                match apply_senses(self.instance.runtime_mut(), writes.as_slice()) {
                    Ok(()) => Err(e),
                    Err(h) => Err(ScenarioError::Handle(h)),
                }
            },
        }
    }

    /// Run one frame at the next tick: write `senses` in order, then settle.
    /// A rejected write ends the frame before the settle.
    pub fn frame_with(&mut self, senses: &[(SenseId, Signal)]) -> (r: Result<(), ScenarioError>)
        requires
            old(self).wf(),
        ensures
            final(self).wf(),
            final(self).spec_runtime().same_tables(&old(self).spec_runtime()),
            final(self).spec_ports() == old(self).spec_ports(),
            final(self).spec_runtime().spec_tick() == old(self).spec_next_tick(),
            match r {
                Ok(()) => {
                    &&& final(self).spec_runtime().spec_phase() == 2
                    &&& final(self).spec_last_tick() == Some(old(self).spec_next_tick())
                    &&& final(self).spec_next_tick() == (if old(self).spec_next_tick() == u64::MAX {
                        0
                    } else {
                        old(self).spec_next_tick() + 1
                    })
                    &&& forall|j: int|
                        0 <= j < senses@.len() ==> crate::host::write_ok(
                            old(self).spec_runtime(),
                            #[trigger] senses@[j].0,
                            senses@[j].1,
                        )
                },
                Err(e) => {
                    &&& e is Handle
                    &&& final(self).spec_runtime().spec_phase() == 1
                    &&& final(self).spec_last_tick() == old(self).spec_last_tick()
                    &&& final(self).spec_next_tick() == old(self).spec_next_tick()
                },
            },
    {
        let tick = self.next_tick;
        self.instance.runtime_mut().begin_frame(HostTime { tick });
        let ghost begun = self.spec_runtime();
        match apply_senses(self.instance.runtime_mut(), senses) {
            Ok(()) => {},
            Err(e) => {
                return Err(ScenarioError::Handle(e));
            },
        }
        proof {
            assert forall|j: int| 0 <= j < senses@.len() implies crate::host::write_ok(
                old(self).spec_runtime(),
                #[trigger] senses@[j].0,
                senses@[j].1,
            ) by {
                assert(crate::host::write_ok(begun, senses@[j].0, senses@[j].1));
            }
        }
        self.instance.runtime_mut().loom();
        self.last_tick = Some(tick);
        self.next_tick = tick.wrapping_add(1);
        Ok(())
    }

    fn current_tick(&self) -> (t: u64)
        ensures
            t == self.spec_current_tick(),
    {
        match self.last_tick {
            Some(t) => t,
            None => self.next_tick,
        }
    }

    fn path_name(&self, path: HostPathId) -> (r: Result<String, ScenarioError>)
        ensures
            match r {
                Ok(s) => path.spec_owner() == self.spec_runtime().spec_owner() && path.spec_index()
                    < self.spec_runtime().spec_path_names().len() && s@ == self.spec_runtime().spec_path_names()[path.spec_index() as int]@,
                Err(e) => e is Handle,
            },
    {
        match self.instance.runtime().path_name(path) {
            Ok(s) => Ok(to_owned_string(s)),
            Err(e) => Err(ScenarioError::Handle(e)),
        }
    }

    fn signal_value(&self, path: HostPathId) -> (r: Result<Signal, ScenarioError>)
        ensures
            match r {
                Ok(v) => sample_of(self.spec_runtime().spec_outbox().0, path) == Some(v),
                Err(e) => sample_of(self.spec_runtime().spec_outbox().0, path) is None && (e matches ScenarioError::MissingSignal {
                    tick,
                    ..
                } && tick == self.spec_current_tick()),
            },
    {
        let ob = self.instance.runtime().outbox();
        let signals = ob.signals();
        let ghost all = signals@;
        proof {
            assert(all.subrange(0, all.len() as int) =~= all);
        }
        let mut i: usize = 0;
        while i < signals.len()
            invariant
                i <= all.len(),
                all == signals@,
                all == self.spec_runtime().spec_outbox().0,
                sample_of(all, path) == sample_of(all.subrange(i as int, all.len() as int), path),
            decreases all.len() - i,
        {
            let ghost rest = all.subrange(i as int, all.len() as int);
            assert(rest.drop_first() =~= all.subrange(i + 1, all.len() as int));
            if signals[i].path == path {
                return Ok(signals[i].value);
            }
            i = i + 1;
        }
        let name = match self.path_name(path) {
            Ok(s) => s,
            Err(_) => to_owned_string("<invalid path>"),
        };
        Err(ScenarioError::MissingSignal { path: name, tick: self.current_tick() })
    }

    /// Check that `path` got a truthy sample in the last frame.
    pub fn expect_truthy_at(&self, path: HostPathId) -> (r: Result<(), ScenarioError>)
        ensures
            r is Ok <==> (sample_of(self.spec_runtime().spec_outbox().0, path) matches Some(v) && truthy(v)),
    {
        let actual = match self.signal_value(path) {
            Ok(v) => v,
            Err(e) => {
                return Err(e);
            },
        };
        if is_truthy(actual) {
            Ok(())
        } else {
            match self.path_name(path) {
                Ok(name) => Err(ScenarioError::ExpectedTruthy { path: name, actual, tick: self.current_tick() }),
                Err(e) => Err(e),
            }
        }
    }

    /// Check that `path` got the sample `expected` in the last frame.
    pub fn expect_value_at(&self, path: HostPathId, expected: Signal) -> (r: Result<(), ScenarioError>)
        ensures
            r is Ok <==> sample_of(self.spec_runtime().spec_outbox().0, path) == Some(expected),
    {
        let actual = match self.signal_value(path) {
            Ok(v) => v,
            Err(e) => {
                return Err(e);
            },
        };
        if actual == expected {
            Ok(())
        } else {
            match self.path_name(path) {
                Ok(name) => Err(ScenarioError::UnexpectedSignal { path: name, expected, actual, tick: self.current_tick() }),
                Err(e) => Err(e),
            }
        }
    }

    /// Check that the command `cmd` fired exactly `expected` times in the
    /// last frame.
    pub fn expect_emits_at(&self, cmd: CmdId, expected: usize) -> (r: Result<(), ScenarioError>)
        ensures
            r is Ok <==> count_cmd(self.spec_runtime().spec_outbox().1, cmd) == expected,
    {
        let ob = self.instance.runtime().outbox();
        let emits = ob.emits();
        let ghost all = emits@;
        let mut n: usize = 0;
        let mut i: usize = 0;
        while i < emits.len()
            invariant
                i <= all.len(),
                all == emits@,
                all == self.spec_runtime().spec_outbox().1,
                n == count_cmd(all.subrange(0, i as int), cmd),
                n <= i,
            decreases all.len() - i,
        {
            assert(all.subrange(0, i + 1).drop_last() =~= all.subrange(0, i as int));
            if emits[i].cmd == cmd {
                n = n + 1;
            }
            i = i + 1;
        }
        assert(all.subrange(0, all.len() as int) =~= all);
        if n == expected {
            Ok(())
        } else {
            match self.instance.runtime().cmd_name(cmd) {
                Ok(name) => Err(
                    ScenarioError::UnexpectedEmits { command: to_owned_string(name), expected, actual: n, tick: self.current_tick() },
                ),
                Err(e) => Err(ScenarioError::Handle(e)),
            }
        }
    }

    /// Check that the selected output got a truthy sample in the last frame.
    pub fn expect_truthy<G: Fn(&R::Ports) -> HostPathId>(&self, path: G) -> (r: Result<(), ScenarioError>)
        requires
            forall|p: &R::Ports| #[trigger] path.requires((p,)),
        ensures
            exists|h: HostPathId|
                path.ensures((&self.spec_ports(),), h) && (r is Ok <==> (sample_of(
                    self.spec_runtime().spec_outbox().0,
                    h,
                ) matches Some(v) && truthy(v))),
    {
        let h = path(self.instance.ports());
        assert(path.ensures((&self.spec_ports(),), h));
        self.expect_truthy_at(h)
    }

    /// Check that the selected output got the sample `expected` in the last
    /// frame.
    pub fn expect_value<G: Fn(&R::Ports) -> HostPathId>(&self, path: G, expected: Signal) -> (r: Result<
        (),
        ScenarioError,
    >)
        requires
            forall|p: &R::Ports| #[trigger] path.requires((p,)),
        ensures
            exists|h: HostPathId|
                path.ensures((&self.spec_ports(),), h) && (r is Ok <==> sample_of(
                    self.spec_runtime().spec_outbox().0,
                    h,
                ) == Some(expected)),
    {
        let h = path(self.instance.ports());
        assert(path.ensures((&self.spec_ports(),), h));
        self.expect_value_at(h, expected)
    }

    /// Check that the selected command fired exactly `expected` times in the
    /// last frame.
    pub fn expect_emits<G: Fn(&R::Ports) -> CmdId>(&self, command: G, expected: usize) -> (r: Result<
        (),
        ScenarioError,
    >)
        requires
            forall|p: &R::Ports| #[trigger] command.requires((p,)),
        ensures
            exists|c: CmdId|
                command.ensures((&self.spec_ports(),), c) && (r is Ok <==> count_cmd(
                    self.spec_runtime().spec_outbox().1,
                    c,
                ) == expected),
    {
        let c = command(self.instance.ports());
        assert(command.ensures((&self.spec_ports(),), c));
        self.expect_emits_at(c, expected)
    }
}

/// The sense writes of one [`Scenario`] frame, named through selectors over
/// the recipe's ports and applied in order when the frame runs.
pub struct Frame<'a, R: Recipe> {
    ports: &'a R::Ports,
    writes: Vec<(SenseId, Signal)>,
}

impl<'a, R: Recipe> Frame<'a, R> {
    pub closed spec fn spec_ports(&self) -> R::Ports {
        *self.ports
    }

    /// The writes named so far, in order.
    pub closed spec fn spec_writes(&self) -> Seq<(SenseId, Signal)> {
        self.writes@
    }

    /// Name one write of `value` to the selected sense.
    pub fn set<G: Fn(&R::Ports) -> SenseId>(&mut self, sense: G, value: Signal) -> (r: Result<(), ScenarioError>)
        requires
            forall|p: &R::Ports| #[trigger] sense.requires((p,)),
        ensures
            r is Ok,
            final(self).spec_ports() == old(self).spec_ports(),
            exists|h: SenseId|
                sense.ensures((&old(self).spec_ports(),), h) && final(self).spec_writes() == old(
                    self,
                ).spec_writes().push((h, value)),
    {
        let h = sense(self.ports);
        self.writes.push((h, value));
        assert(sense.ensures((&old(self).spec_ports(),), h));
        assert(self.spec_writes() == old(self).spec_writes().push((h, value)));
        Ok(())
    }
}

} // verus!
