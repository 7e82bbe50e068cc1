//! Named endpoints a host resolves once after bind, and the endpoint
//! manifest of a weave.

use vstd::prelude::*;

use crate::builder::BuildError;
use crate::catalog::{KnotKind, NumericPath, SignalDomain};
use crate::handles::{CmdId, HostPathId, KnotHandle, SenseId};
use crate::runtime::{bind_refused, bound_from, find_name, spec_default_bind_opts, BindOpts, Runtime};
use crate::runtime_error::{RecipeEndpoint, RecipeError, RecipeResolveError};
use crate::scenario::bind_recipe;
use crate::order::{is_key_order, key_order, key_views};
use crate::text::{copy_string, to_owned_string};
use crate::weave::{KnotDef, Weave};
use crate::validate::find_knot;

verus! {

/// `e` reports endpoint `name` of kind `endpoint` as missing (`reason` is
/// `None`) or as invalid for `reason`.
pub open spec fn resolve_error_is(
    e: RecipeResolveError,
    endpoint: RecipeEndpoint,
    name: Seq<char>,
    reason: Option<Seq<char>>,
) -> bool {
    match e {
        RecipeResolveError::Missing { endpoint: ep, name: n } => reason is None && ep == endpoint && n@ == name,
        RecipeResolveError::Invalid { endpoint: ep, name: n, reason: why } => reason == Some(why@) && ep == endpoint && n@
            == name,
    }
}

/// `id` is the handle of the `SignalIn` knot `name` of `rt`.
pub open spec fn sense_found(rt: Runtime, name: Seq<char>, id: SenseId) -> bool {
    &&& find_knot(rt.spec_knots(), name) == Some(id.spec_index() as int)
    &&& rt.spec_knots()[id.spec_index() as int].kind is SignalIn
    &&& id.spec_owner() == rt.spec_owner()
}

/// `rt` has a `SignalIn` knot first named `name`.
pub open spec fn has_sense(rt: Runtime, name: Seq<char>) -> bool {
    find_knot(rt.spec_knots(), name) matches Some(k) && rt.spec_knots()[k].kind is SignalIn
}

/// `e` is the resolution error for a sense `name` that `rt` lacks.
pub open spec fn sense_missing(rt: Runtime, name: Seq<char>, e: RecipeResolveError) -> bool {
    match find_knot(rt.spec_knots(), name) {
        None => resolve_error_is(e, RecipeEndpoint::SignalIn, name, None),
        Some(_) => resolve_error_is(e, RecipeEndpoint::SignalIn, name, Some("the knot is not a SignalIn"@)),
    }
}

/// `id` is the handle of the host path `path` of `rt`.
pub open spec fn path_found(rt: Runtime, path: Seq<char>, id: HostPathId) -> bool {
    find_name(rt.spec_path_names(), path) == Some(id.spec_index() as int) && id.spec_owner() == rt.spec_owner()
}

/// `rt` writes the host path `path`.
pub open spec fn has_path(rt: Runtime, path: Seq<char>) -> bool {
    find_name(rt.spec_path_names(), path) is Some
}

impl Runtime {
    /// The sense handle of the `SignalIn` knot `name`, or why there is none.
    pub fn required_sense(&self, name: &str) -> (r: Result<SenseId, RecipeResolveError>)
        requires
            self.wf(),
        ensures
            match r {
                Ok(id) => find_knot(self.spec_knots(), name@) == Some(id.spec_index() as int)
                    && self.spec_knots()[id.spec_index() as int].kind is SignalIn && id.spec_owner() == self.spec_owner(),
                Err(e) => match find_knot(self.spec_knots(), name@) {
                    None => resolve_error_is(e, RecipeEndpoint::SignalIn, name@, None),
                    Some(k) => !(self.spec_knots()[k].kind is SignalIn) && resolve_error_is(
                        e,
                        RecipeEndpoint::SignalIn,
                        name@,
                        Some("the knot is not a SignalIn"@),
                    ),
                },
            },
    {
        match self.sense_id(name) {
            Some(id) => Ok(id),
            None => {
                proof {
                    crate::validate::lemma_find_knot(self.spec_knots(), name@);
                }
                match self.knot_id(name) {
                    None => Err(RecipeResolveError::Missing { endpoint: RecipeEndpoint::SignalIn, name: to_owned_string(name) }),
                    Some(_) => Err(
                        RecipeResolveError::Invalid {
                            endpoint: RecipeEndpoint::SignalIn,
                            name: to_owned_string(name),
                            reason: "the knot is not a SignalIn",
                        },
                    ),
                }
            },
        }
    }

    /// The handle of the `SignalOut` host path `path`, or why there is none.
    pub fn required_path(&self, path: &str) -> (r: Result<HostPathId, RecipeResolveError>)
        requires
            self.wf(),
        ensures
            match r {
                Ok(id) => find_name(self.spec_path_names(), path@) == Some(id.spec_index() as int) && id.spec_owner()
                    == self.spec_owner(),
                Err(e) => find_name(self.spec_path_names(), path@) is None && resolve_error_is(e, RecipeEndpoint::SignalOut, path@, None),
            },
    {
        match self.path_id(path) {
            Some(id) => Ok(id),
            None => Err(RecipeResolveError::Missing { endpoint: RecipeEndpoint::SignalOut, name: to_owned_string(path) }),
        }
    }

    /// The handle of the `EmitCommand` name `name`, or why there is none.
    pub fn required_command(&self, name: &str) -> (r: Result<CmdId, RecipeResolveError>)
        requires
            self.wf(),
        ensures
            match r {
                Ok(id) => find_name(self.spec_cmd_names(), name@) == Some(id.spec_index() as int) && id.spec_owner()
                    == self.spec_owner(),
                Err(e) => find_name(self.spec_cmd_names(), name@) is None && resolve_error_is(e, RecipeEndpoint::EmitCommand, name@, None),
            },
    {
        match self.cmd_id(name) {
            Some(id) => Ok(id),
            None => Err(RecipeResolveError::Missing { endpoint: RecipeEndpoint::EmitCommand, name: to_owned_string(name) }),
        }
    }

    /// The handle of the knot `name`, or why there is none.
    pub fn required_knot(&self, name: &str) -> (r: Result<KnotHandle, RecipeResolveError>)
        requires
            self.wf(),
        ensures
            match r {
                Ok(h) => find_knot(self.spec_knots(), name@) == Some(h.spec_index() as int) && h.spec_owner()
                    == self.spec_owner(),
                Err(e) => find_knot(self.spec_knots(), name@) is None && resolve_error_is(e, RecipeEndpoint::Knot, name@, None),
            },
    {
        match self.knot_id(name) {
            Some(h) => Ok(h),
            None => Err(RecipeResolveError::Missing { endpoint: RecipeEndpoint::Knot, name: to_owned_string(name) }),
        }
    }
}

/// A host-writable `SignalIn` endpoint.
#[derive(Clone, Debug, PartialEq, Eq)]
pub struct SignalInManifest {
    pub knot: String,
    pub domain: SignalDomain,
}

/// A host-applied `SignalOut` endpoint.
#[derive(Clone, Debug, PartialEq, Eq)]
pub struct SignalOutManifest {
    pub knot: String,
    pub path: String,
    pub domain: SignalDomain,
}

/// A host-applied `EmitCommand` endpoint.
#[derive(Clone, Debug, PartialEq, Eq)]
pub struct EmitCommandManifest {
    pub knot: String,
    pub name: String,
}

/// The endpoints of a validated weave, each list in a fixed order.
#[derive(Clone, Debug, PartialEq, Eq)]
pub struct RecipeManifest {
    pub weave_id: String,
    pub numeric: NumericPath,
    /// `SignalIn` endpoints by knot id.
    pub signal_inputs: Vec<SignalInManifest>,
    /// `SignalOut` endpoints by path, then knot id.
    pub signal_outputs: Vec<SignalOutManifest>,
    /// `EmitCommand` endpoints by command name, then knot id.
    pub emit_commands: Vec<EmitCommandManifest>,
}

/// The `SignalIn` knots of `ks` as (knot id, domain), in knot order.
pub open spec fn signal_ins(ks: Seq<KnotDef>) -> Seq<(Seq<char>, SignalDomain)>
    decreases ks.len(),
{
    if ks.len() == 0 {
        Seq::empty()
    } else {
        let rest = signal_ins(ks.drop_last());
        match ks.last().kind {
            KnotKind::SignalIn { domain } => rest.push((ks.last().id@, domain)),
            _ => rest,
        }
    }
}

/// The `SignalOut` knots of `ks` as (knot id, path, domain), in knot order.
pub open spec fn signal_outs(ks: Seq<KnotDef>) -> Seq<(Seq<char>, Seq<char>, SignalDomain)>
    decreases ks.len(),
{
    if ks.len() == 0 {
        Seq::empty()
    } else {
        let rest = signal_outs(ks.drop_last());
        match ks.last().kind {
            KnotKind::SignalOut { path, domain } => rest.push((ks.last().id@, path@, domain)),
            _ => rest,
        }
    }
}

/// The `EmitCommand` knots of `ks` as (knot id, name), in knot order.
pub open spec fn emit_cmds(ks: Seq<KnotDef>) -> Seq<(Seq<char>, Seq<char>)>
    decreases ks.len(),
{
    if ks.len() == 0 {
        Seq::empty()
    } else {
        let rest = emit_cmds(ks.drop_last());
        match ks.last().kind {
            KnotKind::EmitCommand { name } => rest.push((ks.last().id@, name@)),
            _ => rest,
        }
    }
}

/// Sort keys of `SignalIn` endpoints: the knot id.
pub open spec fn in_keys_of(xs: Seq<(Seq<char>, SignalDomain)>) -> Seq<(Seq<char>, Seq<char>)> {
    xs.map_values(|x: (Seq<char>, SignalDomain)| (x.0, Seq::<char>::empty()))
}

/// Sort keys of `SignalOut` endpoints: the path, then the knot id.
pub open spec fn out_keys_of(xs: Seq<(Seq<char>, Seq<char>, SignalDomain)>) -> Seq<(Seq<char>, Seq<char>)> {
    xs.map_values(|x: (Seq<char>, Seq<char>, SignalDomain)| (x.1, x.0))
}

/// Sort keys of `EmitCommand` endpoints: the name, then the knot id.
pub open spec fn cmd_keys_of(xs: Seq<(Seq<char>, Seq<char>)>) -> Seq<(Seq<char>, Seq<char>)> {
    xs.map_values(|x: (Seq<char>, Seq<char>)| (x.1, x.0))
}

/// `out` is `xs` rearranged by `order`.
pub open spec fn arranged<T>(xs: Seq<T>, order: Seq<usize>, out: Seq<T>) -> bool {
    &&& out.len() == order.len()
    &&& forall|i: int| 0 <= i < order.len() ==> out[i] == xs[order[i] as int]
}

pub open spec fn in_views(v: Seq<SignalInManifest>) -> Seq<(Seq<char>, SignalDomain)> {
    v.map_values(|m: SignalInManifest| (m.knot@, m.domain))
}

pub open spec fn out_views(v: Seq<SignalOutManifest>) -> Seq<(Seq<char>, Seq<char>, SignalDomain)> {
    v.map_values(|m: SignalOutManifest| (m.knot@, m.path@, m.domain))
}

pub open spec fn cmd_views(v: Seq<EmitCommandManifest>) -> Seq<(Seq<char>, Seq<char>)> {
    v.map_values(|m: EmitCommandManifest| (m.knot@, m.name@))
}

/// `m` is the manifest of `weave`: its id and numeric path, and its
/// `SignalIn`, `SignalOut` and `EmitCommand` endpoints, each list in the
/// stable order of its sort keys.
pub open spec fn is_manifest_of(m: RecipeManifest, weave: Weave) -> bool {
    &&& m.weave_id@ == weave.spec_id()
    &&& m.numeric == weave.spec_numeric()
    &&& exists|order: Seq<usize>|
        is_key_order(in_keys_of(signal_ins(weave.spec_knots())), order) && arranged(
            signal_ins(weave.spec_knots()),
            order,
            in_views(m.signal_inputs@),
        )
    &&& exists|order: Seq<usize>|
        is_key_order(out_keys_of(signal_outs(weave.spec_knots())), order) && arranged(
            signal_outs(weave.spec_knots()),
            order,
            out_views(m.signal_outputs@),
        )
    &&& exists|order: Seq<usize>|
        is_key_order(cmd_keys_of(emit_cmds(weave.spec_knots())), order) && arranged(
            emit_cmds(weave.spec_knots()),
            order,
            cmd_views(m.emit_commands@),
        )
}

impl RecipeManifest {
    /// The endpoint manifest of a validated weave.
    pub fn from_weave(weave: &Weave) -> (m: RecipeManifest)
        ensures
            is_manifest_of(m, *weave),
    {
        let ks = weave.knots();
        let ghost kseq = ks@;
        let mut ins: Vec<SignalInManifest> = Vec::new();
        let mut in_keys: Vec<(String, String)> = Vec::new();
        let mut outs: Vec<SignalOutManifest> = Vec::new();
        let mut out_keys: Vec<(String, String)> = Vec::new();
        let mut cmds: Vec<EmitCommandManifest> = Vec::new();
        let mut cmd_keys: Vec<(String, String)> = Vec::new();
        let mut k: usize = 0;
        while k < ks.len()
            invariant
                k <= kseq.len(),
                kseq == ks@,
                in_views(ins@) == signal_ins(kseq.subrange(0, k as int)),
                key_views(in_keys@) == in_keys_of(signal_ins(kseq.subrange(0, k as int))),
                out_views(outs@) == signal_outs(kseq.subrange(0, k as int)),
                key_views(out_keys@) == out_keys_of(signal_outs(kseq.subrange(0, k as int))),
                cmd_views(cmds@) == emit_cmds(kseq.subrange(0, k as int)),
                key_views(cmd_keys@) == cmd_keys_of(emit_cmds(kseq.subrange(0, k as int))),
            decreases kseq.len() - k,
        {
            proof {
                assert(kseq.subrange(0, k + 1).drop_last() =~= kseq.subrange(0, k as int));
                assert(kseq.subrange(0, k + 1).last() == kseq[k as int]);
            }
            let knot = &ks[k];
            match &knot.kind {
                KnotKind::SignalIn { domain } => {
                    ins.push(SignalInManifest { knot: copy_string(&knot.id), domain: *domain });
                    let ghost before = in_keys@;
                    let key = (copy_string(&knot.id), String::new());
                    let ghost kv = (key.0@, key.1@);
                    in_keys.push(key);
                    proof {
                        assert(key_views(in_keys@) =~= key_views(before).push(kv));
                        let prev = signal_ins(kseq.subrange(0, k as int));
                        assert(signal_ins(kseq.subrange(0, k + 1)) == prev.push((knot.id@, *domain)));
                        assert(in_keys_of(prev.push((knot.id@, *domain)))
                            =~= in_keys_of(prev).push(kv));
                        assert(in_views(ins@) =~= signal_ins(kseq.subrange(0, k + 1)));
                        assert(key_views(in_keys@) =~= in_keys_of(signal_ins(kseq.subrange(0, k + 1))));
                    }
                },
                KnotKind::SignalOut { path, domain } => {
                    outs.push(SignalOutManifest { knot: copy_string(&knot.id), path: copy_string(path), domain: *domain });
                    let ghost before = out_keys@;
                    let key = (copy_string(path), copy_string(&knot.id));
                    let ghost kv = (key.0@, key.1@);
                    out_keys.push(key);
                    proof {
                        assert(key_views(out_keys@) =~= key_views(before).push(kv));
                        let prev = signal_outs(kseq.subrange(0, k as int));
                        assert(signal_outs(kseq.subrange(0, k + 1)) == prev.push((knot.id@, path@, *domain)));
                        assert(out_keys_of(prev.push((knot.id@, path@, *domain)))
                            =~= out_keys_of(prev).push(kv));
                        assert(out_views(outs@) =~= signal_outs(kseq.subrange(0, k + 1)));
                        assert(key_views(out_keys@) =~= out_keys_of(signal_outs(kseq.subrange(0, k + 1))));
                    }
                },
                KnotKind::EmitCommand { name } => {
                    cmds.push(EmitCommandManifest { knot: copy_string(&knot.id), name: copy_string(name) });
                    let ghost before = cmd_keys@;
                    let key = (copy_string(name), copy_string(&knot.id));
                    let ghost kv = (key.0@, key.1@);
                    cmd_keys.push(key);
                    proof {
                        assert(key_views(cmd_keys@) =~= key_views(before).push(kv));
                        let prev = emit_cmds(kseq.subrange(0, k as int));
                        assert(emit_cmds(kseq.subrange(0, k + 1)) == prev.push((knot.id@, name@)));
                        assert(cmd_keys_of(prev.push((knot.id@, name@)))
                            =~= cmd_keys_of(prev).push(kv));
                        assert(cmd_views(cmds@) =~= emit_cmds(kseq.subrange(0, k + 1)));
                        assert(key_views(cmd_keys@) =~= cmd_keys_of(emit_cmds(kseq.subrange(0, k + 1))));
                    }
                },
                _ => {
                    proof {
                        assert(in_views(ins@) =~= signal_ins(kseq.subrange(0, k + 1)));
                        assert(out_views(outs@) =~= signal_outs(kseq.subrange(0, k + 1)));
                        assert(cmd_views(cmds@) =~= emit_cmds(kseq.subrange(0, k + 1)));
                    }
                },
            }
            k = k + 1;
        }
        proof {
            assert(kseq.subrange(0, kseq.len() as int) =~= kseq);
        }
        let in_order = key_order(&in_keys);
        let out_order = key_order(&out_keys);
        let cmd_order = key_order(&cmd_keys);
        let signal_inputs = arrange_ins(&ins, &in_order);
        let signal_outputs = arrange_outs(&outs, &out_order);
        let emit_commands = arrange_cmds(&cmds, &cmd_order);
        proof {
            assert(kseq == weave.spec_knots());
            assert(is_key_order(
                in_keys_of(signal_ins(weave.spec_knots())),
                in_order@,
            ) && arranged(signal_ins(weave.spec_knots()), in_order@, in_views(signal_inputs@)));
            assert(is_key_order(
                out_keys_of(signal_outs(weave.spec_knots())),
                out_order@,
            ) && arranged(signal_outs(weave.spec_knots()), out_order@, out_views(signal_outputs@)));
        }
        RecipeManifest { weave_id: to_owned_string(weave.id()), numeric: weave.numeric(), signal_inputs, signal_outputs, emit_commands }
    }
}

fn arrange_ins(v: &Vec<SignalInManifest>, order: &Vec<usize>) -> (r: Vec<SignalInManifest>)
    requires
        forall|i: int| 0 <= i < order@.len() ==> (#[trigger] order@[i]) < v@.len(),
    ensures
        arranged(in_views(v@), order@, in_views(r@)),
{
    let mut r: Vec<SignalInManifest> = Vec::new();
    let mut i: usize = 0;
    while i < order.len()
        invariant
            i <= order@.len(),
            forall|i: int| 0 <= i < order@.len() ==> (#[trigger] order@[i]) < v@.len(),
            in_views(r@).len() == i,
            forall|j: int| 0 <= j < i ==> in_views(r@)[j] == #[trigger] in_views(v@)[order@[j] as int],
        decreases order@.len() - i,
    {
        let m = &v[order[i]];
        r.push(SignalInManifest { knot: copy_string(&m.knot), domain: m.domain });
        i = i + 1;
    }
    r
}

fn arrange_outs(v: &Vec<SignalOutManifest>, order: &Vec<usize>) -> (r: Vec<SignalOutManifest>)
    requires
        forall|i: int| 0 <= i < order@.len() ==> (#[trigger] order@[i]) < v@.len(),
    ensures
        arranged(out_views(v@), order@, out_views(r@)),
{
    let mut r: Vec<SignalOutManifest> = Vec::new();
    let mut i: usize = 0;
    while i < order.len()
        invariant
            i <= order@.len(),
            forall|i: int| 0 <= i < order@.len() ==> (#[trigger] order@[i]) < v@.len(),
            out_views(r@).len() == i,
            forall|j: int| 0 <= j < i ==> out_views(r@)[j] == #[trigger] out_views(v@)[order@[j] as int],
        decreases order@.len() - i,
    {
        let m = &v[order[i]];
        r.push(SignalOutManifest { knot: copy_string(&m.knot), path: copy_string(&m.path), domain: m.domain });
        i = i + 1;
    }
    r
}

fn arrange_cmds(v: &Vec<EmitCommandManifest>, order: &Vec<usize>) -> (r: Vec<EmitCommandManifest>)
    requires
        forall|i: int| 0 <= i < order@.len() ==> (#[trigger] order@[i]) < v@.len(),
    ensures
        arranged(cmd_views(v@), order@, cmd_views(r@)),
{
    let mut r: Vec<EmitCommandManifest> = Vec::new();
    let mut i: usize = 0;
    while i < order.len()
        invariant
            i <= order@.len(),
            forall|i: int| 0 <= i < order@.len() ==> (#[trigger] order@[i]) < v@.len(),
            cmd_views(r@).len() == i,
            forall|j: int| 0 <= j < i ==> cmd_views(r@)[j] == #[trigger] cmd_views(v@)[order@[j] as int],
        decreases order@.len() - i,
    {
        let m = &v[order[i]];
        r.push(EmitCommandManifest { knot: copy_string(&m.knot), name: copy_string(&m.name) });
        i = i + 1;
    }
    r
}

/// A reusable graph whose host ports are resolved by name once, right after
/// bind. Applications implement `weave` and `resolve_ports`; binding comes
/// with every recipe through [`RecipeBind`].
pub trait Recipe: Sized {
    /// Typed runtime handles the recipe's host uses.
    type Ports;

    /// This recipe's weave.
    fn weave() -> Result<Weave, BuildError>;

    /// Resolve the typed ports from the freshly bound runtime.
    fn resolve_ports(runtime: &Runtime) -> Result<Self::Ports, RecipeResolveError>
        requires
            runtime.wf(),
    ;
}

/// Building, binding and resolving a [`Recipe`], and its manifest.
pub trait RecipeBind: Recipe {
    /// Build, bind with default options, and resolve.
    fn bind() -> (r: Result<RecipeInstance<Self>, RecipeError>)
        ensures
            r matches Ok(i) ==> i.wf() && exists|w: Weave| bound_from(i.spec_runtime(), w, spec_default_bind_opts()),
            r matches Err(RecipeError::Bind(e)) ==> exists|w: Weave| bind_refused(w, spec_default_bind_opts(), *e),
    ;

    /// Build, bind with `opts`, and resolve: a build error, a bind error or
    /// a resolution error ends it; otherwise the runtime bound from the
    /// recipe's weave with `opts` and the resolved ports.
    fn bind_with(opts: BindOpts) -> (r: Result<RecipeInstance<Self>, RecipeError>)
        ensures
            r matches Ok(i) ==> i.wf() && exists|w: Weave| bound_from(i.spec_runtime(), w, opts),
            r matches Err(RecipeError::Bind(e)) ==> exists|w: Weave| bind_refused(w, opts, *e),
    ;

    /// The endpoint manifest of this recipe's weave.
    fn manifest() -> (r: Result<RecipeManifest, RecipeError>)
        ensures
            r matches Ok(m) ==> exists|w: Weave| is_manifest_of(m, w),
            r matches Err(e) ==> e is Build,
    ;
}

impl<R: Recipe> RecipeBind for R {
    fn bind() -> (r: Result<RecipeInstance<Self>, RecipeError>) {
        Self::bind_with(BindOpts::default())
    }

    fn bind_with(opts: BindOpts) -> (r: Result<RecipeInstance<Self>, RecipeError>) {
        let runtime = bind_recipe(Self::weave(), opts)?;
        match Self::resolve_ports(&runtime) {
            Ok(ports) => Ok(RecipeInstance { runtime, ports }),
            Err(e) => Err(RecipeError::Resolve(e)),
        }
    }

    fn manifest() -> (r: Result<RecipeManifest, RecipeError>) {
        match Self::weave() {
            Ok(w) => Ok(RecipeManifest::from_weave(&w)),
            Err(e) => Err(RecipeError::Build(e)),
        }
    }
}

/// One bound [`Recipe`]: its runtime and its resolved ports.
pub struct RecipeInstance<R: Recipe> {
    runtime: Runtime,
    ports: R::Ports,
}

impl<R: Recipe> RecipeInstance<R> {
    pub closed spec fn spec_runtime(&self) -> Runtime {
        self.runtime
    }

    pub closed spec fn spec_ports(&self) -> R::Ports {
        self.ports
    }

    pub open spec fn wf(&self) -> bool {
        self.spec_runtime().wf()
    }

    /// The bound runtime.
    pub fn runtime(&self) -> (r: &Runtime)
        ensures
            *r == self.spec_runtime(),
    {
        &self.runtime
    }

    /// The bound runtime, for frame setup and settling.
    pub fn runtime_mut(&mut self) -> (r: &mut Runtime)
        ensures
            *r == old(self).spec_runtime(),
            final(self).spec_runtime() == *final(r),
            final(self).spec_ports() == old(self).spec_ports(),
    {
        &mut self.runtime
    }

    /// The resolved ports.
    pub fn ports(&self) -> (r: &R::Ports)
        ensures
            *r == self.spec_ports(),
    {
        &self.ports
    }

    /// The runtime and the ports, apart.
    pub fn into_parts(self) -> (r: (Runtime, R::Ports))
        ensures
            r.0 == self.spec_runtime(),
            r.1 == self.spec_ports(),
    {
        (self.runtime, self.ports)
    }
}

} // verus!
