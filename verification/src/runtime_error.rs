//! Runtime-facing errors: bind failures, misused dense handles, checkpoint
//! restore failures, and the errors of recipes, scenarios and cookbook runs.

use vstd::prelude::*;

use crate::builder::BuildError;
use crate::catalog::{NumericPath, PortSlot, SignalDomain};
use crate::handles::{CmdId, HostPathId, KnotHandle, SenseId};
use crate::signal::Signal;
use crate::validate::ValidationError;

verus! {

/// Failure while turning a [`crate::weave::Weave`] into a runtime.
#[derive(Clone, Debug, PartialEq, Eq)]
pub enum BindError {
    /// The weave failed budget validation.
    InvalidWeave { weave_id: String, source: ValidationError },
    /// A dense runtime representation overflowed.
    CapacityExceeded { weave_id: String, resource: &'static str, count: usize },
    /// A thread endpoint could not be resolved.
    InvalidReference { weave_id: String, knot: String, port: String },
    /// The graph could not be ordered.
    InvalidTopology { weave_id: String },
}

/// A dense handle used with the wrong runtime or out of range.
#[derive(Clone, Copy, Debug, PartialEq, Eq)]
pub enum HandleError {
    /// The handle was issued by a different runtime.
    ForeignRuntime { handle: &'static str },
    /// The sense handle is out of range or not a `SignalIn` knot.
    InvalidSense { sense: SenseId },
    /// The host path handle is out of range.
    InvalidHostPath { path: HostPathId },
    /// The command handle is out of range.
    InvalidCommand { cmd: CmdId },
    /// The knot handle is out of range.
    InvalidKnot { knot: KnotHandle },
    /// The port slot is not a port of the knot.
    InvalidPort { knot: KnotHandle, port: PortSlot },
    /// A host value violates the sense's declared domain.
    DomainValue { sense: SenseId, domain: SignalDomain },
}

/// Failure while restoring a [`crate::runtime_state::RuntimeState`].
#[derive(Clone, Debug, PartialEq, Eq)]
pub enum RestoreError {
    UnsupportedVersion { found: u32, supported: u32 },
    NumericPathMismatch { expected: NumericPath, found: NumericPath },
    InvalidPhase { found: u8 },
    FingerprintMismatch { expected: u64, found: u64 },
    ShapeMismatch { field: &'static str, expected: usize, found: usize },
    InvalidRng,
    InvalidTimer { knot: usize, remaining: u16, max: u16 },
    InvalidDelayHead { knot: usize, head: u16, len: u16 },
    InvalidSignal { field: &'static str, knot: usize, domain: SignalDomain },
}

/// Failure of [`crate::runtime::Runtime::bind_restored`].
#[derive(Clone, Debug, PartialEq, Eq)]
pub enum BindRestoreError {
    /// The weave could not be bound.
    Bind(Box<BindError>),
    /// The fresh runtime rejected the checkpoint.
    Restore(RestoreError),
}

/// Failure of [`crate::runtime::Runtime::bind_with_preset`].
#[derive(Clone, Debug, PartialEq, Eq)]
pub enum PresetError {
    /// The weave could not be bound.
    Bind(Box<BindError>),
    /// Two entries name the same knot.
    Duplicate { knot: String },
    /// No knot has the entry's name.
    Missing { knot: String },
    /// The named knot is not of the kind the entry sets.
    WrongKind { knot: String, expected: &'static str },
    /// A sense entry's value violates the knot's domain.
    InvalidSignal { knot: String, domain: SignalDomain },
}

/// The kind of named endpoint a recipe requires from a bound runtime.
#[derive(Clone, Copy, Debug, PartialEq, Eq, Structural)]
pub enum RecipeEndpoint {
    /// A host-writable sense backed by a `SignalIn` knot.
    SignalIn,
    /// A host path backed by a `SignalOut` knot.
    SignalOut,
    /// A command backed by an `EmitCommand` knot.
    EmitCommand,
    /// A named knot.
    Knot,
    /// A catalog port of a named knot.
    Port,
}

/// Failure while resolving one of a recipe's named endpoints.
#[derive(Clone, Debug, PartialEq, Eq)]
pub enum RecipeResolveError {
    /// No endpoint of that name exists in the bound runtime.
    Missing { endpoint: RecipeEndpoint, name: String },
    /// The named endpoint exists but is not of the required kind.
    Invalid { endpoint: RecipeEndpoint, name: String, reason: &'static str },
}

/// Failure while building, binding or resolving a recipe.
#[derive(Clone, Debug, PartialEq, Eq)]
pub enum RecipeError {
    Build(BuildError),
    Bind(Box<BindError>),
    Resolve(RecipeResolveError),
}

impl From<BuildError> for RecipeError {
    fn from(value: BuildError) -> (r: RecipeError) {
        RecipeError::Build(value)
    }
}

impl vstd::std_specs::convert::FromSpecImpl<BuildError> for RecipeError {
    open spec fn obeys_from_spec() -> bool {
        true
    }

    open spec fn from_spec(value: BuildError) -> RecipeError {
        RecipeError::Build(value)
    }
}

impl From<BindError> for RecipeError {
    fn from(value: BindError) -> (r: RecipeError) {
        RecipeError::Bind(Box::new(value))
    }
}

impl vstd::std_specs::convert::FromSpecImpl<BindError> for RecipeError {
    open spec fn obeys_from_spec() -> bool {
        true
    }

    open spec fn from_spec(value: BindError) -> RecipeError {
        RecipeError::Bind(Box::new(value))
    }
}

impl From<RecipeResolveError> for RecipeError {
    fn from(value: RecipeResolveError) -> (r: RecipeError) {
        RecipeError::Resolve(value)
    }
}

impl vstd::std_specs::convert::FromSpecImpl<RecipeResolveError> for RecipeError {
    open spec fn obeys_from_spec() -> bool {
        true
    }

    open spec fn from_spec(value: RecipeResolveError) -> RecipeError {
        RecipeError::Resolve(value)
    }
}

/// Failure while driving or checking a scenario.
#[derive(Clone, Debug, PartialEq)]
pub enum ScenarioError {
    /// The recipe could not be built, bound or resolved.
    Recipe(RecipeError),
    /// A frame write or lookup used an invalid handle.
    Handle(HandleError),
    /// The path produced no sample in the frame.
    MissingSignal { path: String, tick: u64 },
    /// The path's sample differs from the expected value.
    UnexpectedSignal { path: String, expected: Signal, actual: Signal, tick: u64 },
    /// The path's sample is falsey.
    ExpectedTruthy { path: String, actual: Signal, tick: u64 },
    /// The command fired a different number of times than expected.
    UnexpectedEmits { command: String, expected: usize, actual: usize, tick: u64 },
}

impl From<RecipeError> for ScenarioError {
    fn from(value: RecipeError) -> (r: ScenarioError) {
        ScenarioError::Recipe(value)
    }
}

impl vstd::std_specs::convert::FromSpecImpl<RecipeError> for ScenarioError {
    open spec fn obeys_from_spec() -> bool {
        true
    }

    open spec fn from_spec(value: RecipeError) -> ScenarioError {
        ScenarioError::Recipe(value)
    }
}

impl From<HandleError> for ScenarioError {
    fn from(value: HandleError) -> (r: ScenarioError) {
        ScenarioError::Handle(value)
    }
}

impl vstd::std_specs::convert::FromSpecImpl<HandleError> for ScenarioError {
    open spec fn obeys_from_spec() -> bool {
        true
    }

    open spec fn from_spec(value: HandleError) -> ScenarioError {
        ScenarioError::Handle(value)
    }
}

/// Error of an executable cookbook recipe.
#[derive(Clone, Debug, PartialEq)]
pub enum CookbookError {
    Build(BuildError),
    Validation(ValidationError),
    Bind(BindError),
    Handle(HandleError),
    Scenario(ScenarioError),
}

impl From<BuildError> for CookbookError {
    fn from(value: BuildError) -> (r: CookbookError) {
        CookbookError::Build(value)
    }
}

impl vstd::std_specs::convert::FromSpecImpl<BuildError> for CookbookError {
    open spec fn obeys_from_spec() -> bool {
        true
    }

    open spec fn from_spec(value: BuildError) -> CookbookError {
        CookbookError::Build(value)
    }
}

impl From<ValidationError> for CookbookError {
    fn from(value: ValidationError) -> (r: CookbookError) {
        CookbookError::Validation(value)
    }
}

impl vstd::std_specs::convert::FromSpecImpl<ValidationError> for CookbookError {
    open spec fn obeys_from_spec() -> bool {
        true
    }

    open spec fn from_spec(value: ValidationError) -> CookbookError {
        CookbookError::Validation(value)
    }
}

impl From<BindError> for CookbookError {
    fn from(value: BindError) -> (r: CookbookError) {
        CookbookError::Bind(value)
    }
}

impl vstd::std_specs::convert::FromSpecImpl<BindError> for CookbookError {
    open spec fn obeys_from_spec() -> bool {
        true
    }

    open spec fn from_spec(value: BindError) -> CookbookError {
        CookbookError::Bind(value)
    }
}

impl From<HandleError> for CookbookError {
    fn from(value: HandleError) -> (r: CookbookError) {
        CookbookError::Handle(value)
    }
}

impl vstd::std_specs::convert::FromSpecImpl<HandleError> for CookbookError {
    open spec fn obeys_from_spec() -> bool {
        true
    }

    open spec fn from_spec(value: HandleError) -> CookbookError {
        CookbookError::Handle(value)
    }
}

impl From<ScenarioError> for CookbookError {
    fn from(value: ScenarioError) -> (r: CookbookError) {
        CookbookError::Scenario(value)
    }
}

impl vstd::std_specs::convert::FromSpecImpl<ScenarioError> for CookbookError {
    open spec fn obeys_from_spec() -> bool {
        true
    }

    open spec fn from_spec(value: ScenarioError) -> CookbookError {
        CookbookError::Scenario(value)
    }
}

} // verus!
