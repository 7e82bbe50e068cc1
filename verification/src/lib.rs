//! Wyrd: a deterministic signal-graph runtime for game logic.
//!
//! Author a [`weave::Weave`] of knots and threads, validate it, bind it into a
//! dense [`runtime::Runtime`], feed host senses, settle with `loom`, and read
//! the outbox.

pub mod builder;
pub mod catalog;
pub mod cookbook;
pub mod diagnostics;
pub mod fingerprint;
pub mod graph;
pub mod handles;
pub mod host;
pub mod kind_tag;
pub mod knot_laws;
pub mod loom;
pub mod order;
pub mod outbox;
pub mod pattern;
pub mod recipe;
pub mod runtime;
pub mod runtime_error;
pub mod runtime_state;
pub mod scenario;
pub mod settle;
pub mod signal;
pub mod text;
mod token;
pub mod validate;
pub mod weave;

pub use builder::{slot_of, BuildError, InputRef, KnotRef, OutputRef, WeaveBuilder};
pub use catalog::{
    port_slot, ports_of, CalcOp, CompareOp, FlagPriority, KnotId, KnotKind, NumericPath, PortSlot, SignalDomain,
    TimerMode,
};
pub use handles::{CmdId, HostPathId, KnotHandle, SenseId};
pub use host::{tick_once, HostCommand, NullHost, ScriptedHost};
pub use outbox::{Emit, Outbox, PortWriter, SignalOutSample};
pub use pattern::{Pattern, PatternDef, PatternExportDef};
pub use recipe::{EmitCommandManifest, Recipe, RecipeBind, RecipeInstance, RecipeManifest, SignalInManifest, SignalOutManifest};
pub use runtime::{BindOpts, HostTime, Runtime, Seed};
pub use runtime_error::{
    BindError, CookbookError, HandleError, RecipeEndpoint, RecipeError, RecipeResolveError, RestoreError, ScenarioError,
};
pub use runtime_state::{RuntimePreset, RuntimePresetEntry, RuntimeState};
pub use scenario::{Frame, Scenario};
pub use signal::{from_count, is_truthy, Signal, ONE, ZERO};
pub use validate::{validate, validate_report, Budget, BudgetWarning, ValidateReport, ValidationError};
pub use weave::{KnotDef, PortRefDef, ThreadDef, Weave, WeaveDef};
