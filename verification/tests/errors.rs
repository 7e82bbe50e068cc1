//! Diagnostics of every runtime-facing error.

use wyrd::builder::BuildError;
use wyrd::catalog::{PortSlot, SignalDomain};
use wyrd::handles::{CmdId, HostPathId, KnotHandle, SenseId};
use wyrd::runtime_error::{
    BindError, BindRestoreError, CookbookError, HandleError, PresetError, RecipeEndpoint, RecipeError,
    RecipeResolveError, RestoreError, ScenarioError,
};
use wyrd::signal::{ONE, ZERO};
use wyrd::validate::ValidationError;

#[test]
fn every_runtime_error_variant_has_a_stable_diagnostic_and_source_chain() {
    let validation = ValidationError::EmptyWeave { weave_id: String::from("empty") };
    let bind_errors = [
        BindError::InvalidWeave { weave_id: String::from("invalid"), source: validation.clone() },
        BindError::CapacityExceeded { weave_id: String::from("capacity"), resource: "knot", count: 257 },
        BindError::InvalidReference {
            weave_id: String::from("reference"),
            knot: String::from("target"),
            port: String::from("input"),
        },
        BindError::InvalidTopology { weave_id: String::from("cycle") },
    ];
    let diagnostics: Vec<String> = bind_errors.iter().map(|e| e.message()).collect();
    assert_eq!(
        diagnostics,
        [
            "cannot bind weave 'invalid': weave 'empty' has no knots",
            "cannot bind weave 'capacity': knot count 257 exceeds runtime capacity",
            "cannot bind weave 'reference': unresolved port 'target.input'",
            "cannot bind weave 'cycle': invalid topology",
        ]
    );
    assert!(bind_errors[0].has_source());
    assert!(bind_errors[1..].iter().all(|error| !error.has_source()));

    let owner = 7;
    let handles = [
        HandleError::ForeignRuntime { handle: "sense" },
        HandleError::InvalidSense { sense: SenseId::new(owner, 1) },
        HandleError::InvalidHostPath { path: HostPathId::new(owner, 2) },
        HandleError::InvalidCommand { cmd: CmdId::new(owner, 3) },
        HandleError::InvalidKnot { knot: KnotHandle::new(owner, 4) },
        HandleError::InvalidPort { knot: KnotHandle::new(owner, 5), port: PortSlot::new(6) },
        HandleError::DomainValue { sense: SenseId::new(owner, 7), domain: SignalDomain::Count },
    ];
    let diagnostics: Vec<String> = handles.iter().map(|e| e.message()).collect();
    assert_eq!(
        diagnostics,
        [
            "sense handle belongs to a different runtime",
            "sense handle 1 is invalid for this runtime",
            "host path handle 2 is invalid",
            "command handle 3 is invalid",
            "knot handle 4 is invalid for this runtime",
            "port handle 6 is invalid for knot 5 in this runtime",
            "sense value for handle 7 is invalid for Count domain",
        ]
    );
    assert!(handles.iter().all(|error| !error.has_source()));

    let cookbook_errors = [
        CookbookError::from(BuildError::ForeignHandle),
        CookbookError::from(validation),
        CookbookError::from(bind_errors[0].clone()),
        CookbookError::from(handles[0]),
    ];
    let diagnostics: Vec<String> = cookbook_errors.iter().map(|e| e.message()).collect();
    assert_eq!(
        diagnostics,
        [
            "cookbook graph build failed: handle belongs to a different weave builder",
            "cookbook validation failed: weave 'empty' has no knots",
            "cookbook bind failed: cannot bind weave 'invalid': weave 'empty' has no knots",
            "cookbook handle failed: sense handle belongs to a different runtime",
        ]
    );
    assert!(cookbook_errors.iter().all(|error| error.has_source()));

    let endpoints = [
        (RecipeEndpoint::SignalIn, "SignalIn"),
        (RecipeEndpoint::SignalOut, "SignalOut"),
        (RecipeEndpoint::EmitCommand, "EmitCommand"),
        (RecipeEndpoint::Knot, "knot"),
        (RecipeEndpoint::Port, "port"),
    ];
    assert!(endpoints.iter().all(|(endpoint, label)| endpoint.label() == *label));

    let resolve_errors = [
        RecipeResolveError::Missing { endpoint: RecipeEndpoint::SignalOut, name: String::from("door.open") },
        RecipeResolveError::Invalid {
            endpoint: RecipeEndpoint::Port,
            name: String::from("door.in"),
            reason: "the port has the wrong domain",
        },
    ];
    assert_eq!(
        resolve_errors.iter().map(|e| e.message()).collect::<Vec<_>>(),
        [
            "required SignalOut endpoint 'door.open' is missing",
            "required port endpoint 'door.in' is invalid: the port has the wrong domain",
        ]
    );
    assert!(resolve_errors.iter().all(|error| !error.has_source()));

    let recipe_errors = [
        RecipeError::from(BuildError::ForeignHandle),
        RecipeError::from(bind_errors[0].clone()),
        RecipeError::from(resolve_errors[0].clone()),
    ];
    assert_eq!(
        recipe_errors.iter().map(|e| e.message()).collect::<Vec<_>>(),
        [
            "cannot build recipe: handle belongs to a different weave builder",
            "cannot bind recipe: cannot bind weave 'invalid': weave 'empty' has no knots",
            "cannot resolve recipe ports: required SignalOut endpoint 'door.open' is missing",
        ]
    );
    assert!(recipe_errors.iter().all(|error| error.has_source()));

    let scenario_errors = [
        ScenarioError::from(recipe_errors[0].clone()),
        ScenarioError::from(HandleError::ForeignRuntime { handle: "sense" }),
        ScenarioError::MissingSignal { path: String::from("door.open"), tick: 4 },
        ScenarioError::UnexpectedSignal { path: String::from("door.open"), expected: ONE, actual: ZERO, tick: 5 },
        ScenarioError::ExpectedTruthy { path: String::from("door.open"), actual: ZERO, tick: 6 },
        ScenarioError::UnexpectedEmits { command: String::from("chime"), expected: 2, actual: 1, tick: 7 },
    ];
    let diagnostics: Vec<String> = scenario_errors.iter().map(|e| e.message()).collect();
    assert!(diagnostics[0].starts_with("cannot start scenario: cannot build recipe"));
    assert!(diagnostics[1].starts_with("scenario handle error: sense"));
    assert!(diagnostics[2].contains("no sample in scenario frame 4"));
    assert!(diagnostics[3].contains("was") && diagnostics[3].contains("expected"));
    assert!(diagnostics[4].contains("was falsey"));
    assert!(diagnostics[5].contains("fired 1 times, expected 2"));
    assert!(scenario_errors[0].has_source());
    assert!(scenario_errors[1].has_source());
    assert!(scenario_errors[2..].iter().all(|error| !error.has_source()));

    let scenario_cookbook = CookbookError::from(scenario_errors[0].clone());
    assert_eq!(
        scenario_cookbook.message(),
        "cookbook scenario failed: cannot start scenario: cannot build recipe: handle belongs to a different weave builder"
    );
    assert!(scenario_cookbook.has_source());
}

#[test]
fn scenario_values_render_as_signed_decimals() {
    let e = ScenarioError::UnexpectedSignal { path: String::from("y"), expected: ONE, actual: -3, tick: 2 };
    assert_eq!(e.message(), "SignalOut path 'y' in scenario frame 2 was -3, expected 65536");
    let e = ScenarioError::ExpectedTruthy { path: String::from("y"), actual: 0, tick: 9 };
    assert_eq!(e.message(), "SignalOut path 'y' in scenario frame 9 was falsey (0)");
}

#[test]
fn restore_errors_render_their_fields() {
    assert_eq!(
        RestoreError::UnsupportedVersion { found: 0, supported: 2 }.message(),
        "runtime snapshot format version 0 is unsupported (expected 2)"
    );
    assert_eq!(
        RestoreError::FingerprintMismatch { expected: 0xff, found: 0x1234_5678_9abc_def0 }.message(),
        "runtime snapshot fingerprint 123456789abcdef0 does not match 00000000000000ff"
    );
    assert_eq!(
        RestoreError::ShapeMismatch { field: "flag", expected: 3, found: 2 }.message(),
        "runtime snapshot field 'flag' has length 2, expected 3"
    );
    assert_eq!(RestoreError::InvalidRng.message(), "runtime snapshot random stream state is zero");
    assert_eq!(
        RestoreError::InvalidSignal { field: "sense_values", knot: 1, domain: SignalDomain::Bool }.message(),
        "runtime snapshot field 'sense_values' at knot 1 holds a value invalid for Bool domain"
    );
}

#[test]
fn preset_and_bind_restore_errors_render_their_fields() {
    assert_eq!(
        PresetError::WrongKind { knot: String::from("lamp"), expected: "Flag" }.message(),
        "preset knot 'lamp' is not a Flag knot"
    );
    assert_eq!(
        PresetError::Duplicate { knot: String::from("a") }.message(),
        "preset names knot 'a' more than once"
    );
    assert_eq!(
        BindRestoreError::Restore(RestoreError::InvalidRng).message(),
        "cannot restore runtime: runtime snapshot random stream state is zero"
    );
}

#[test]
fn validation_messages_name_their_context() {
    let e = ValidationError::UnconnectedRequired { knot_id: String::from("and"), port: String::from("in_0") };
    assert_eq!(e.message(), "required input 'and.in_0' is not connected");
    let e = BuildError::DuplicateKnotId { knot_id: String::from("door") };
    assert!(e.message().contains("duplicate"));
    let e = ValidationError::UnknownPort {
        knot_id: String::from("n"),
        port: String::from("x"),
        expected: vec![String::from("in"), String::from("out")],
    };
    assert_eq!(e.message(), "unknown port 'n.x' (expected one of: in, out)");
    let e = ValidationError::Cycle { at_knot: Some(String::from("a")) };
    assert_eq!(e.message(), "weave contains a cycle at knot 'a'");
    let e = BuildError::UnknownExport {
        instance_id: String::from("pulse"),
        export: String::from("missing"),
        direction: wyrd::catalog::PortDir::In,
    };
    assert!(e.message().contains("missing"));
}
