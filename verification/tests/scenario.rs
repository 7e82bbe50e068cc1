use wyrd::{
    BuildError, CmdId, HostPathId, KnotKind, Recipe, RecipeResolveError, Scenario, ScenarioError, SenseId,
    SignalDomain, Weave, ONE, ZERO,
};

struct Ports {
    button: SenseId,
    lamp: HostPathId,
    ping: CmdId,
}

struct ButtonRecipe;

fn wire(builder: &mut wyrd::WeaveBuilder, from: &wyrd::KnotRef, output: &str, to: &wyrd::KnotRef, input: &str) {
    let output = builder.output(from, output).unwrap();
    let input = builder.input(to, input).unwrap();
    builder.connect(output, input).unwrap();
}

impl Recipe for ButtonRecipe {
    type Ports = Ports;

    fn weave() -> Result<Weave, BuildError> {
        let mut builder = Weave::builder("scenario-button")?;
        let button = builder.knot("button", KnotKind::signal_in(SignalDomain::Bool))?;
        let lamp = builder.knot("lamp", KnotKind::signal_out("lamp", SignalDomain::Bool))?;
        let ping = builder.knot("ping", KnotKind::emit_command("ping"))?;
        wire(&mut builder, &button, "out", &lamp, "in");
        wire(&mut builder, &button, "out", &ping, "trigger");
        builder.build().map_err(BuildError::Validation)
    }

    fn resolve_ports(runtime: &wyrd::Runtime) -> Result<Self::Ports, RecipeResolveError> {
        Ok(Ports {
            button: runtime.required_sense("button")?,
            lamp: runtime.required_path("lamp")?,
            ping: runtime.required_command("ping")?,
        })
    }
}

#[test]
fn scenario_reports_missing_output_before_a_frame() {
    let error = Scenario::<ButtonRecipe>::run(|scenario| scenario.expect_truthy(|ports| ports.lamp))
        .expect_err("no frame has produced a lamp sample");

    assert!(matches!(
        error,
        ScenarioError::MissingSignal { path, tick: 0 } if path == "lamp"
    ));
}

#[test]
fn scenario_distinguishes_falsey_values_and_drives_multiple_frames() {
    Scenario::<ButtonRecipe>::run(|scenario| {
        scenario.frame(|frame| frame.set(|ports| ports.button, ZERO))?;
        scenario.expect_value(|ports| ports.lamp, ZERO)?;
        scenario.expect_emits(|ports| ports.ping, 0)?;

        scenario.frame(|frame| frame.set(|ports| ports.button, ONE))?;
        scenario.expect_truthy(|ports| ports.lamp)?;
        scenario.expect_emits(|ports| ports.ping, 1)?;

        scenario.frame(|frame| frame.set(|ports| ports.button, ONE))?;
        scenario.expect_truthy(|ports| ports.lamp)?;
        scenario.expect_emits(|ports| ports.ping, 0)?;
        Ok(())
    })
    .unwrap();
}

#[test]
fn scenario_value_errors_name_the_path_and_frame() {
    let error = Scenario::<ButtonRecipe>::run(|scenario| {
        scenario.frame(|frame| frame.set(|ports| ports.button, ZERO))?;
        scenario.expect_value(|ports| ports.lamp, ONE)
    })
    .expect_err("falsey lamp should not match ONE");

    assert!(matches!(
        error,
        ScenarioError::UnexpectedSignal { path, expected, actual, tick: 0 }
            if path == "lamp" && expected == ONE && actual == ZERO
    ));
}

#[test]
fn scenario_frame_error_of_the_writer_leaves_the_frame_unsettled() {
    Scenario::<ButtonRecipe>::run(|scenario| {
        let refused = scenario.frame(|frame| {
            frame.set(|ports| ports.button, ONE)?;
            Err(ScenarioError::MissingSignal { path: String::from("writer"), tick: 0 })
        });
        assert!(matches!(refused, Err(ScenarioError::MissingSignal { .. })));
        assert!(scenario.runtime().outbox().signals().is_empty());
        scenario.frame(|_| Ok(()))?;
        scenario.expect_truthy(|ports| ports.lamp)
    })
    .unwrap();
}
