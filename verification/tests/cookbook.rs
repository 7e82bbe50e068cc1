//! The tutorial recipes, run end to end.

use wyrd::cookbook::tier_a::{
    run_a01_hello_invert, run_a02_two_plate_and, run_a03_bind_sample_loom, run_a04_host_tick_once,
    run_a05_validate_fails, run_a05_validate_fails_with,
};
use wyrd::cookbook::tier_b::{
    run_b01_monostable_pattern, run_b01_monostable_pattern_with, run_b02_two_plate_door, run_b03_flag_toggle,
    run_b04_counter_threshold, run_b05_delayed_pulse,
};
use wyrd::cookbook::tier_c::{
    run_c01_multi_switch_latch, run_c02_timed_hold, run_c03_press_n_then_window, run_c04_button_cooldown,
    run_c05_axis_digital, run_c06_map_remap, run_c07_digitize_steps, run_c08_on_start_once, run_c09_emit_once,
    run_c10_or_any_of_keys,
};
use wyrd::cookbook::tier_d::{run_d01_shrine_chamber, run_d01_shrine_chamber_with, D01Knot};
use wyrd::cookbook::tier_b::{b02_two_plate_door_weave, b04_counter_threshold_weave};
use wyrd::cookbook::tier_c::{
    c03_press_n_then_window_weave, c05_axis_digital_weave, c06_map_remap_weave, c07_digitize_steps_weave,
};
use wyrd::runtime_error::CookbookError;

#[test]
fn b01_pattern_recipe_runs() {
    run_b01_monostable_pattern().unwrap();
}

#[test]
fn b01_pattern_validation_error_propagates() {
    assert!(run_b01_monostable_pattern_with(true).is_err());
}

#[test]
fn d01_duplicate_knots_propagate_the_real_builder_error() {
    for duplicate_at in [
        D01Knot::PlayerOnPad,
        D01Knot::GateOpen,
        D01Knot::BridgeTarget,
        D01Knot::BridgeOut,
        D01Knot::Transition,
    ] {
        assert!(run_d01_shrine_chamber_with(Some(duplicate_at), None).is_err());
    }
}

#[test]
fn d01_foreign_senses_propagate_the_real_tick_error() {
    for tick in 1..=6 {
        assert!(run_d01_shrine_chamber_with(None, Some(tick)).is_err());
    }
}

#[test]
fn tier_a_recipes_run() {
    run_a01_hello_invert().unwrap();
    run_a02_two_plate_and().unwrap();
    run_a03_bind_sample_loom().unwrap();
    run_a04_host_tick_once().unwrap();
    run_a05_validate_fails().unwrap();
}

#[test]
fn a05_valid_map_is_reported() {
    assert!(matches!(run_a05_validate_fails_with(true), Err(CookbookError::Validation(_))));
}

#[test]
fn tier_b_recipes_run() {
    run_b02_two_plate_door().unwrap();
    run_b03_flag_toggle().unwrap();
    run_b04_counter_threshold().unwrap();
    run_b05_delayed_pulse().unwrap();
}

#[test]
fn tier_c_recipes_run() {
    run_c01_multi_switch_latch().unwrap();
    run_c02_timed_hold().unwrap();
    run_c03_press_n_then_window().unwrap();
    run_c04_button_cooldown().unwrap();
    run_c05_axis_digital().unwrap();
    run_c06_map_remap().unwrap();
    run_c07_digitize_steps().unwrap();
    run_c08_on_start_once().unwrap();
    run_c09_emit_once().unwrap();
    run_c10_or_any_of_keys().unwrap();
}

#[test]
fn tier_d_chamber_runs() {
    run_d01_shrine_chamber().unwrap();
}

#[test]
fn d01_duplicate_knot_is_a_build_error_and_foreign_sense_a_handle_error() {
    assert!(matches!(
        run_d01_shrine_chamber_with(Some(D01Knot::GateOpen), None),
        Err(CookbookError::Build(_))
    ));
    assert!(matches!(run_d01_shrine_chamber_with(None, Some(3)), Err(CookbookError::Handle(_))));
}

#[test]
fn a05_invalid_map_preserves_the_validation_error() {
    assert!(matches!(
        wyrd::cookbook::tier_a::a05_validate_fails_weave(),
        Err(wyrd::BuildError::Validation(wyrd::ValidationError::InvalidParameter { .. }))
    ));
}

fn assert_duplicate_knot_rejected(weave: &wyrd::Weave, id: &str) {
    let kind = weave.knots().iter().find(|knot| knot.id == id).expect("recipe owns the requested knot").kind.clone();
    let mut builder = wyrd::Weave::builder("cookbook-duplicate").expect("valid builder id");
    builder.knot(id, kind.clone()).expect("first knot is valid");
    assert!(matches!(builder.knot(id, kind), Err(wyrd::BuildError::DuplicateKnotId { .. })));
}

#[test]
fn b02_and_b04_keep_duplicate_knot_diagnostics() {
    assert_duplicate_knot_rejected(&b02_two_plate_door_weave().unwrap(), "door");
    assert_duplicate_knot_rejected(&b04_counter_threshold_weave().unwrap(), "cmp");
}

#[test]
fn c03_c05_c06_and_c07_keep_duplicate_knot_diagnostics() {
    assert_duplicate_knot_rejected(&c03_press_n_then_window_weave().unwrap(), "cmp");
    let c05 = c05_axis_digital_weave().unwrap();
    for id in ["th", "pressed", "just"] {
        assert_duplicate_knot_rejected(&c05, id);
    }
    assert_duplicate_knot_rejected(&c06_map_remap_weave().unwrap(), "map");
    assert_duplicate_knot_rejected(&c07_digitize_steps_weave().unwrap(), "dig");
}
