//! Structural and budget validation of weave definitions: fan-in, unknown
//! knots and ports, cycles, required inputs, numeric path and the hard and
//! soft budgets.

use wyrd::{
    validate, validate_report, Budget, BudgetWarning, CompareOp, KnotDef, KnotKind, NumericPath, PortRefDef,
    SignalDomain, ThreadDef, ValidationError, Weave, WeaveDef, ONE,
};

fn def(id: &str, knots: Vec<(&str, KnotKind)>, wires: &[(&str, &str, &str, &str)]) -> WeaveDef {
    WeaveDef {
        id: id.to_string(),
        numeric: NumericPath::compiled(),
        knots: knots.into_iter().map(|(id, kind)| KnotDef { id: id.to_string(), kind }).collect(),
        threads: wires
            .iter()
            .map(|(fk, fp, tk, tp)| ThreadDef { from: PortRefDef::new(fk, fp), to: PortRefDef::new(tk, tp) })
            .collect(),
    }
}

fn weave(id: &str, knots: Vec<(&str, KnotKind)>, wires: &[(&str, &str, &str, &str)]) -> Weave {
    Weave::try_from_def(def(id, knots, wires)).unwrap()
}

fn fault(id: &str, knots: Vec<(&str, KnotKind)>, wires: &[(&str, &str, &str, &str)]) -> ValidationError {
    Weave::try_from_def(def(id, knots, wires)).unwrap_err()
}

fn constant() -> KnotKind {
    KnotKind::constant(ONE, SignalDomain::Bool)
}

fn hello_ok() {
    let w = weave(
        "h",
        vec![("c", constant()), ("n", KnotKind::not()), ("o", KnotKind::signal_out("debug", SignalDomain::Bool))],
        &[("c", "out", "n", "in"), ("n", "out", "o", "in")],
    );
    validate(&w, &Budget::default()).unwrap();
}

fn fan_in_rejects() {
    let e = fault(
        "h",
        vec![("a", constant()), ("b", constant()), ("n", KnotKind::not())],
        &[("a", "out", "n", "in"), ("b", "out", "n", "in")],
    );
    assert!(matches!(e, ValidationError::FanIn { .. }));
}

fn folklore_port_rejects() {
    let e = fault(
        "h",
        vec![("a", KnotKind::signal_in(SignalDomain::Bool)), ("and", KnotKind::and2())],
        &[("a", "out", "and", "a")],
    );
    assert!(matches!(e, ValidationError::UnknownPort { .. }));

    let e = fault(
        "hf",
        vec![("a", KnotKind::signal_in(SignalDomain::Bool)), ("n", KnotKind::not())],
        &[("a", "nope", "n", "in")],
    );
    assert!(matches!(e, ValidationError::UnknownPort { .. }));
}

fn empty_weave_rejects() {
    assert!(matches!(fault("e", vec![], &[]), ValidationError::EmptyWeave { .. }));
}

fn budget_knots_and_threads() {
    let w = weave("b", vec![("c", constant())], &[]);
    let tight = Budget { max_knots: 0, ..Budget::default() };
    assert!(matches!(validate(&w, &tight), Err(ValidationError::BudgetExceeded { .. })));

    let w = weave("b2", vec![("a", constant()), ("n", KnotKind::not())], &[("a", "out", "n", "in")]);
    let tight_t = Budget { max_threads: 0, ..Budget::default() };
    assert!(matches!(validate(&w, &tight_t), Err(ValidationError::BudgetExceeded { .. })));
}

fn fan_out_weave() -> Weave {
    weave(
        "f",
        vec![("c", constant()), ("n0", KnotKind::not()), ("n1", KnotKind::not()), ("n2", KnotKind::not())],
        &[("c", "out", "n0", "in"), ("c", "out", "n1", "in"), ("c", "out", "n2", "in")],
    )
}

fn chain_weave() -> Weave {
    weave(
        "d",
        vec![("c", constant()), ("n0", KnotKind::not()), ("n1", KnotKind::not()), ("n2", KnotKind::not())],
        &[("c", "out", "n0", "in"), ("n0", "out", "n1", "in"), ("n1", "out", "n2", "in")],
    )
}

fn fan_out_budget_hard() {
    let bud = Budget { max_fan_out: 2, ..Budget::default() };
    assert!(matches!(validate(&fan_out_weave(), &bud), Err(ValidationError::BudgetExceeded { .. })));
}

fn chain_depth_budget_hard() {
    let bud = Budget { max_chain_depth: 2, ..Budget::default() };
    assert!(matches!(validate(&chain_weave(), &bud), Err(ValidationError::BudgetExceeded { .. })));
}

fn soft_warnings_do_not_fail_validate() {
    let w = chain_weave();
    let bud = Budget { soft_chain_depth: 2, soft_knots: 2, ..Budget::default() };
    validate(&w, &bud).unwrap();
    let rep = validate_report(&w, &bud).unwrap();
    assert!(!rep.ok());
    assert!(rep.warnings.iter().any(|w| matches!(w, BudgetWarning::SoftChainDepth { depth: 3, soft: 2, .. })));
    assert!(rep.warnings.iter().any(|w| matches!(w, BudgetWarning::SoftKnots { count: 4, soft: 2 })));
    let s = rep.message();
    assert!(s.contains("soft chain depth"));
    assert!(s.contains("soft knot"));
    assert!(s.contains("; "), "multi-warning message joins with semicolon");
}

fn soft_threads_warns_and_ok_display() {
    let w = weave(
        "t",
        vec![("a", constant()), ("n0", KnotKind::not()), ("n1", KnotKind::not())],
        &[("a", "out", "n0", "in"), ("n0", "out", "n1", "in")],
    );
    let bud = Budget { soft_threads: 1, ..Budget::default() };
    let rep = validate_report(&w, &bud).unwrap();
    assert!(rep.warnings.iter().any(|w| matches!(w, BudgetWarning::SoftThreads { count: 2, soft: 1 })));
    assert!(rep.warnings[0].message().contains("soft thread"));

    let clean = validate_report(&w, &Budget::default()).unwrap();
    assert!(clean.ok());
    assert_eq!(clean.message(), "validate ok");
}

fn soft_fan_out_warns() {
    let bud = Budget { soft_fan_out: 2, max_fan_out: 8, ..Budget::default() };
    let rep = validate_report(&fan_out_weave(), &bud).unwrap();
    assert!(rep.warnings.iter().any(|w| matches!(
        w,
        BudgetWarning::SoftFanOut { fan_out: 3, soft: 2, at_knot } if at_knot == "c"
    )));
    assert!(rep.warnings[0].message().contains("'c'"));
}

fn unknown_from_or_to_knot_rejects_body() {
    let e = fault("u", vec![("c", constant())], &[("missing", "out", "c", "out")]);
    assert!(matches!(e, ValidationError::UnknownKnot { .. }));
    let e = fault("u2", vec![("c", constant())], &[("c", "out", "gone", "in")]);
    assert!(matches!(e, ValidationError::UnknownKnot { .. }));
}

fn delay_path_sum_budget_hard() {
    let w = weave(
        "d",
        vec![
            ("c", constant()),
            ("d0", KnotKind::Delay { ticks: 10 }),
            ("d1", KnotKind::Delay { ticks: 10 }),
            ("o", KnotKind::signal_out("y", SignalDomain::Bool)),
        ],
        &[("c", "out", "d0", "in"), ("d0", "out", "d1", "in"), ("d1", "out", "o", "in")],
    );
    let bud = Budget { max_delay_path_sum: 15, ..Budget::default() };
    assert!(matches!(validate(&w, &bud), Err(ValidationError::BudgetExceeded { .. })));
}

fn numeric_mismatch_rejects() {
    let mut d = def("n", vec![("c", constant())], &[]);
    d.numeric = NumericPath::F32;
    assert!(matches!(Weave::try_from_def(d), Err(ValidationError::NumericMismatch { .. })));
}

fn duplicate_knot_id_rejects() {
    let e = fault("d", vec![("a", constant()), ("a", constant())], &[]);
    assert!(matches!(e, ValidationError::DuplicateKnotId { .. }));
}

fn unconnected_required_rejects() {
    let e = fault("u", vec![("n", KnotKind::not())], &[]);
    assert!(matches!(e, ValidationError::UnconnectedRequired { .. }));
}

fn self_loop_and_multi_cycle() {
    let e = fault("c", vec![("n", KnotKind::not())], &[("n", "out", "n", "in")]);
    assert!(matches!(e, ValidationError::Cycle { .. }));
    let e = fault(
        "c2",
        vec![("a", KnotKind::not()), ("b", KnotKind::not())],
        &[("a", "out", "b", "in"), ("b", "out", "a", "in")],
    );
    assert!(matches!(e, ValidationError::Cycle { .. }));
}

fn compare_rhs_const_skips_required_wire() {
    let w = weave(
        "cmp",
        vec![
            ("l", KnotKind::constant(ONE, SignalDomain::Level)),
            ("c", KnotKind::compare(CompareOp::Eq, Some(1), SignalDomain::Level)),
            ("o", KnotKind::signal_out("y", SignalDomain::Bool)),
        ],
        &[("l", "out", "c", "lhs"), ("c", "out", "o", "in")],
    );
    validate(&w, &Budget::default()).unwrap();
}

fn compare_rhs_wired_required_when_no_const() {
    let e = fault(
        "cmp",
        vec![
            ("l", KnotKind::constant(ONE, SignalDomain::Level)),
            ("c", KnotKind::compare(CompareOp::Eq, None, SignalDomain::Level)),
            ("o", KnotKind::signal_out("y", SignalDomain::Bool)),
        ],
        &[("l", "out", "c", "lhs"), ("c", "out", "o", "in")],
    );
    assert!(matches!(e, ValidationError::UnconnectedRequired { .. }));
}

fn unsupported_arity_rejects() {
    let e = fault("a", vec![("x", KnotKind::And { arity: 5 })], &[]);
    assert!(matches!(e, ValidationError::InvalidParameter { ref parameter, .. } if *parameter == "arity"));
}

fn wrong_port_direction_rejects() {
    let e = fault(
        "d",
        vec![("a", KnotKind::signal_in(SignalDomain::Bool)), ("n", KnotKind::Not), ("m", KnotKind::Not)],
        &[("a", "out", "n", "in"), ("n", "in", "m", "in")],
    );
    assert!(matches!(e, ValidationError::WrongPortDirection { .. }));
}

#[test]
fn validate_unsupported_arity_rejects() {
    unsupported_arity_rejects();
}
#[test]
fn validate_edges_unsupported_arity_rejects() {
    unsupported_arity_rejects();
}
#[test]
fn validate_wrong_port_direction_rejects() {
    wrong_port_direction_rejects();
}
#[test]
fn validate_edges_wrong_port_direction_rejects() {
    wrong_port_direction_rejects();
}

#[test]
fn validate_hello_ok() {
    hello_ok();
}
#[test]
fn validate_edges_hello_ok() {
    hello_ok();
}
#[test]
fn validate_fan_in_rejects() {
    fan_in_rejects();
}
#[test]
fn validate_edges_fan_in_rejects() {
    fan_in_rejects();
}
#[test]
fn validate_folklore_port_rejects() {
    folklore_port_rejects();
}
#[test]
fn validate_edges_folklore_port_rejects() {
    folklore_port_rejects();
}
#[test]
fn validate_empty_weave_rejects() {
    empty_weave_rejects();
}
#[test]
fn validate_edges_empty_weave_rejects() {
    empty_weave_rejects();
}
#[test]
fn validate_budget_knots_and_threads() {
    budget_knots_and_threads();
}
#[test]
fn validate_edges_budget_knots_and_threads() {
    budget_knots_and_threads();
}
#[test]
fn validate_fan_out_budget_hard() {
    fan_out_budget_hard();
}
#[test]
fn validate_edges_fan_out_budget_hard() {
    fan_out_budget_hard();
}
#[test]
fn validate_chain_depth_budget_hard() {
    chain_depth_budget_hard();
}
#[test]
fn validate_edges_chain_depth_budget_hard() {
    chain_depth_budget_hard();
}
#[test]
fn validate_soft_warnings_do_not_fail_validate() {
    soft_warnings_do_not_fail_validate();
}
#[test]
fn validate_edges_soft_warnings_do_not_fail_validate() {
    soft_warnings_do_not_fail_validate();
}
#[test]
fn validate_soft_threads_warns_and_ok_display() {
    soft_threads_warns_and_ok_display();
}
#[test]
fn validate_edges_soft_threads_warns_and_ok_display() {
    soft_threads_warns_and_ok_display();
}
#[test]
fn validate_soft_fan_out_warns() {
    soft_fan_out_warns();
}
#[test]
fn validate_edges_soft_fan_out_warns() {
    soft_fan_out_warns();
}
#[test]
fn unknown_from_or_to_knot_rejects() {
    unknown_from_or_to_knot_rejects_body();
}
#[test]
fn validate_delay_path_sum_budget_hard() {
    delay_path_sum_budget_hard();
}
#[test]
fn validate_edges_delay_path_sum_budget_hard() {
    delay_path_sum_budget_hard();
}
#[test]
fn validate_numeric_mismatch_rejects() {
    numeric_mismatch_rejects();
}
#[test]
fn validate_edges_numeric_mismatch_rejects() {
    numeric_mismatch_rejects();
}
#[test]
fn validate_duplicate_knot_id_rejects() {
    duplicate_knot_id_rejects();
}
#[test]
fn validate_edges_duplicate_knot_id_rejects() {
    duplicate_knot_id_rejects();
}
#[test]
fn validate_unconnected_required_rejects() {
    unconnected_required_rejects();
}
#[test]
fn validate_edges_unconnected_required_rejects() {
    unconnected_required_rejects();
}
#[test]
fn validate_self_loop_and_multi_cycle() {
    self_loop_and_multi_cycle();
}
#[test]
fn validate_edges_self_loop_and_multi_cycle() {
    self_loop_and_multi_cycle();
}
#[test]
fn validate_compare_rhs_const_skips_required_wire() {
    compare_rhs_const_skips_required_wire();
}
#[test]
fn validate_edges_compare_rhs_const_skips_required_wire() {
    compare_rhs_const_skips_required_wire();
}
#[test]
fn validate_compare_rhs_wired_required_when_no_const() {
    compare_rhs_wired_required_when_no_const();
}
#[test]
fn validate_edges_compare_rhs_wired_required_when_no_const() {
    compare_rhs_wired_required_when_no_const();
}
