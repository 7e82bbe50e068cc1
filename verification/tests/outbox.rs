//! Host-boundary domain checks.

use wyrd::catalog::SignalDomain;
use wyrd::cookbook::helpers::{bind_default, signal_out_sample, signal_out_truthy, signal_out_value};
use wyrd::outbox::domain_value_is_valid;
use wyrd::signal::{from_count, ONE, ZERO};
use wyrd::{BindOpts, HandleError, HostTime, KnotKind, Runtime, SenseId, Weave};

#[test]
fn domain_values_are_checked_at_the_host_boundary() {
    assert!(domain_value_is_valid(SignalDomain::Bool, ZERO));
    assert!(domain_value_is_valid(SignalDomain::Bool, ONE));
    assert!(!domain_value_is_valid(SignalDomain::Bool, from_count(2)));
    assert!(domain_value_is_valid(SignalDomain::Level, i32::MAX));
    assert!(domain_value_is_valid(SignalDomain::Count, i32::MIN));
}

#[test]
fn set_sense_oob_returns_error_without_mutation() {
    let mut b = Weave::builder("x").unwrap();
    let _k_c = b.knot("c", KnotKind::constant(ONE, SignalDomain::Bool)).unwrap();
    let weave = b.build().unwrap();
    let mut rt = Runtime::bind(weave.copy(), BindOpts::default()).unwrap();
    let mut other_builder = Weave::builder("other").unwrap();
    let _sense = other_builder.knot("sense", KnotKind::signal_in(SignalDomain::Bool)).unwrap();
    let other = Runtime::bind(other_builder.build().unwrap(), BindOpts::default()).unwrap();
    let invalid = other.sense_id("sense").unwrap();
    assert_eq!(rt.port_writer().set_sense(invalid, ONE), Err(HandleError::ForeignRuntime { handle: "sense" }));
    assert!(rt.outbox().signals().is_empty());
    assert!(rt.outbox().emits().is_empty());
}

#[test]
fn set_sense_rejects_same_runtime_non_sense_and_domain_values() {
    let mut b = Weave::builder("domain-errors").unwrap();
    let _constant = b.knot("constant", KnotKind::constant(ONE, SignalDomain::Bool)).unwrap();
    let _bool_sense = b.knot("bool", KnotKind::signal_in(SignalDomain::Bool)).unwrap();
    let _count_sense = b.knot("count", KnotKind::signal_in(SignalDomain::Count)).unwrap();
    let mut rt = Runtime::bind(b.build().unwrap(), BindOpts::default()).unwrap();
    let owner = rt.sense_id("bool").unwrap().owner();

    // Knot insertion order is dense at bind: constant=0, bool=1, count=2.
    let constant_as_sense = SenseId::new(owner, 0);
    assert_eq!(
        rt.port_writer().set_sense(constant_as_sense, ONE),
        Err(HandleError::InvalidSense { sense: constant_as_sense })
    );

    let bool_id = SenseId::new(owner, 1);
    assert_eq!(
        rt.port_writer().set_sense(bool_id, from_count(2)),
        Err(HandleError::DomainValue { sense: bool_id, domain: SignalDomain::Bool })
    );

    let count_id = SenseId::new(owner, 2);
    rt.port_writer().set_sense(count_id, 1).unwrap();
}

fn runtime_with_zero_output() -> Runtime {
    let mut builder = Weave::builder("strict-signal-out").unwrap();
    let constant = builder.knot("zero", KnotKind::constant(ZERO, SignalDomain::Bool)).unwrap();
    let output = builder.knot("output", KnotKind::signal_out("known.output", SignalDomain::Bool)).unwrap();
    let from = builder.output(&constant, "out").unwrap();
    let to = builder.input(&output, "in").unwrap();
    builder.connect(from, to).unwrap();
    bind_default(&builder.build().unwrap()).unwrap()
}

#[test]
fn emitted_zero_remains_a_present_falsey_sample() {
    let mut rt = runtime_with_zero_output();
    rt.begin_frame(HostTime { tick: 0 });
    rt.loom();

    assert_eq!(signal_out_value(&rt, "known.output"), ZERO);
    assert!(!signal_out_truthy(&rt, "known.output"));
}

#[test]
fn unbound_or_unsampled_paths_have_no_sample() {
    let mut rt = runtime_with_zero_output();
    assert_eq!(signal_out_sample(&rt, "unknown.output"), None);
    rt.begin_frame(HostTime { tick: 0 });
    rt.loom();
    rt.begin_frame(HostTime { tick: 1 });
    assert_eq!(signal_out_sample(&rt, "known.output"), None);
}
