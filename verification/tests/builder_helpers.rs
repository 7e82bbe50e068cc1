//! Name- and slot-based wiring helpers of the weave builder.

use wyrd::{BuildError, KnotKind, PortSlot, SignalDomain, Weave};

#[test]
fn wire_named_records_the_names_and_build_checks_them() {
    let mut b = Weave::builder("door").unwrap();
    let pa = b.knot("plate_a", KnotKind::signal_in(SignalDomain::Bool)).unwrap();
    let pb = b.knot("plate_b", KnotKind::signal_in(SignalDomain::Bool)).unwrap();
    let _both = b.and2("both", &pa, &pb).unwrap();
    let _door = b.knot("door", KnotKind::signal_out("door.open", SignalDomain::Bool)).unwrap();
    b.wire_named("both", "out", "door", "in");
    let def = b.to_def();
    assert_eq!(def.threads.len(), 3);
    assert_eq!(def.threads[0].from.knot, "plate_a");
    assert_eq!(def.threads[0].from.port, "out");
    assert_eq!(def.threads[0].to.knot, "both");
    assert_eq!(def.threads[0].to.port, "in_0");
    assert_eq!(def.threads[1].to.port, "in_1");
    assert_eq!(def.threads[2].to.knot, "door");
    let w = b.build().unwrap();
    assert_eq!(w.knots().len(), 4);
}

#[test]
fn wire_named_to_an_unknown_knot_fails_at_build() {
    let mut b = Weave::builder("x").unwrap();
    let _c = b.knot("c", KnotKind::constant(0, SignalDomain::Bool)).unwrap();
    b.wire_named("c", "out", "missing", "in");
    assert!(b.build().is_err());
}

#[test]
fn wire_by_slots_uses_catalog_names() {
    let mut b = Weave::builder("n").unwrap();
    let i = b.knot("in", KnotKind::signal_in(SignalDomain::Bool)).unwrap();
    let n = b.knot("n", KnotKind::not()).unwrap();
    b.wire((i, PortSlot(0)), (n, PortSlot(0))).unwrap();
    let def = b.to_def();
    assert_eq!(def.threads[0].from.port, "out");
    assert_eq!(def.threads[0].to.port, "in");
}

#[test]
fn wire_by_a_missing_slot_is_refused() {
    let mut b = Weave::builder("n").unwrap();
    let i = b.knot("in", KnotKind::signal_in(SignalDomain::Bool)).unwrap();
    let n = b.knot("n", KnotKind::not()).unwrap();
    let r = b.wire((i, PortSlot(5)), (n, PortSlot(0)));
    assert!(matches!(r, Err(BuildError::UnknownPort { .. })));
    assert_eq!(b.to_def().threads.len(), 0);
}

#[test]
fn wire_with_a_foreign_handle_is_refused() {
    let mut other = Weave::builder("o").unwrap();
    let f = other.knot("f", KnotKind::signal_in(SignalDomain::Bool)).unwrap();
    let mut b = Weave::builder("n").unwrap();
    let n = b.knot("n", KnotKind::not()).unwrap();
    assert_eq!(b.wire((f, PortSlot(0)), (n, PortSlot(0))), Err(BuildError::ForeignHandle));
}

#[test]
fn and2_with_a_taken_id_is_refused() {
    let mut b = Weave::builder("d").unwrap();
    let a = b.knot("a", KnotKind::signal_in(SignalDomain::Bool)).unwrap();
    let c = b.knot("c", KnotKind::signal_in(SignalDomain::Bool)).unwrap();
    assert!(matches!(b.and2("a", &a, &c), Err(BuildError::DuplicateKnotId { .. })));
}
