//! Tables a bind builds: seeded knots, dispatch tags, cleared inputs,
//! interned names and the topological order.

use wyrd::kind_tag::KindTag;
use wyrd::runtime::{topo_order, SenseSeed};
use wyrd::{
    BindOpts, CalcOp, CmdId, FlagPriority, HandleError, HostPathId, KnotHandle, KnotKind, PortSlot, Runtime, Seed,
    SignalDomain, Weave, ONE,
};

#[test]
fn sense_seeds_lists_only_sense_knots() {
    let mut b = Weave::builder("s").unwrap();
    let k_in = b.knot("in", KnotKind::signal_in(SignalDomain::Bool)).unwrap();
    let _k_c = b.knot("c", KnotKind::constant(ONE, SignalDomain::Bool)).unwrap();
    let k_n = b.knot("n", KnotKind::Not).unwrap();
    let k_out = b.knot("out", KnotKind::signal_out("y", SignalDomain::Bool)).unwrap();
    let from = b.output(&k_in, "out").unwrap();
    let to = b.input(&k_n, "in").unwrap();
    b.connect(from, to).unwrap();
    let from = b.output(&k_n, "out").unwrap();
    let to = b.input(&k_out, "in").unwrap();
    b.connect(from, to).unwrap();
    let weave = b.build().unwrap();
    let rt = Runtime::bind(weave.copy(), BindOpts::default()).unwrap();
    assert_eq!(rt.sense_seeds().len(), 2, "SignalIn + Constant only");
    assert!(rt.sense_seeds().iter().any(|s| matches!(s, SenseSeed::SignalIn { .. })));
    assert!(rt.sense_seeds().iter().any(|s| matches!(s, SenseSeed::Constant { value, .. } if *value == ONE)));
    let mut b = Weave::builder("e").unwrap();
    let k_btn = b.knot("btn", KnotKind::signal_in(SignalDomain::Bool)).unwrap();
    let k_em = b.knot("em", KnotKind::emit_command("fire")).unwrap();
    let from = b.output(&k_btn, "out").unwrap();
    let to = b.input(&k_em, "trigger").unwrap();
    b.connect(from, to).unwrap();
    let weave = b.build().unwrap();
    let rt = Runtime::bind(weave.copy(), BindOpts { seed: Some(Seed(1)), ..BindOpts::default() }).unwrap();
    let em = rt.knot_id("em").expect("em knot");
    assert!(matches!(rt.kind_tags()[usize::from(em.get())], KindTag::EmitCommand { enable_wired: false }));
}

#[test]
fn cmd_name_and_path_name_lookup() {
    let mut b = Weave::builder("e").unwrap();
    let k_btn = b.knot("btn", KnotKind::signal_in(SignalDomain::Bool)).unwrap();
    let k_em = b.knot("em", KnotKind::emit_command("fire")).unwrap();
    let k_out = b.knot("out", KnotKind::signal_out("y", SignalDomain::Bool)).unwrap();
    let from = b.output(&k_btn, "out").unwrap();
    let to = b.input(&k_em, "trigger").unwrap();
    b.connect(from, to).unwrap();
    let from = b.output(&k_btn, "out").unwrap();
    let to = b.input(&k_out, "in").unwrap();
    b.connect(from, to).unwrap();
    let weave = b.build().unwrap();
    let rt = Runtime::bind(weave.copy(), BindOpts { seed: Some(Seed(1)), ..BindOpts::default() }).unwrap();
    let cmd = rt.cmd_id("fire").unwrap();
    assert_eq!(rt.cmd_name(cmd), Ok("fire"));
    let invalid_cmd = CmdId::new(cmd.owner(), 99);
    assert_eq!(rt.cmd_name(invalid_cmd), Err(HandleError::InvalidCommand { cmd: invalid_cmd }));
    let path = rt.path_id("y").unwrap();
    assert_eq!(rt.path_name(path), Ok("y"));
    let invalid_path = HostPathId::new(path.owner(), 99);
    assert_eq!(rt.path_name(invalid_path), Err(HandleError::InvalidHostPath { path: invalid_path }));
}

#[test]
fn topo_order_detects_cycle() {
    let threads = vec![(0u16, 1u8, 1u16, 0u8), (1, 1, 0, 0)];
    assert_eq!(topo_order(2, &threads), None);
}

#[test]
fn topo_order_places_sources_before_targets() {
    let threads = vec![(2u16, 0u8, 0u16, 0u8), (0, 1, 1, 0)];
    assert_eq!(topo_order(3, &threads), Some(vec![2, 0, 1]));
    assert_eq!(topo_order(1, &vec![(0, 1, 0, 0)]), Some(vec![0]));
}

#[test]
fn checked_port_access_reports_oob_without_mutation() {
    let mut b = Weave::builder("x").unwrap();
    let _k_c = b.knot("c", KnotKind::constant(ONE, SignalDomain::Bool)).unwrap();
    let weave = b.build().unwrap();
    let mut rt = Runtime::bind(weave.copy(), BindOpts::default()).unwrap();
    let owner = rt.knot_id("c").unwrap().owner();
    let far_handle = KnotHandle::new(owner, 999);
    assert_eq!(rt.get_port_checked(far_handle, PortSlot::new(0)), Err(HandleError::InvalidKnot { knot: far_handle }));
    assert_eq!(rt.set_port_checked(far_handle, PortSlot::new(0), ONE), Err(HandleError::InvalidKnot { knot: far_handle }));
    let _ = FlagPriority::SetWins;
}

#[test]
fn clear_only_unwired_ins_and_div_const_specializes() {
    let mut b = Weave::builder("fl").unwrap();
    let k_f = b.knot("f", KnotKind::flag(FlagPriority::SetWins, false)).unwrap();
    let k_o = b.knot("o", KnotKind::signal_out("y", SignalDomain::Bool)).unwrap();
    let from = b.output(&k_f, "out").unwrap();
    let to = b.input(&k_o, "in").unwrap();
    b.connect(from, to).unwrap();
    let weave = b.build().unwrap();
    let rt = Runtime::bind(weave.copy(), BindOpts::default()).unwrap();
    assert_eq!(rt.clear_port_index_count(), 3, "unwired Flag Ins must clear");

    let mut b = Weave::builder("dv").unwrap();
    let k_in = b.knot("in", KnotKind::signal_in(SignalDomain::Level)).unwrap();
    let k_one = b.knot("one", KnotKind::constant(ONE, SignalDomain::Level)).unwrap();
    let k_d = b.knot("d", KnotKind::Calc { domain: SignalDomain::Level, op: CalcOp::Div }).unwrap();
    let k_out = b.knot("out", KnotKind::signal_out("y", SignalDomain::Level)).unwrap();
    let from = b.output(&k_in, "out").unwrap();
    let to = b.input(&k_d, "a").unwrap();
    b.connect(from, to).unwrap();
    let from = b.output(&k_one, "out").unwrap();
    let to = b.input(&k_d, "b").unwrap();
    b.connect(from, to).unwrap();
    let from = b.output(&k_d, "out").unwrap();
    let to = b.input(&k_out, "in").unwrap();
    b.connect(from, to).unwrap();
    let weave = b.build().unwrap();
    let rt = Runtime::bind(weave.copy(), BindOpts::default()).unwrap();
    let d = rt.knot_id("d").expect("div knot");
    assert!(matches!(
        rt.kind_tags()[usize::from(d.get())],
        KindTag::CalcDivLevelConst { divisor } if divisor == ONE
    ));
}

#[test]
fn div_with_a_dynamic_rhs_keeps_the_general_dispatch_tag() {
    let mut b = Weave::builder("dynamic-divisor").unwrap();
    let lhs = b.knot("lhs", KnotKind::signal_in(SignalDomain::Level)).unwrap();
    let rhs = b.knot("rhs", KnotKind::signal_in(SignalDomain::Level)).unwrap();
    let div = b.knot("div", KnotKind::Calc { domain: SignalDomain::Level, op: CalcOp::Div }).unwrap();
    b.connect(b.output(&lhs, "out").unwrap(), b.input(&div, "a").unwrap()).unwrap();
    b.connect(b.output(&rhs, "out").unwrap(), b.input(&div, "b").unwrap()).unwrap();

    let rt = Runtime::bind(b.build().unwrap(), BindOpts::default()).unwrap();
    let div = rt.knot_id("div").unwrap();
    assert!(matches!(rt.kind_tags()[usize::from(div.get())], KindTag::CalcDivLevel));
}

#[test]
fn sense_id_rejects_existing_non_sense_knots() {
    let mut b = Weave::builder("sense-id-kind").unwrap();
    b.knot("constant", KnotKind::constant(ONE, SignalDomain::Bool)).unwrap();
    let rt = Runtime::bind(b.build().unwrap(), BindOpts::default()).unwrap();

    assert_eq!(rt.sense_id("constant"), None);
}
