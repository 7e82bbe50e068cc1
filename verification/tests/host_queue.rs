//! Frames queued on a scripted host run in order, and two binds of one
//! weave agree on their fingerprint.

use wyrd::cookbook::helpers::{signal_out_sample, tick_senses};
use wyrd::{BindOpts, KnotKind, Runtime, ScriptedHost, Seed, SignalDomain, Weave, ONE, ZERO};

fn lamp_weave() -> Weave {
    let mut b = Weave::builder("lamp").unwrap();
    let i = b.knot("in", KnotKind::signal_in(SignalDomain::Bool)).unwrap();
    let o = b.knot("o", KnotKind::signal_out("lamp", SignalDomain::Bool)).unwrap();
    let out = b.output(&i, "out").unwrap();
    let inp = b.input(&o, "in").unwrap();
    b.connect(out, inp).unwrap();
    b.build().unwrap()
}

#[test]
fn tick_senses_runs_the_frame_queued_first() {
    let mut rt = Runtime::bind(lamp_weave(), BindOpts::default()).unwrap();
    let id = rt.sense_id("in").unwrap();
    let mut host = ScriptedHost::new();
    host.push_frame(&[(id, ONE)]);
    tick_senses(&mut host, &mut rt, &[(id, ZERO)]).unwrap();
    assert_eq!(signal_out_sample(&rt, "lamp"), Some(ONE));
    tick_senses(&mut host, &mut rt, &[(id, ONE)]).unwrap();
    assert_eq!(signal_out_sample(&rt, "lamp"), Some(ZERO));
}

#[test]
fn two_binds_of_one_weave_share_the_fingerprint() {
    let opts = BindOpts { seed: Some(Seed(9)), ..BindOpts::default() };
    let a = Runtime::bind(lamp_weave(), opts).unwrap();
    let b = Runtime::bind(lamp_weave(), opts).unwrap();
    assert_eq!(a.runtime_fingerprint(), b.runtime_fingerprint());
}
