//! Checkpoints: snapshot, restore, compatibility checks, presets and
//! state reports.

use wyrd::catalog::{KnotKind, SignalDomain};
use wyrd::runtime::{BindOpts, HostTime, Runtime};
use wyrd::runtime_error::{PresetError, RestoreError};
use wyrd::runtime_state::{RuntimePreset, RuntimePresetEntry, RuntimeStateEntry, RUNTIME_STATE_FORMAT_VERSION};
use wyrd::signal::{Signal, ONE, ZERO};
use wyrd::weave::Weave;

fn weave_named(id: &str, output_path: &str, command_name: &str) -> Weave {
    let mut builder = Weave::builder(id).unwrap();
    let input = builder.knot("input", KnotKind::signal_in(SignalDomain::Bool)).unwrap();
    let delay = builder.knot("delay", KnotKind::Delay { ticks: 2 }).unwrap();
    let counter = builder.knot("counter", KnotKind::counter()).unwrap();
    let output = builder.knot("output", KnotKind::signal_out(output_path, SignalDomain::Count)).unwrap();
    let emit = builder.knot("emit", KnotKind::emit_command(command_name)).unwrap();

    let from = builder.output(&input, "out").unwrap();
    let to = builder.input(&delay, "in").unwrap();
    builder.connect(from, to).unwrap();
    let from = builder.output(&delay, "out").unwrap();
    let to = builder.input(&counter, "inc").unwrap();
    builder.connect(from, to).unwrap();
    let from = builder.output(&counter, "count").unwrap();
    let to = builder.input(&output, "in").unwrap();
    builder.connect(from, to).unwrap();
    let from = builder.output(&delay, "out").unwrap();
    let to = builder.input(&emit, "trigger").unwrap();
    builder.connect(from, to).unwrap();
    builder.build().unwrap()
}

fn weave(id: &str) -> Weave {
    weave_named(id, "value", "pulse")
}

fn small_weave() -> Weave {
    let mut builder = Weave::builder("small-snapshot").unwrap();
    let input = builder.knot("input", KnotKind::signal_in(SignalDomain::Bool)).unwrap();
    let output = builder.knot("output", KnotKind::signal_out("value", SignalDomain::Bool)).unwrap();
    let from = builder.output(&input, "out").unwrap();
    let to = builder.input(&output, "in").unwrap();
    builder.connect(from, to).unwrap();
    builder.build().unwrap()
}

fn outbox_runtime() -> Runtime {
    let mut builder = Weave::builder("snapshot-shapes").unwrap();
    let source = builder.knot("source", KnotKind::constant(ONE, SignalDomain::Bool)).unwrap();
    let output = builder.knot("output", KnotKind::signal_out("snapshot.value", SignalDomain::Bool)).unwrap();
    let emit = builder.knot("emit", KnotKind::emit_command("snapshot.command")).unwrap();
    for (target, port) in [(&output, "in"), (&emit, "trigger")] {
        let from = builder.output(&source, "out").unwrap();
        let to = builder.input(target, port).unwrap();
        builder.connect(from, to).unwrap();
    }
    let mut runtime =
        Runtime::bind(builder.build().unwrap(), BindOpts { max_emits_per_tick: 1, ..BindOpts::default() }).unwrap();
    runtime.begin_frame(HostTime { tick: 0 });
    runtime.loom();
    runtime
}

fn tick(runtime: &mut Runtime, tick: u64, input: Signal) {
    runtime.begin_frame(HostTime { tick });
    let sense = runtime.sense_id("input").unwrap();
    runtime.port_writer().set_sense(sense, input).unwrap();
    runtime.loom();
}

fn outbox_values(runtime: &Runtime) -> (Vec<Signal>, Vec<Signal>, usize) {
    let outbox = runtime.outbox();
    (
        outbox.signals().iter().map(|sample| sample.value).collect(),
        outbox.emits().iter().map(|emit| emit.payload).collect(),
        outbox.dropped_emits(),
    )
}

#[test]
fn restore_rejects_version_shapes_and_invalid_runtime_state() {
    let mut runtime = outbox_runtime();
    assert_eq!(Runtime::state_format_version(), RUNTIME_STATE_FORMAT_VERSION);

    let mut state = runtime.snapshot();
    state.version = 0;
    assert!(matches!(runtime.restore(&state), Err(RestoreError::UnsupportedVersion { .. })));

    let mut state = runtime.snapshot();
    state.data.sense_values.pop();
    assert!(matches!(runtime.restore(&state), Err(RestoreError::ShapeMismatch { field: "sense_values", .. })));

    let mut state = runtime.snapshot();
    state.data.on_start_done.pop();
    assert!(matches!(runtime.restore(&state), Err(RestoreError::ShapeMismatch { field: "on_start_done", .. })));

    let mut state = runtime.snapshot();
    state.data.rng = 0;
    assert!(matches!(runtime.restore(&state), Err(RestoreError::InvalidRng)));
}

#[test]
fn restore_clears_ephemeral_outbox_effects() {
    let source = outbox_runtime();
    let state = source.snapshot();
    let mut destination = outbox_runtime();
    destination.restore(&state).unwrap();
    assert!(destination.outbox().signals().is_empty());
    assert!(destination.outbox().emits().is_empty());
}

fn thread_order_weave(reverse: bool) -> Weave {
    let mut builder = Weave::builder("thread-order").unwrap();
    let a = builder.knot("a", KnotKind::signal_in(SignalDomain::Bool)).unwrap();
    let b = builder.knot("b", KnotKind::signal_in(SignalDomain::Bool)).unwrap();
    let out_a = builder.knot("out-a", KnotKind::signal_out("a", SignalDomain::Bool)).unwrap();
    let out_b = builder.knot("out-b", KnotKind::signal_out("b", SignalDomain::Bool)).unwrap();
    let mut pairs = [(a, out_a), (b, out_b)];
    if reverse {
        pairs.reverse();
    }
    for (from_knot, to_knot) in pairs {
        let from = builder.output(&from_knot, "out").unwrap();
        let to = builder.input(&to_knot, "in").unwrap();
        builder.connect(from, to).unwrap();
    }
    builder.build().unwrap()
}

#[test]
fn fingerprint_golden_value() {
    let runtime = Runtime::bind(
        weave("fingerprint-golden"),
        BindOpts { seed: Some(wyrd::Seed(0x1234_5678_9abc_def0)), max_emits_per_tick: 3, ..BindOpts::default() },
    )
    .unwrap();
    assert_eq!(runtime.runtime_fingerprint(), 0x6443_77c6_4014_b512);
}

#[test]
fn fingerprint_covers_bind_policy_and_immutable_graph_identity() {
    let base = Runtime::bind(weave("fingerprint-fields"), BindOpts::default()).unwrap().runtime_fingerprint();
    let changed_cap = Runtime::bind(weave("fingerprint-fields"), BindOpts { max_emits_per_tick: 7, ..BindOpts::default() })
        .unwrap()
        .runtime_fingerprint();
    let changed_seed = Runtime::bind(weave("fingerprint-fields"), BindOpts { seed: Some(wyrd::Seed(9)), ..BindOpts::default() })
        .unwrap()
        .runtime_fingerprint();
    let changed_path = Runtime::bind(weave_named("fingerprint-fields", "other-value", "pulse"), BindOpts::default())
        .unwrap()
        .runtime_fingerprint();
    let changed_command = Runtime::bind(weave_named("fingerprint-fields", "value", "other-pulse"), BindOpts::default())
        .unwrap()
        .runtime_fingerprint();

    for changed in [changed_cap, changed_seed, changed_path, changed_command] {
        assert_ne!(base, changed);
    }
    assert_ne!(
        Runtime::bind(thread_order_weave(false), BindOpts::default()).unwrap().runtime_fingerprint(),
        Runtime::bind(thread_order_weave(true), BindOpts::default()).unwrap().runtime_fingerprint(),
    );
}

#[test]
fn restore_continues_stateful_graph_exactly() {
    let graph = weave("continuation");
    let mut uninterrupted = Runtime::bind(graph.copy(), BindOpts::default()).unwrap();
    tick(&mut uninterrupted, 0, ONE);
    tick(&mut uninterrupted, 1, ZERO);
    let state = uninterrupted.snapshot();

    let mut restored = Runtime::bind(graph, BindOpts::default()).unwrap();
    restored.restore(&state).unwrap();
    assert!(restored.outbox().signals().is_empty());

    for (tick_number, value) in [(2, ZERO), (3, ONE), (4, ZERO), (5, ZERO)] {
        tick(&mut uninterrupted, tick_number, value);
        tick(&mut restored, tick_number, value);
        assert_eq!(outbox_values(&restored), outbox_values(&uninterrupted));
    }
}

#[test]
fn bind_restored_resumes_with_an_empty_outbox() {
    let graph = weave("bind-restored");
    let mut source = Runtime::bind(graph.copy(), BindOpts::default()).unwrap();
    tick(&mut source, 0, ONE);
    tick(&mut source, 1, ZERO);
    let state = source.snapshot();
    let mut restored = Runtime::bind_restored(graph, BindOpts::default(), &state).unwrap();
    assert!(restored.outbox().signals().is_empty());
    tick(&mut source, 2, ONE);
    tick(&mut restored, 2, ONE);
    assert_eq!(outbox_values(&restored), outbox_values(&source));
}

#[test]
fn refresh_overwrites_incompatible_larger_state() {
    let mut large = Runtime::bind(weave("snapshot-large"), BindOpts::default()).unwrap();
    tick(&mut large, 0, ONE);
    tick(&mut large, 1, ZERO);
    tick(&mut large, 2, ZERO);
    let mut state = large.snapshot();

    let mut small = Runtime::bind(small_weave(), BindOpts::default()).unwrap();
    tick(&mut small, 9, ONE);
    small.snapshot_into(&mut state);
    assert!(matches!(large.restore(&state), Err(RestoreError::FingerprintMismatch { .. })));
    let mut restored = Runtime::bind(small_weave(), BindOpts::default()).unwrap();
    restored.restore(&state).unwrap();
    tick(&mut small, 10, ONE);
    tick(&mut restored, 10, ONE);
    assert_eq!(outbox_values(&restored), outbox_values(&small));
}

#[test]
fn incompatible_bind_options_reject_without_mutation() {
    let graph = weave("fingerprint");
    let mut source = Runtime::bind(graph.copy(), BindOpts { max_emits_per_tick: 0, ..BindOpts::default() }).unwrap();
    tick(&mut source, 0, ONE);
    let incompatible = source.snapshot();

    let mut target = Runtime::bind(graph, BindOpts::default()).unwrap();
    tick(&mut target, 0, ZERO);
    let before = target.inspect_state();
    assert!(matches!(target.restore(&incompatible), Err(RestoreError::FingerprintMismatch { .. })));
    assert_eq!(target.inspect_state(), before);
    tick(&mut target, 1, ZERO);
    assert_eq!(outbox_values(&target).0, vec![ZERO]);
}

#[test]
fn unsettled_checkpoints_are_refused() {
    let mut runtime = outbox_runtime();
    runtime.begin_frame(HostTime { tick: 1 });
    let state = runtime.snapshot();
    assert!(matches!(runtime.restore(&state), Err(RestoreError::InvalidPhase { found: 1 })));
}

#[test]
fn inspect_reports_state_in_knot_name_order() {
    let mut runtime = Runtime::bind(weave("inspect"), BindOpts::default()).unwrap();
    tick(&mut runtime, 0, ONE);
    let report = runtime.inspect_state();
    assert_eq!(report.version, RUNTIME_STATE_FORMAT_VERSION);
    assert_eq!(report.tick, 0);
    assert_eq!(
        report.entries,
        vec![
            RuntimeStateEntry::Counter { knot: String::from("counter"), value: 0 },
            RuntimeStateEntry::Delay { knot: String::from("delay"), len: 2, head: 1, values: vec![ZERO, ONE] },
            RuntimeStateEntry::Sense { knot: String::from("input"), value: ONE },
        ]
    );
    let state = runtime.snapshot();
    assert_eq!(runtime.inspect_checkpoint(&state).unwrap(), report);
}

#[test]
fn presets_set_named_initial_values() {
    let mut preset = RuntimePreset::new();
    preset.push(RuntimePresetEntry::Counter { knot: String::from("counter"), value: 5 });
    preset.push(RuntimePresetEntry::Sense { knot: String::from("input"), value: ONE });
    let runtime = Runtime::bind_with_preset(weave("preset"), BindOpts::default(), &preset).unwrap();
    let report = runtime.inspect_state();
    assert!(report.entries.contains(&RuntimeStateEntry::Counter { knot: String::from("counter"), value: 5 }));
    assert!(report.entries.contains(&RuntimeStateEntry::Sense { knot: String::from("input"), value: ONE }));
    assert_eq!(preset.entries().len(), 2);
}

#[test]
fn presets_refuse_duplicates_missing_and_wrong_kinds() {
    let mut dup = RuntimePreset::new();
    dup.push(RuntimePresetEntry::Counter { knot: String::from("counter"), value: 1 });
    dup.push(RuntimePresetEntry::Counter { knot: String::from("counter"), value: 2 });
    assert_eq!(
        Runtime::bind_with_preset(weave("p1"), BindOpts::default(), &dup).err(),
        Some(PresetError::Duplicate { knot: String::from("counter") })
    );

    let mut missing = RuntimePreset::new();
    missing.push(RuntimePresetEntry::Flag { knot: String::from("nope"), value: true });
    assert_eq!(
        Runtime::bind_with_preset(weave("p2"), BindOpts::default(), &missing).err(),
        Some(PresetError::Missing { knot: String::from("nope") })
    );

    let mut wrong = RuntimePreset::new();
    wrong.push(RuntimePresetEntry::Flag { knot: String::from("counter"), value: true });
    assert_eq!(
        Runtime::bind_with_preset(weave("p3"), BindOpts::default(), &wrong).err(),
        Some(PresetError::WrongKind { knot: String::from("counter"), expected: "Flag" })
    );

    let mut bad_value = RuntimePreset::new();
    bad_value.push(RuntimePresetEntry::Sense { knot: String::from("input"), value: 2 });
    assert_eq!(
        Runtime::bind_with_preset(weave("p4"), BindOpts::default(), &bad_value).err(),
        Some(PresetError::InvalidSignal { knot: String::from("input"), domain: SignalDomain::Bool })
    );
}

#[test]
fn refreshed_snapshot_continues_like_a_fresh_snapshot() {
    let graph = weave("snapshot-refresh");
    let mut source = Runtime::bind(graph.copy(), BindOpts::default()).unwrap();
    tick(&mut source, 0, ONE);
    tick(&mut source, 1, ZERO);
    let fresh = source.snapshot();
    let mut refreshed = Runtime::bind(small_weave(), BindOpts::default()).unwrap().snapshot();
    source.snapshot_into(&mut refreshed);

    assert_eq!(fresh.format_version(), refreshed.format_version());
    assert_eq!(fresh.fingerprint(), refreshed.fingerprint());
    let mut from_fresh = Runtime::bind(graph.copy(), BindOpts::default()).unwrap();
    let mut from_refreshed = Runtime::bind(graph, BindOpts::default()).unwrap();
    from_fresh.restore(&fresh).unwrap();
    from_refreshed.restore(&refreshed).unwrap();
    for (tick_number, value) in [(2, ZERO), (3, ONE), (4, ZERO)] {
        tick(&mut from_fresh, tick_number, value);
        tick(&mut from_refreshed, tick_number, value);
        assert_eq!(outbox_values(&from_fresh), outbox_values(&from_refreshed));
    }
}

#[test]
fn rewinding_to_a_checkpoint_replays_the_same_frames() {
    let mut runtime = Runtime::bind(weave("rewind"), BindOpts::default()).unwrap();
    tick(&mut runtime, 0, ONE);
    tick(&mut runtime, 1, ZERO);
    let checkpoint = runtime.snapshot();
    let frames = [(2, ONE), (3, ZERO), (4, ZERO), (5, ONE)];
    let mut first = Vec::new();
    for (tick_number, value) in frames {
        tick(&mut runtime, tick_number, value);
        first.push(outbox_values(&runtime));
    }
    runtime.restore(&checkpoint).unwrap();
    let mut replay = Vec::new();
    for (tick_number, value) in frames {
        tick(&mut runtime, tick_number, value);
        replay.push(outbox_values(&runtime));
    }
    assert_eq!(first, replay);
}
