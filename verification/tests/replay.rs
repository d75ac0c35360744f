use cathedral::core_types::error::CoreError;
use cathedral::core_types::id::{EventId, NodeId};
use cathedral::core_types::time::LogicalTime;
use cathedral::replay::diff::{DiffEngine, LineChange, NodeChangeType};
use cathedral::replay::engine::{states_equal, ReplayConfig, ReplayEngine, ReplayEngineError};
use cathedral::replay::snapshot::{Snapshot, SnapshotError, SnapshotLoader, SnapshotWriter};
use cathedral::replay::state::{NodeState, ReconstructedState, ReplayError, StateDiff};
use cathedral::replay::trace::{TraceEvent, TraceEventKind, TraceReader};

fn event(node_id: NodeId, time: u64, kind: TraceEventKind, data: Vec<u8>) -> TraceEvent {
    TraceEvent { id: EventId::new(), time: LogicalTime::from_raw(time), node_id, kind, data, parent_id: None }
}

// ---- trace ----

#[test]
fn test_trace_reader_new() {
    let reader = TraceReader::new();
    assert!(!reader.has_more());
    assert_eq!(reader.remaining(), 0);
    assert_eq!(reader.total(), 0);
}

#[test]
fn test_trace_reader_from_events() {
    let events = vec![
        TraceEvent {
            id: EventId::new(),
            time: LogicalTime::zero(),
            node_id: NodeId::new(),
            kind: TraceEventKind::NodeStarted,
            data: Vec::new(),
            parent_id: None,
        },
        TraceEvent {
            id: EventId::new(),
            time: LogicalTime::from_raw(1),
            node_id: NodeId::new(),
            kind: TraceEventKind::NodeCompleted,
            data: Vec::new(),
            parent_id: None,
        },
    ];

    let reader = TraceReader::from_events(events);
    assert_eq!(reader.total(), 2);
    assert_eq!(reader.remaining(), 2);
    assert!(reader.has_more());
}

#[test]
fn test_trace_reader_next_event() {
    let event = TraceEvent {
        id: EventId::new(),
        time: LogicalTime::zero(),
        node_id: NodeId::new(),
        kind: TraceEventKind::NodeStarted,
        data: vec![1, 2, 3],
        parent_id: None,
    };

    let mut reader = TraceReader::from_events(vec![event.clone()]);
    let next = reader.next_event().unwrap();
    assert_eq!(next.kind, TraceEventKind::NodeStarted);
    assert_eq!(next.data, vec![1, 2, 3]);
    assert!(!reader.has_more());
}

#[test]
fn test_trace_reader_next_event_empty() {
    let mut reader = TraceReader::new();
    let result = reader.next_event();
    assert!(result.is_err());
}

#[test]
fn test_trace_reader_peek() {
    let event = TraceEvent {
        id: EventId::new(),
        time: LogicalTime::zero(),
        node_id: NodeId::new(),
        kind: TraceEventKind::NodeStarted,
        data: Vec::new(),
        parent_id: None,
    };

    let reader = TraceReader::from_events(vec![event]);
    assert!(reader.peek_event().is_ok());
    assert_eq!(reader.remaining(), 1);
}

#[test]
fn trace_reader_seek_reset_and_iterate() {
    let n = NodeId::from_u128(1);
    let mut reader = TraceReader::from_events(vec![
        event(n, 0, TraceEventKind::NodeStarted, vec![]),
        event(n, 1, TraceEventKind::OutputProduced, vec![9]),
        event(n, 2, TraceEventKind::NodeCompleted, vec![]),
    ]);
    assert_eq!(reader.next().unwrap().unwrap().kind, TraceEventKind::NodeStarted);
    assert_eq!(reader.position(), 1);
    assert!(reader.seek(3).is_ok());
    assert!(!reader.has_more());
    assert!(reader.next().is_none());
    assert!(reader.seek(4).is_err());
    reader.reset();
    assert_eq!(reader.position(), 0);
    assert!(reader.seek(1).is_ok());
    assert_eq!(reader.peek_event().unwrap().data, vec![9]);
    let err = TraceReader::new().next_event().unwrap_err();
    assert_eq!(
        err,
        CoreError::Validation { field: "trace".to_string(), reason: "No more events in trace".to_string() }
    );
}

// ---- state ----

#[test]
fn test_reconstructed_state_new() {
    let state = ReconstructedState::new();
    assert_eq!(state.time(), 0);
    assert!(!state.has_errors());
    assert_eq!(state.total_nodes(), 0);
}

#[test]
fn test_reconstructed_state_add_node() {
    let mut state = ReconstructedState::new();
    let node_id = NodeId::new();
    let node_state = NodeState::new(node_id).with_output(b"result".to_vec());

    state.add_node_state(node_id, node_state);
    assert_eq!(state.total_nodes(), 1);
    assert_eq!(state.completed_count(), 1);
}

#[test]
fn test_reconstructed_state_global() {
    let mut state = ReconstructedState::new();
    state.set_global("key".to_string(), b"value".to_vec());
    assert_eq!(state.get_global("key"), Some(&b"value"[..]));
    assert_eq!(state.get_global("missing"), None);
}

#[test]
fn test_reconstructed_state_tick() {
    let mut state = ReconstructedState::new();
    assert_eq!(state.time(), 0);
    state.tick();
    assert_eq!(state.time(), 1);
}

#[test]
fn test_node_state_new() {
    let node_id = NodeId::new();
    let state = NodeState::new(node_id);
    assert!(!state.completed);
    assert!(state.output.is_none());
    assert!(state.error.is_none());
}

#[test]
fn test_node_state_with_output() {
    let node_id = NodeId::new();
    let state = NodeState::new(node_id).with_output(b"data".to_vec());
    assert!(state.completed);
    assert_eq!(state.output, Some(b"data".to_vec()));
}

#[test]
fn test_node_state_with_error() {
    let node_id = NodeId::new();
    let state = NodeState::new(node_id).with_error("failed".to_string());
    assert!(!state.completed);
    assert_eq!(state.error, Some("failed".to_string()));
}

#[test]
fn test_state_diff_empty() {
    let diff = StateDiff::new();
    assert!(!diff.has_changes());
}

#[test]
fn test_state_diff_compute_no_changes() {
    let state1 = ReconstructedState::new();
    let state2 = ReconstructedState::new();
    let diff = StateDiff::compute(&state1, &state2);
    assert!(!diff.has_changes());
}

#[test]
fn test_state_diff_compute_with_changes() {
    let state1 = ReconstructedState::new();
    let mut state2 = ReconstructedState::new();

    let node_id = NodeId::new();
    state2.add_node_state(node_id, NodeState::new(node_id));

    let diff = StateDiff::compute(&state1, &state2);
    assert!(diff.has_changes());
    assert!(diff.added.contains(&node_id.value));
}

#[test]
fn test_state_diff_global_changes() {
    let mut state1 = ReconstructedState::new();
    let mut state2 = ReconstructedState::new();

    state1.set_global("key".to_string(), b"old".to_vec());
    state2.set_global("key".to_string(), b"new".to_vec());

    let diff = StateDiff::compute(&state1, &state2);
    assert!(diff.global_changes.iter().any(|c| c.key == "key"));
}

#[test]
fn state_diff_reports_removed_and_modified() {
    let a = NodeId::from_u128(1);
    let b = NodeId::from_u128(2);
    let mut before = ReconstructedState::new();
    before.add_node_state(a, NodeState::new(a));
    before.add_node_state(b, NodeState::new(b));
    let mut after = ReconstructedState::new();
    after.add_node_state(a, NodeState::new(a).with_output(vec![1]));
    let diff = StateDiff::compute(&before, &after);
    assert!(diff.removed.contains(&2));
    assert!(diff.modified.contains(&1));
    assert!(diff.added.is_empty());
    assert!(diff.global_changes.is_empty());
}

#[test]
fn state_merge_and_errors() {
    let a = NodeId::from_u128(1);
    let mut s1 = ReconstructedState::new();
    s1.tick();
    s1.set_global("k".to_string(), vec![1]);
    let mut s2 = ReconstructedState::new();
    s2.tick();
    s2.tick();
    s2.add_node_state(a, NodeState::new(a).with_output(vec![7]));
    s2.set_global("k".to_string(), vec![2]);
    s2.add_error(ReplayError { node_id: a, message: "boom".to_string(), time: 2 });
    s1.merge(s2);
    assert_eq!(s1.time(), 2);
    assert_eq!(s1.get_global("k"), Some(&[2u8][..]));
    assert!(s1.has_errors());
    assert_eq!(s1.get_node_state(a).unwrap().output, Some(vec![7]));
    // a later state for the same node replaces the earlier one
    s1.add_node_state(a, NodeState::new(a));
    assert_eq!(s1.total_nodes(), 1);
    assert_eq!(s1.completed_count(), 0);
}

// ---- snapshot ----

#[test]
fn test_snapshot_new() {
    let state = ReconstructedState::new();
    let snapshot = Snapshot::new("test".to_string(), state, 0);
    assert_eq!(snapshot.metadata.id, "test");
    assert_eq!(snapshot.metadata.version, 1);
}

#[test]
fn test_snapshot_loader_new() {
    let loader = SnapshotLoader::new();
    assert!(loader.cached_ids().is_empty());
}

#[test]
fn test_snapshot_loader_register() {
    let mut loader = SnapshotLoader::new();
    let state = ReconstructedState::new();
    let snapshot = Snapshot::new("test".to_string(), state, 0);

    loader.register(snapshot);
    assert!(loader.cached_ids().contains(&"test".to_string()));
}

#[test]
fn test_snapshot_loader_load_by_id() {
    let mut loader = SnapshotLoader::new();
    let mut state = ReconstructedState::new();
    let node_id = NodeId::new();
    state.add_node_state(node_id, NodeState::new(node_id));

    let snapshot = Snapshot::new("test".to_string(), state.duplicate(), 0);
    loader.register(snapshot);

    let loaded = loader.load_by_id("test").unwrap();
    assert_eq!(loaded.total_nodes(), 1);
}

#[test]
fn test_snapshot_loader_load_by_id_not_found() {
    let loader = SnapshotLoader::new();
    let result = loader.load_by_id("missing");
    assert!(result.is_err());
}

#[test]
fn test_snapshot_loader_remove() {
    let mut loader = SnapshotLoader::new();
    let state = ReconstructedState::new();
    let snapshot = Snapshot::new("test".to_string(), state, 0);

    loader.register(snapshot);
    assert!(loader.cached_ids().contains(&"test".to_string()));

    loader.remove("test");
    assert!(!loader.cached_ids().contains(&"test".to_string()));
}

#[test]
fn test_snapshot_writer_new() {
    let writer = SnapshotWriter::new();
    let _ = writer;
}

#[test]
fn test_snapshot_error_display() {
    let err = SnapshotError::NotFound { id: "test".to_string() };
    assert_eq!(err.to_string(), "Snapshot not found: test");
}

#[test]
fn snapshot_loader_reads_decoded_snapshots_and_checks_version() {
    let mut loader = SnapshotLoader::new();
    let a = NodeId::from_u128(3);
    let mut state = ReconstructedState::new();
    state.add_node_state(a, NodeState::new(a));
    loader.add_decoded(vec![1, 2, 3], Snapshot::new("s".to_string(), state, 3));
    assert_eq!(loader.load(&[1, 2, 3]).unwrap().total_nodes(), 1);
    let mut old = Snapshot::new("old".to_string(), ReconstructedState::new(), 0);
    old.metadata.version = 2;
    loader.add_decoded(vec![4], old);
    assert_eq!(
        loader.load(&[4]).unwrap_err(),
        CoreError::Validation {
            field: "snapshot".to_string(),
            reason: "Version mismatch: expected 1, got 2".to_string()
        }
    );
    assert!(loader.load(&[5]).is_err());
    assert_eq!(
        loader.load_by_id("missing").unwrap_err(),
        CoreError::Validation { field: "snapshot".to_string(), reason: "Snapshot not found: missing".to_string() }
    );
    assert!(!loader.remove("missing"));
    loader.register(Snapshot::new("x".to_string(), ReconstructedState::new(), 0));
    loader.clear();
    assert!(loader.cached_ids().is_empty());
    assert_eq!(SnapshotError::InvalidFormat.to_string(), "Invalid snapshot format");
    assert_eq!(SnapshotError::Corrupted { reason: "bad".to_string() }.to_string(), "Corrupted snapshot: bad");
}

// ---- engine ----

#[test]
fn test_replay_engine_new() {
    let engine = ReplayEngine::new();
    assert!(engine.config().stop_on_error);
}

#[test]
fn test_replay_config_default() {
    let config = ReplayConfig::default();
    assert!(config.stop_on_error);
    assert!(config.validate_hash_chain);
    assert_eq!(config.max_events, 0);
}

#[test]
fn test_replay_empty_trace() {
    let engine = ReplayEngine::new();
    let mut reader = TraceReader::new();
    let result = engine.replay(&mut reader);
    assert!(result.is_err());
}

#[test]
fn test_replay_single_event() {
    let engine = ReplayEngine::new();
    let event = TraceEvent {
        id: EventId::new(),
        time: LogicalTime::zero(),
        node_id: NodeId::new(),
        kind: TraceEventKind::NodeStarted,
        data: Vec::new(),
        parent_id: None,
    };

    let mut reader = TraceReader::from_events(vec![event]);
    let state = engine.replay(&mut reader).unwrap();
    assert_eq!(state.time(), 1);
    assert_eq!(state.total_nodes(), 1);
}

#[test]
fn test_replay_node_completed() {
    let engine = ReplayEngine::new();
    let node_id = NodeId::new();

    let events = vec![
        TraceEvent {
            id: EventId::new(),
            time: LogicalTime::zero(),
            node_id,
            kind: TraceEventKind::NodeStarted,
            data: Vec::new(),
            parent_id: None,
        },
        TraceEvent {
            id: EventId::new(),
            time: LogicalTime::from_raw(1),
            node_id,
            kind: TraceEventKind::NodeCompleted,
            data: b"output".to_vec(),
            parent_id: None,
        },
    ];

    let mut reader = TraceReader::from_events(events);
    let state = engine.replay(&mut reader).unwrap();
    assert_eq!(state.total_nodes(), 1);
    assert_eq!(state.completed_count(), 1);

    let node_state = state.get_node_state(node_id).unwrap();
    assert!(node_state.completed);
    assert_eq!(node_state.output, Some(b"output".to_vec()));
}

#[test]
fn test_replay_node_failed() {
    let config = ReplayConfig { stop_on_error: false, ..ReplayConfig::default() };
    let engine = ReplayEngine::new().with_config(config);
    let node_id = NodeId::new();

    let events = vec![TraceEvent {
        id: EventId::new(),
        time: LogicalTime::zero(),
        node_id,
        kind: TraceEventKind::NodeFailed { exit_code: 1 },
        data: Vec::new(),
        parent_id: None,
    }];

    let mut reader = TraceReader::from_events(events);
    let state = engine.replay(&mut reader).unwrap();
    assert!(state.has_errors());
}

#[test]
fn test_replay_error_display() {
    let err = ReplayEngineError::EmptyTrace;
    assert_eq!(err.to_string(), "Trace is empty");
}

#[test]
fn test_replay_max_events() {
    let config = ReplayConfig { max_events: 1, ..ReplayConfig::default() };
    let engine = ReplayEngine::new().with_config(config);

    let events = vec![
        TraceEvent {
            id: EventId::new(),
            time: LogicalTime::zero(),
            node_id: NodeId::new(),
            kind: TraceEventKind::NodeStarted,
            data: Vec::new(),
            parent_id: None,
        },
        TraceEvent {
            id: EventId::new(),
            time: LogicalTime::from_raw(1),
            node_id: NodeId::new(),
            kind: TraceEventKind::NodeStarted,
            data: Vec::new(),
            parent_id: None,
        },
    ];

    let mut reader = TraceReader::from_events(events);
    let state = engine.replay(&mut reader).unwrap();
    assert_eq!(state.total_nodes(), 1);
}

#[test]
fn replay_stops_on_failure_and_is_deterministic() {
    let n = NodeId::from_u128(8);
    let trace = || {
        vec![
            event(n, 0, TraceEventKind::NodeStarted, vec![]),
            event(n, 1, TraceEventKind::SideEffect { effect: "wrote".to_string() }, vec![]),
            event(n, 2, TraceEventKind::NodeCompleted, vec![4, 2]),
        ]
    };
    let engine = ReplayEngine::new();
    let mut r1 = TraceReader::from_events(trace());
    let mut r2 = TraceReader::from_events(trace());
    assert!(engine.verify_equivalence(&mut r1, &mut r2).unwrap());
    let mut r3 = TraceReader::from_events(trace());
    let s = engine.replay(&mut r3).unwrap();
    assert_eq!(s.time(), 3);
    assert_eq!(s.get_node_state(n).unwrap().side_effects, vec!["wrote".to_string()]);
    let mut r4 = TraceReader::from_events(trace());
    assert!(states_equal(&s, &engine.replay(&mut r4).unwrap()));

    let mut failing = TraceReader::from_events(vec![
        event(n, 0, TraceEventKind::NodeFailed { exit_code: 3 }, vec![]),
        event(n, 1, TraceEventKind::NodeStarted, vec![]),
    ]);
    let stopped = engine.replay(&mut failing).unwrap();
    assert!(stopped.has_errors());
    assert_eq!(stopped.total_nodes(), 0);
    assert_eq!(failing.remaining(), 1);
    assert_eq!(
        ReplayEngineError::MissingSnapshot { id: "s".to_string() }.to_string(),
        "Missing snapshot: s"
    );
}

// ---- diff ----

#[test]
fn test_diff_engine_new() {
    let engine = DiffEngine::new();
    let _ = engine;
}

#[test]
fn test_diff_states_identical() {
    let engine = DiffEngine::new();
    let state1 = ReconstructedState::new();
    let state2 = ReconstructedState::new();

    let result = engine.diff_states(&state1, &state2).unwrap();
    assert!(result.equivalent);
    assert!(!result.diff.has_changes());
}

#[test]
fn test_diff_states_different() {
    let engine = DiffEngine::new();
    let state1 = ReconstructedState::new();
    let mut state2 = ReconstructedState::new();

    let node_id = NodeId::new();
    state2.add_node_state(node_id, NodeState::new(node_id));

    let result = engine.diff_states(&state1, &state2).unwrap();
    assert!(!result.equivalent);
    assert!(result.diff.has_changes());
}

#[test]
fn test_generate_report() {
    let engine = DiffEngine::new();
    let state1 = ReconstructedState::new();
    let mut state2 = ReconstructedState::new();

    let node_id = NodeId::new();
    state2.add_node_state(node_id, NodeState::new(node_id));

    let report = engine.generate_report(&state1, &state2).unwrap();
    assert!(!report.result.equivalent);
    assert_eq!(report.summary.added_count, 1);
}

#[test]
fn test_diff_bytes() {
    let old = b"line1\nline2";
    let new = b"line1\nmodified";

    let diff = DiffEngine::diff_bytes(old, new);
    assert_eq!(diff.line_diff.len(), 2);
}

#[test]
fn test_is_semantically_equivalent() {
    let engine = DiffEngine::new();
    let state1 = ReconstructedState::new();
    let state2 = ReconstructedState::new();

    assert!(engine.is_semantically_equivalent(&state1, &state2).unwrap());
}

#[test]
fn diff_bytes_lines_and_report_order() {
    let d = DiffEngine::diff_bytes(b"a\nb\nc", b"a\nx");
    assert_eq!(
        d.line_diff,
        vec![
            LineChange::Unchanged("a".to_string()),
            LineChange::Modified { old: "b".to_string(), new: "x".to_string() },
            LineChange::Removed("c".to_string()),
        ]
    );
    let d2 = DiffEngine::diff_bytes(b"", b"\xffz\n");
    assert_eq!(d2.line_diff, vec![LineChange::Added("\u{fffd}z".to_string())]);

    let engine = DiffEngine::new();
    let (a, b, c) = (NodeId::from_u128(3), NodeId::from_u128(1), NodeId::from_u128(2));
    let mut before = ReconstructedState::new();
    before.add_node_state(c, NodeState::new(c).with_output(b"x\ny".to_vec()));
    before.add_node_state(a, NodeState::new(a));
    let mut after = ReconstructedState::new();
    after.add_node_state(b, NodeState::new(b));
    after.add_node_state(c, NodeState::new(c).with_output(b"x\nz".to_vec()));
    let report = engine.generate_report(&before, &after).unwrap();
    assert_eq!(report.summary.added_count, 1);
    assert_eq!(report.summary.removed_count, 1);
    assert_eq!(report.summary.modified_count, 1);
    assert_eq!(report.node_changes.len(), 3);
    assert_eq!(report.node_changes[0].node_id, b);
    assert_eq!(report.node_changes[0].change_type, NodeChangeType::Added);
    assert_eq!(report.node_changes[1].node_id, a);
    assert_eq!(report.node_changes[1].change_type, NodeChangeType::Removed);
    assert_eq!(report.node_changes[2].node_id, c);
    let od = report.node_changes[2].output_diff.as_ref().unwrap();
    assert_eq!(od.line_diff.len(), 2);
    assert_eq!(engine.find_divergence(&before, &after).unwrap(), Some(0));
    assert_eq!(engine.find_divergence(&before, &before.duplicate()).unwrap(), None);
    assert!(!engine.is_semantically_equivalent(&before, &after).unwrap());
}

#[test]
fn snapshot_loader_takes_snapshots() {
    let mut loader = SnapshotLoader::new();
    let a = NodeId::from_u128(1);
    let mut state = ReconstructedState::new();
    state.add_node_state(a, NodeState::new(a));
    loader.snapshot("s1".to_string(), state, 12);
    loader.snapshot("s1".to_string(), ReconstructedState::new(), 5);
    assert_eq!(loader.cached_ids(), vec!["s1".to_string()]);
    assert_eq!(loader.load_by_id("s1").unwrap().total_nodes(), 0);
    let snap = Snapshot::new("n".to_string(), ReconstructedState::new(), 9);
    assert_eq!(snap.metadata.node_count, 0);
    assert_eq!(snap.metadata.size_bytes, 9);
    assert!(snap.metadata.timestamp > 1_600_000_000);
}

#[test]
fn replay_step_stops_after_error_when_configured() {
    let n = NodeId::from_u128(7);
    let engine = ReplayEngine::new();
    let mut state = ReconstructedState::new();
    assert!(engine.replay_step(&mut state, &event(n, 0, TraceEventKind::NodeStarted, vec![])).unwrap());
    assert!(!engine
        .replay_step(&mut state, &event(n, 1, TraceEventKind::NodeFailed { exit_code: 2 }, vec![]))
        .unwrap());
    assert!(state.has_errors());

    let lenient = ReplayEngine::new().with_config(ReplayConfig {
        stop_on_error: false,
        validate_hash_chain: true,
        max_events: 0,
        enable_snapshots: true,
    });
    let mut state = ReconstructedState::new();
    assert!(lenient
        .replay_step(&mut state, &event(n, 0, TraceEventKind::NodeFailed { exit_code: 2 }, vec![]))
        .unwrap());
    assert!(state.has_errors());
}
