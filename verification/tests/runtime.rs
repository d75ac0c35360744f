use cathedral::core_types::capability::{Capability, CapabilitySet};
use cathedral::core_types::hash;
use cathedral::core_types::id::{EventId, NodeId, RunId};
use cathedral::core_types::time::LogicalTime;
use cathedral::log::event::EventKind;
use cathedral::runtime::backpressure::{status_for, BackpressureStatus, BackpressureStrategy};
use cathedral::runtime::engine::{EngineConfig, ExecutionEngine, ExecutionStatus};
use cathedral::runtime::executor::{ExecutionContext, Executor, ExecutorError, ExecutorResult};
use cathedral::runtime::monitor::{ExecutionMonitor, Metrics};
use cathedral::runtime::scheduler::{ScheduleDecision, Scheduler};
use indexmap::IndexSet;

fn make_test_run() -> RunId {
    RunId::new()
}

fn make_test_node() -> NodeId {
    NodeId::new()
}

fn make_test_id() -> NodeId {
    NodeId::new()
}

/// Share of executed nodes that completed; 1.0 before any node ran.
fn success_rate(m: &Metrics) -> f64 {
    if m.nodes_executed == 0 {
        return 1.0;
    }
    m.nodes_completed as f64 / m.nodes_executed as f64
}

/// Share of executed nodes that failed; 0.0 before any node ran.
fn failure_rate(m: &Metrics) -> f64 {
    if m.nodes_executed == 0 {
        return 0.0;
    }
    m.nodes_failed as f64 / m.nodes_executed as f64
}

// ---- scheduler ----

#[test]
fn test_scheduler_new() {
    let scheduler = Scheduler::new();
    assert_eq!(scheduler.time().as_u64(), 0);
    assert!(scheduler.is_complete());
    assert!(!scheduler.has_failures());
}

#[test]
fn test_scheduler_single_node() {
    let mut scheduler = Scheduler::new();
    let node = make_test_id();

    scheduler.add_node(node, IndexSet::new()).unwrap();
    assert_eq!(scheduler.ready_count(), 1);

    assert!(matches!(scheduler.decide(), ScheduleDecision::Run(id) if id == node));

    scheduler.mark_complete(node).unwrap();
    assert!(scheduler.is_complete());
    assert_eq!(scheduler.completed_count(), 1);
}

#[test]
fn test_scheduler_dependencies() {
    let mut scheduler = Scheduler::new();
    let node1 = make_test_id();
    let node2 = make_test_id();

    let mut deps = IndexSet::new();
    deps.insert(node1);
    scheduler.add_node(node1, IndexSet::new()).unwrap();
    scheduler.add_node(node2, deps).unwrap();

    assert_eq!(scheduler.ready_count(), 1);

    scheduler.mark_complete(node1).unwrap();

    assert_eq!(scheduler.ready_count(), 1);
}

#[test]
fn test_scheduler_cycle_direct() {
    let mut scheduler = Scheduler::new();
    let node1 = make_test_id();

    let mut deps = IndexSet::new();
    deps.insert(node1);
    let result = scheduler.add_node(node1, deps);
    assert!(result.is_err());
}

#[test]
fn test_scheduler_failure() {
    let mut scheduler = Scheduler::new();
    let node1 = make_test_id();
    let node2 = make_test_id();

    let mut deps = IndexSet::new();
    deps.insert(node1);
    scheduler.add_node(node1, IndexSet::new()).unwrap();
    scheduler.add_node(node2, deps).unwrap();

    scheduler.mark_failed(node1).unwrap();
    assert!(scheduler.has_failures());

    assert_eq!(scheduler.ready_count(), 0);
}

#[test]
fn test_scheduler_reset() {
    let mut scheduler = Scheduler::new();
    let node1 = make_test_id();

    scheduler.add_node(node1, IndexSet::new()).unwrap();
    scheduler.mark_complete(node1).unwrap();
    assert_eq!(scheduler.completed_count(), 1);

    scheduler.reset();
    assert_eq!(scheduler.completed_count(), 0);
    assert_eq!(scheduler.ready_count(), 1);
}

#[test]
fn test_scheduler_time_tick() {
    let mut scheduler = Scheduler::new();
    let node1 = make_test_id();

    assert_eq!(scheduler.time().as_u64(), 0);

    scheduler.add_node(node1, IndexSet::new()).unwrap();
    scheduler.mark_complete(node1).unwrap();

    assert_eq!(scheduler.time().as_u64(), 1);
}

#[test]
fn test_scheduler_multiple_ready() {
    let mut scheduler = Scheduler::new();
    let node1 = make_test_id();
    let node2 = make_test_id();
    let node3 = make_test_id();

    scheduler.add_node(node1, IndexSet::new()).unwrap();
    scheduler.add_node(node2, IndexSet::new()).unwrap();
    scheduler.add_node(node3, IndexSet::new()).unwrap();

    assert_eq!(scheduler.ready_count(), 3);

    assert!(matches!(scheduler.decide(), ScheduleDecision::Run(_)));
}

#[test]
fn scheduler_runs_the_least_ready_node_first() {
    let mut scheduler = Scheduler::new();
    let a = NodeId::from_u128(30);
    let b = NodeId::from_u128(10);
    let c = NodeId::from_u128(20);
    scheduler.add_node(a, IndexSet::new()).unwrap();
    scheduler.add_node(b, IndexSet::new()).unwrap();
    let mut deps = IndexSet::new();
    deps.insert(a);
    scheduler.add_node(c, deps).unwrap();
    assert!(matches!(scheduler.decide(), ScheduleDecision::Run(id) if id == b));
    // c already depends on a, so declaring that dependency again is refused
    let mut again = IndexSet::new();
    again.insert(a);
    assert!(scheduler.add_node(c, again).is_err());
    assert_eq!(scheduler.ready_count(), 2);
    scheduler.mark_complete(b).unwrap();
    scheduler.mark_complete(a).unwrap();
    assert!(matches!(scheduler.decide(), ScheduleDecision::Run(id) if id == c));
    scheduler.mark_complete(c).unwrap();
    assert!(matches!(scheduler.decide(), ScheduleDecision::Complete));
    assert_eq!(scheduler.time().as_u64(), 3);
    // an unknown node is recorded as completed too
    assert!(scheduler.mark_complete(NodeId::from_u128(99)).is_ok());
    assert_eq!(scheduler.completed_count(), 4);
}

#[test]
fn scheduler_waits_when_nothing_is_ready() {
    let mut scheduler = Scheduler::new();
    let a = NodeId::from_u128(1);
    let b = NodeId::from_u128(2);
    let mut deps = IndexSet::new();
    deps.insert(a);
    scheduler.add_node(a, IndexSet::new()).unwrap();
    scheduler.add_node(b, deps).unwrap();
    scheduler.mark_failed(a).unwrap();
    assert!(matches!(scheduler.decide(), ScheduleDecision::Wait));
    assert_eq!(scheduler.failed_count(), 1);
}

// ---- engine ----

#[test]
fn test_engine_config_default() {
    let config = EngineConfig::default();
    assert_eq!(config.max_ticks, 1_000_000);
    assert!(config.capabilities.is_empty());
    assert!(config.enable_backpressure);
}

#[test]
fn test_engine_new() {
    let run_id = make_test_run();
    let engine = ExecutionEngine::new(run_id, EngineConfig::default());

    assert_eq!(engine.run_id(), run_id);
    assert_eq!(engine.time().as_u64(), 0);
    assert!(engine.events().is_empty());
    assert!(engine.outputs().is_empty());
}

#[test]
fn test_engine_add_node() {
    let mut engine = ExecutionEngine::new(make_test_run(), EngineConfig::default());
    let node = make_test_node();

    let result = engine.add_node(node, IndexSet::new());
    assert!(result.is_ok());
}

#[test]
fn test_engine_run_single_node() {
    let mut engine = ExecutionEngine::new(make_test_run(), EngineConfig::default());
    let node = make_test_node();

    engine.add_node(node, IndexSet::new()).unwrap();

    let result = engine.run().unwrap();
    assert_eq!(result, ExecutionStatus::Success);
    assert!(!engine.events().is_empty());
}

#[test]
fn test_engine_run_two_nodes_independent() {
    let mut engine = ExecutionEngine::new(make_test_run(), EngineConfig::default());
    let node1 = make_test_node();
    let node2 = make_test_node();

    engine.add_node(node1, IndexSet::new()).unwrap();
    engine.add_node(node2, IndexSet::new()).unwrap();

    let result = engine.run().unwrap();
    assert_eq!(result, ExecutionStatus::Success);
    assert_eq!(engine.events().len(), 4);
}

#[test]
fn test_engine_run_two_nodes_dependent() {
    let mut engine = ExecutionEngine::new(make_test_run(), EngineConfig::default());
    let node1 = make_test_node();
    let node2 = make_test_node();

    let mut deps = IndexSet::new();
    deps.insert(node1);

    engine.add_node(node1, IndexSet::new()).unwrap();
    engine.add_node(node2, deps).unwrap();

    let result = engine.run().unwrap();
    assert_eq!(result, ExecutionStatus::Success);
}

#[test]
fn test_engine_reset() {
    let mut engine = ExecutionEngine::new(make_test_run(), EngineConfig::default());
    let node = make_test_node();

    engine.add_node(node, IndexSet::new()).unwrap();
    engine.run().unwrap();

    assert!(engine.time().as_u64() > 0);
    assert!(!engine.events().is_empty());

    engine.reset();

    assert_eq!(engine.time().as_u64(), 0);
    assert!(engine.events().is_empty());
}

#[test]
fn test_engine_timeout() {
    let config = EngineConfig { max_ticks: 1, ..EngineConfig::default() };
    let mut engine = ExecutionEngine::new(make_test_run(), config);

    let node1 = make_test_node();
    let node2 = make_test_node();

    let mut deps = IndexSet::new();
    deps.insert(node1);

    engine.add_node(node1, IndexSet::new()).unwrap();
    engine.add_node(node2, deps).unwrap();

    let _result = engine.run();

    assert!(engine.time().as_u64() >= 1);
}

#[test]
fn engine_records_outputs_and_chains_events() {
    let mut engine = ExecutionEngine::new(make_test_run(), EngineConfig::default());
    let a = NodeId::from_u128(5);
    let b = NodeId::from_u128(6);
    let mut deps = IndexSet::new();
    deps.insert(a);
    engine.add_node(a, IndexSet::new()).unwrap();
    engine.add_node(b, deps).unwrap();
    assert_eq!(engine.run().unwrap(), ExecutionStatus::Success);
    assert_eq!(engine.output_count(), 2);
    let out = engine.get_output(a).unwrap();
    assert!(out.output.is_empty());
    assert_eq!(out.output_hash, hash::Hash::empty());
    let events = engine.events();
    assert_eq!(events.len(), 4);
    assert_eq!(events[0].kind, EventKind::NodeStarted);
    assert_eq!(events[0].node_id, a);
    assert_eq!(events[1].kind, EventKind::NodeCompleted);
    assert_eq!(events[1].parent_event_id, None);
    assert_eq!(events[2].node_id, b);
    assert_eq!(events[2].parent_event_id, Some(events[1].event_id));
    assert_eq!(engine.time().as_u64(), 2);
    assert!(engine.get_output(NodeId::from_u128(7)).is_none());
}

#[test]
fn engine_with_one_tick_stops_early() {
    let config = EngineConfig { max_ticks: 1, ..EngineConfig::default() };
    let mut engine = ExecutionEngine::new(make_test_run(), config);
    let a = NodeId::from_u128(1);
    let b = NodeId::from_u128(2);
    engine.add_node(a, IndexSet::new()).unwrap();
    engine.add_node(b, IndexSet::new()).unwrap();
    assert_eq!(engine.run().unwrap(), ExecutionStatus::Timeout);
    assert_eq!(engine.output_count(), 1);
}

// ---- executor ----

#[test]
fn test_executor_new() {
    let executor = Executor::new();
    assert_eq!(executor.max_ticks, 1_000_000);
    assert!(executor.strict_capabilities);
}

#[test]
fn test_executor_with_max_ticks() {
    let executor = Executor::new().with_max_ticks(100);
    assert_eq!(executor.max_ticks, 100);
}

#[test]
fn test_executor_with_strict_capabilities() {
    let executor = Executor::new().with_strict_capabilities(false);
    assert!(!executor.strict_capabilities);
}

#[test]
fn test_check_capabilities_pass() {
    let executor = Executor::new();
    let mut capabilities = CapabilitySet::new();
    capabilities.allow(Capability::FsRead { prefixes: vec!["/tmp".to_string()] });

    let ctx = ExecutionContext::new(make_test_run(), make_test_node(), LogicalTime::zero(), capabilities);

    let result = executor.check_capabilities(&ctx, &[]);
    assert!(result.is_ok());
}

#[test]
fn test_check_capabilities_fail() {
    let executor = Executor::new();
    let capabilities = CapabilitySet::new();

    let ctx = ExecutionContext::new(make_test_run(), make_test_node(), LogicalTime::zero(), capabilities);

    let required = vec![Capability::FsRead { prefixes: vec!["/tmp".to_string()] }];
    let result = executor.check_capabilities(&ctx, &required);
    assert!(result.is_err());
}

#[test]
fn test_check_capabilities_non_strict() {
    let executor = Executor::new().with_strict_capabilities(false);
    let capabilities = CapabilitySet::new();

    let ctx = ExecutionContext::new(make_test_run(), make_test_node(), LogicalTime::zero(), capabilities);

    let required = vec![Capability::FsRead { prefixes: vec!["/tmp".to_string()] }];
    let result = executor.check_capabilities(&ctx, &required);
    assert!(result.is_ok());
}

#[test]
fn test_create_start_event() {
    let executor = Executor::new();
    let ctx = ExecutionContext::new(make_test_run(), make_test_node(), LogicalTime::from_raw(10), CapabilitySet::new());

    let event = executor.create_start_event(&ctx);
    assert_eq!(event.kind, EventKind::NodeStarted);
    assert_eq!(event.logical_time.as_u64(), 10);
}

#[test]
fn test_create_complete_event() {
    let executor = Executor::new();
    let ctx = ExecutionContext::new(make_test_run(), make_test_node(), LogicalTime::from_raw(10), CapabilitySet::new());

    let result = ExecutorResult::Success { output: vec![1, 2, 3], output_hash: hash::Hash::empty() };
    let event = executor.create_complete_event(&ctx, &result);

    assert_eq!(event.kind, EventKind::NodeCompleted);
    assert_eq!(event.logical_time.as_u64(), 11);
}

#[test]
fn test_create_complete_event_failed() {
    let executor = Executor::new();
    let ctx = ExecutionContext::new(make_test_run(), make_test_node(), LogicalTime::from_raw(10), CapabilitySet::new());

    let result = ExecutorResult::Failed { error: "test error".to_string() };
    let event = executor.create_complete_event(&ctx, &result);

    assert_eq!(event.kind, EventKind::NodeFailed);
}

#[test]
fn test_create_complete_event_skipped() {
    let executor = Executor::new();
    let ctx = ExecutionContext::new(make_test_run(), make_test_node(), LogicalTime::from_raw(10), CapabilitySet::new());

    let result = ExecutorResult::Skipped { missing: vec![Capability::FsRead { prefixes: vec!["/tmp".to_string()] }] };
    let event = executor.create_complete_event(&ctx, &result);

    assert_eq!(event.kind, EventKind::NodeSkipped);
}

#[test]
fn test_execution_context_new() {
    let ctx = ExecutionContext::new(make_test_run(), make_test_node(), LogicalTime::from_raw(5), CapabilitySet::new());

    assert!(ctx.inputs.is_empty());
    assert!(ctx.parent_event_id.is_none());
}

#[test]
fn test_execution_context_with_parent() {
    let parent = EventId::new();
    let ctx = ExecutionContext::new(make_test_run(), make_test_node(), LogicalTime::zero(), CapabilitySet::new())
        .with_parent(parent);

    assert_eq!(ctx.parent_event_id, Some(parent));
}

#[test]
fn test_execution_context_add_input() {
    let mut ctx = ExecutionContext::new(make_test_run(), make_test_node(), LogicalTime::zero(), CapabilitySet::new());

    let from = make_test_node();
    ctx.add_input(from, vec![1, 2, 3]);

    assert_eq!(ctx.inputs.len(), 1);
    assert_eq!(ctx.inputs.get(&from), Some(&vec![1, 2, 3]));
}

#[test]
fn test_execution_context_has_capability() {
    let mut capabilities = CapabilitySet::new();
    capabilities.allow(Capability::FsRead { prefixes: vec!["/tmp".to_string()] });

    let ctx = ExecutionContext::new(make_test_run(), make_test_node(), LogicalTime::zero(), capabilities);

    assert!(ctx.has_capability(&Capability::FsRead { prefixes: vec!["/tmp".to_string()] }));
    assert!(!ctx.has_capability(&Capability::FsWrite { prefixes: vec!["/tmp".to_string()] }));
}

#[test]
fn test_execute_with_events() {
    let executor = Executor::new();
    let ctx = ExecutionContext::new(make_test_run(), make_test_node(), LogicalTime::from_raw(10), CapabilitySet::new());

    let result = executor.execute_with_events(&ctx);
    assert!(result.is_ok());

    let (start, end, exec_result) = result.unwrap();
    assert_eq!(start.kind, EventKind::NodeStarted);
    assert_eq!(end.kind, EventKind::NodeCompleted);
    assert!(matches!(exec_result, ExecutorResult::Success { .. }));
}

#[test]
fn execution_context_input_replaced_by_later_one() {
    let mut ctx = ExecutionContext::new(make_test_run(), make_test_node(), LogicalTime::zero(), CapabilitySet::new());
    let from = NodeId::from_u128(3);
    ctx.add_input(from, vec![1]);
    ctx.add_input(from, vec![2, 2]);
    ctx.add_input(NodeId::from_u128(4), vec![]);
    assert_eq!(ctx.inputs.len(), 2);
    assert_eq!(ctx.inputs.get(&from), Some(&vec![2, 2]));
    assert_eq!(ctx.inputs.get(&NodeId::from_u128(5)), None);
}

#[test]
fn executor_error_messages() {
    assert_eq!(ExecutorError::Timeout.to_string(), "Execution timeout");
    assert_eq!(ExecutorError::InvalidInput.to_string(), "Invalid input");
    assert_eq!(
        ExecutorError::CapabilityDenied { capability: Capability::ClockRead }.to_string(),
        "Capability denied: ClockRead"
    );
}

// ---- monitor ----

#[test]
fn test_metrics_new() {
    let metrics = Metrics::new();
    assert_eq!(metrics.nodes_executed, 0);
    assert_eq!(metrics.nodes_completed, 0);
    assert_eq!(success_rate(&metrics), 1.0);
}

#[test]
fn test_metrics_record() {
    let mut metrics = Metrics::new();
    metrics.record_execution();
    metrics.record_completion();

    assert_eq!(metrics.nodes_executed, 1);
    assert_eq!(metrics.nodes_completed, 1);
    assert_eq!(success_rate(&metrics), 1.0);
}

#[test]
fn test_metrics_failure_rate() {
    let mut metrics = Metrics::new();
    metrics.record_execution();
    metrics.record_completion();
    metrics.record_execution();
    metrics.record_failure();

    assert_eq!(metrics.nodes_executed, 2);
    assert_eq!(metrics.nodes_failed, 1);
    assert_eq!(failure_rate(&metrics), 0.5);
}

#[test]
fn test_metrics_reset() {
    let mut metrics = Metrics::new();
    metrics.record_execution();
    metrics.record_completion();
    metrics.reset();

    assert_eq!(metrics.nodes_executed, 0);
}

#[test]
fn test_monitor_new() {
    let monitor = ExecutionMonitor::new(100);
    assert_eq!(monitor.max_history(), 100);
    assert_eq!(monitor.metrics().nodes_executed, 0);
}

#[test]
fn test_monitor_capture_telemetry() {
    let mut monitor = ExecutionMonitor::new(10);
    monitor.metrics_mut().record_execution();
    monitor.metrics_mut().record_completion();

    let test_node = NodeId::new();
    let telemetry = monitor.capture_telemetry(LogicalTime::from_raw(5), vec![test_node], false);

    assert_eq!(telemetry.logical_time.as_u64(), 5);
    assert_eq!(telemetry.metrics.nodes_executed, 1);
    assert_eq!(telemetry.executing_nodes.len(), 1);
    assert!(!telemetry.backpressure_active);
}

#[test]
fn test_monitor_history() {
    let mut monitor = ExecutionMonitor::new(3);

    monitor.capture_telemetry(LogicalTime::zero(), vec![], false);
    monitor.capture_telemetry(LogicalTime::from_raw(1), vec![], false);
    monitor.capture_telemetry(LogicalTime::from_raw(2), vec![], false);
    monitor.capture_telemetry(LogicalTime::from_raw(3), vec![], false);

    assert_eq!(monitor.history().len(), 3);
}

#[test]
fn test_monitor_reset() {
    let mut monitor = ExecutionMonitor::new(10);
    monitor.metrics_mut().record_execution();
    monitor.capture_telemetry(LogicalTime::zero(), vec![], false);

    monitor.reset();

    assert_eq!(monitor.metrics().nodes_executed, 0);
    assert_eq!(monitor.history().len(), 0);
}

#[test]
fn test_monitor_default() {
    let monitor = ExecutionMonitor::default();
    assert_eq!(monitor.max_history(), 1000);
}

#[test]
fn monitor_history_drops_oldest_first() {
    let mut monitor = ExecutionMonitor::new(2);
    for t in 0..5u64 {
        monitor.capture_telemetry(LogicalTime::from_raw(t), vec![], t % 2 == 0);
    }
    let h = monitor.history();
    assert_eq!(h.len(), 2);
    assert_eq!(h[0].logical_time.as_u64(), 3);
    assert_eq!(h[1].logical_time.as_u64(), 4);
    assert!(h[1].backpressure_active);
}

// ---- backpressure ----

#[test]
fn backpressure_status_follows_strategy_once_applied() {
    assert_eq!(status_for(false, BackpressureStrategy::Drop), BackpressureStatus::Normal);
    assert_eq!(status_for(true, BackpressureStrategy::Off), BackpressureStatus::Normal);
    assert_eq!(status_for(true, BackpressureStrategy::Drop), BackpressureStatus::Drop);
    assert_eq!(status_for(true, BackpressureStrategy::Block), BackpressureStatus::Block);
    assert_eq!(status_for(true, BackpressureStrategy::Signal), BackpressureStatus::Signal);
}

#[test]
fn completed_nodes_are_never_scheduled_again() {
    let mut scheduler = Scheduler::new();
    let a = NodeId::from_u128(1);
    let b = NodeId::from_u128(2);
    scheduler.add_node(a, IndexSet::new()).unwrap();
    scheduler.mark_complete(a).unwrap();
    // adding a completed node again does not make it ready
    scheduler.add_node(a, IndexSet::new()).unwrap();
    assert_eq!(scheduler.ready_count(), 0);
    scheduler.add_node(b, IndexSet::new()).unwrap();
    assert!(matches!(scheduler.decide(), ScheduleDecision::Run(id) if id == b));
    assert!(scheduler.completed_nodes().contains(&1));
    scheduler.reset();
    assert_eq!(scheduler.ready_count(), 2);
    assert!(scheduler.completed_nodes().is_empty());
}
