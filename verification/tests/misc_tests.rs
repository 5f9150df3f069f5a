use concurrency::error::{resolve_exit_reason, ActorError, ExitReason};
use concurrency::ids::{ActorAddress, ActorId, NodeId};
use concurrency::node_readiness::NodeReadiness;
use concurrency::observability::{
    meltdown, record, remote_spawn, remote_spawn_retry, restart_scheduled, RecorderEvent, SupervisionRecorder,
    TestRecorder,
};
use concurrency::shutdown_signal::{register_shutdown_on_signal, SignalRegistry};
use concurrency::time::{Duration, Instant};

#[test]
fn requested_exit_takes_precedence() {
    let mut requested = Some(ExitReason::Shutdown);
    let mut linked = None;
    assert_eq!(resolve_exit_reason(ExitReason::Normal, &mut requested, &mut linked), ExitReason::Shutdown);
    assert!(requested.is_none());
}

#[test]
fn linked_reason_used_when_normal_and_no_request() {
    let mut requested = None;
    let mut linked = Some(ExitReason::Panic("boom".into()));
    assert!(matches!(resolve_exit_reason(ExitReason::Normal, &mut requested, &mut linked), ExitReason::Panic(_)));
    assert!(linked.is_none());
}

#[test]
fn abnormal_exit_keeps_its_reason_over_linked_one() {
    let mut requested = None;
    let mut linked = Some(ExitReason::Panic("boom".into()));
    assert_eq!(resolve_exit_reason(ExitReason::Kill, &mut requested, &mut linked), ExitReason::Kill);
    assert!(linked.is_some());
}

#[test]
fn exit_reason_abnormality() {
    assert!(!ExitReason::Normal.is_abnormal());
    assert!(!ExitReason::Shutdown.is_abnormal());
    assert!(ExitReason::Kill.is_abnormal());
    assert!(ExitReason::Panic("x".into()).is_abnormal());
}

#[test]
fn test_recorder_increments_on_restart_scheduled() {
    let mut recorder = TestRecorder::new();
    record(&mut recorder, restart_scheduled(ActorId::from_raw(1), "worker", Duration::from_millis(10), false));
    assert_eq!(recorder.restarts, 1);
}

#[test]
fn test_recorder_increments_on_meltdown_direct() {
    let mut recorder = TestRecorder::new();
    SupervisionRecorder::inc_meltdown(&mut recorder, ActorId::from_raw(2));
    assert_eq!(recorder.meltdowns, 1);
}

#[test]
fn recorder_events_reach_their_hooks() {
    let mut recorder = TestRecorder::new();
    let node = NodeId::new("peer@host".to_string());
    record(&mut recorder, meltdown(ActorId::from_raw(1)));
    record(&mut recorder, remote_spawn(&node, "child", Duration::from_millis(3), true));
    record(&mut recorder, remote_spawn_retry(&node, 1, 3));
    assert_eq!((recorder.restarts, recorder.meltdowns, recorder.remote_spawns, recorder.remote_spawn_retries), (0, 1, 1, 1));
    assert!(matches!(restart_scheduled(ActorId::from_raw(1), "w", Duration::zero(), true), RecorderEvent::Restart { remote: true, .. }));
}

#[test]
fn node_with_listen_and_broker_is_ready() {
    let ready = NodeReadiness {
        router_installed: true,
        listener_active: true,
        supervision_enabled: true,
        broker_alive: true,
        peers_configured: 1,
        listen_configured: true,
    };
    assert!(ready.is_ready());
    assert!(!NodeReadiness { broker_alive: false, ..ready }.is_ready());
    assert!(!NodeReadiness { listener_active: false, ..ready }.is_ready());
    assert!(NodeReadiness { listener_active: false, listen_configured: false, ..ready }.is_ready());
    assert!(NodeReadiness { broker_alive: false, supervision_enabled: false, ..ready }.is_ready());
}

/// Deliver a signal to every callback once, in order, and keep those whose
/// delivery succeeded.
fn dispatch(registry: &mut SignalRegistry<fn(u8) -> Result<(), ActorError>>, signal: u8) {
    let delivered: Vec<bool> = registry.entries().iter().map(|(_, send)| send(signal).is_ok()).collect();
    registry.retain_delivered(&delivered);
}

#[test]
fn register_dispatch_and_deregister() {
    let mut registry: SignalRegistry<fn(u8) -> Result<(), ActorError>> = SignalRegistry::new();
    fn ok(_: u8) -> Result<(), ActorError> {
        Ok(())
    }
    let g1 = registry.register(ok);
    let g2 = registry.register(ok);
    assert_eq!((g1.id(), g2.id()), (1, 2));
    dispatch(&mut registry, 2u8);
    assert_eq!(registry.entries().len(), 2);
    registry.unregister(g1.id());
    assert_eq!(registry.entries().len(), 1);
    assert_eq!(registry.entries()[0].0, 2);
}

#[test]
fn dead_sender_pruned_on_dispatch() {
    let mut registry: SignalRegistry<fn(u8) -> Result<(), ActorError>> = SignalRegistry::new();
    fn ok(_: u8) -> Result<(), ActorError> {
        Ok(())
    }
    fn gone(_: u8) -> Result<(), ActorError> {
        Err(ActorError::ActorStopped)
    }
    let guards = register_shutdown_on_signal(&mut registry, vec![ok as fn(u8) -> Result<(), ActorError>, gone, ok]);
    assert_eq!(guards.iter().map(|g| g.id()).collect::<Vec<_>>(), vec![1, 2, 3]);
    dispatch(&mut registry, 15u8);
    assert_eq!(registry.entries().iter().map(|e| e.0).collect::<Vec<_>>(), vec![1, 3]);
}

#[test]
fn instants_and_addresses() {
    assert_eq!(Instant::from_nanos(5).duration_since(Instant::from_nanos(2)), Duration::from_nanos(3));
    assert_eq!(Instant::from_nanos(2).duration_since(Instant::from_nanos(5)), Duration::zero());
    let a = ActorAddress::on(NodeId::new("n".to_string()), ActorId::from_raw(1));
    assert!(a.same_as(&a.duplicate()));
    assert!(!a.same_as(&ActorAddress::local(ActorId::from_raw(1))));
    assert_eq!(Duration::from_secs(1).saturating_mul(3), Duration::from_secs(3));
}
