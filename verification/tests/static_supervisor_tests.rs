use concurrency::child_spec::{ChildSpec, ChildType, RestartBackoff, RestartIntensity, RestartType, ShutdownType};
use concurrency::error::ExitReason;
use concurrency::ids::{ActorAddress, ActorId, NodeId};
use concurrency::mailbox::MailboxConfig;
use concurrency::node::{plan_node, NodeConfig, NodeError, NodePlan};
use concurrency::static_supervisor::{StaticSupervisor, SupervisorStep};
use concurrency::supervisor::SupervisorStrategy;
use concurrency::time::{Duration, Instant};
use concurrency::wire::{classify_inbound, InboundError, InboundKind};

fn spec(id: &str, shutdown: ShutdownType, backoff: RestartBackoff) -> ChildSpec<()> {
    ChildSpec {
        id: id.to_string(),
        restart: RestartType::Permanent,
        shutdown,
        child_type: ChildType::Worker,
        mailbox: MailboxConfig::unbounded(),
        backoff,
        pg_membership: None,
        start: (),
    }
}

fn three() -> StaticSupervisor<()> {
    StaticSupervisor::new(
        SupervisorStrategy::OneForAll,
        RestartIntensity::default(),
        vec![
            spec("a", ShutdownType::BrutalKill, RestartBackoff::NoDelay),
            spec("b", ShutdownType::Infinity, RestartBackoff::Fixed(Duration::from_millis(80))),
            spec("c", ShutdownType::Timeout(Duration::from_secs(1)), RestartBackoff::NoDelay),
        ],
    )
}

#[test]
fn spec_lookups_default_for_unknown_ids() {
    let sup = three();
    assert_eq!(sup.shutdown_for(&"a".to_string()), ShutdownType::BrutalKill);
    assert_eq!(sup.shutdown_for(&"zz".to_string()), ShutdownType::Infinity);
    assert_eq!(sup.backoff_for(&"b".to_string()), RestartBackoff::Fixed(Duration::from_millis(80)));
    assert_eq!(sup.backoff_for(&"zz".to_string()), RestartBackoff::NoDelay);
}

#[test]
fn one_for_all_batch_restarts_remote_children_first() {
    let mut sup = three();
    sup.child_started(0, ActorId::from_raw(1), false);
    sup.child_started(1, ActorId::from_raw(2), true);
    sup.child_started(2, ActorId::from_raw(3), false);
    let now = Instant::from_nanos(0);
    let step = sup.on_exit(ActorId::from_raw(1), &ExitReason::Panic("x".into()), now);
    let ids = match step {
        SupervisorStep::Terminate(ids) => ids,
        other => panic!("unexpected {:?}", other),
    };
    assert_eq!(ids, vec!["a".to_string(), "b".to_string(), "c".to_string()]);
    let plan = sup.shutdown_plan(&ids);
    assert_eq!(plan[0], ("a".to_string(), ShutdownType::BrutalKill));
    sup.child_terminated(ActorId::from_raw(3));
    assert_eq!(sup.batch_terminated(), None);
    let step = sup.on_exit(ActorId::from_raw(2), &ExitReason::Shutdown, now);
    assert_eq!(step, SupervisorStep::Restart(vec!["b".to_string(), "a".to_string(), "c".to_string()]));
}

#[test]
fn stop_shuts_children_down_latest_first() {
    let mut sup = three();
    sup.child_started(0, ActorId::from_raw(1), false);
    sup.child_started(1, ActorId::from_raw(2), false);
    let plan = sup.begin_stop();
    assert_eq!(plan, vec![("b".to_string(), ShutdownType::Infinity), ("a".to_string(), ShutdownType::BrutalKill)]);
    assert!(sup.logic().suppress_restarts());
}

#[test]
fn meltdown_stops_static_supervisor() {
    let mut sup = StaticSupervisor::new(
        SupervisorStrategy::OneForOne,
        RestartIntensity { max_restarts: 0, within: Duration::from_secs(5) },
        vec![spec("w", ShutdownType::Infinity, RestartBackoff::NoDelay)],
    );
    sup.child_started(0, ActorId::from_raw(9), false);
    assert_eq!(sup.on_exit(ActorId::from_raw(9), &ExitReason::Kill, Instant::from_nanos(0)), SupervisorStep::Stop);
}

#[test]
fn failed_remote_restart_drops_the_child() {
    let mut sup = StaticSupervisor::new(
        SupervisorStrategy::OneForOne,
        RestartIntensity::default(),
        vec![spec("r", ShutdownType::Infinity, RestartBackoff::NoDelay)],
    );
    sup.child_started(0, ActorId::from_raw(9), true);
    assert!(sup.is_remote(&"r".to_string()));
    assert_eq!(
        sup.on_exit(ActorId::from_raw(9), &ExitReason::Kill, Instant::from_nanos(0)),
        SupervisorStep::Restart(vec!["r".to_string()])
    );
    sup.remote_restart_failed("r");
    assert_eq!(sup.logic().child_count(), 0);
}

#[test]
fn signal_only_node_builds() {
    let plan = plan_node(&NodeConfig { name_requested: false, name_applied: false, listen: false, peers: 0, shutdown_handles: 1 })
        .unwrap();
    assert_eq!(
        plan,
        NodePlan { federated: false, tcp_transport: false, install_sync_hooks: false, bind_listener: false, signal_dispatch: true }
    );
}

#[test]
fn node_name_taken_refuses_build() {
    let r = plan_node(&NodeConfig { name_requested: true, name_applied: false, listen: true, peers: 1, shutdown_handles: 0 });
    assert_eq!(r, Err(NodeError::NameAlreadySet));
    let plan = plan_node(&NodeConfig { name_requested: true, name_applied: true, listen: true, peers: 0, shutdown_handles: 0 })
        .unwrap();
    assert!(plan.federated && !plan.tcp_transport && plan.bind_listener && !plan.install_sync_hooks);
}

#[test]
fn inbound_envelopes_are_classified() {
    let me = ActorAddress::on(NodeId::new("n".to_string()), ActorId::from_raw(1));
    let other = ActorAddress::on(NodeId::new("n".to_string()), ActorId::from_raw(2));
    assert_eq!(classify_inbound(&me, &me, 0), Ok(InboundKind::Cast));
    assert_eq!(classify_inbound(&me, &me, 9), Ok(InboundKind::Call));
    assert_eq!(classify_inbound(&me, &other, 0), Err(InboundError::UnexpectedTarget(other.clone())));
}
