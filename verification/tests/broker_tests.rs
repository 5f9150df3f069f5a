use concurrency::error::ExitReason;
use concurrency::ids::{ActorAddress, ActorId, Locality, NodeId};
use concurrency::supervision::{
    child_exit_envelope, link_envelope, monitor_envelope, route, route_node, RemoteSpawnSpec, Route,
    SupervisionEnvelope, SupervisionEvent, SupervisionSignal,
};
use concurrency::supervision_broker::{
    install_supervision_broker, local_handle, register_supervision_actor, BrokerError, BrokerOp, BrokerStep,
    SupervisionBrokerInner,
};

fn here() -> NodeId {
    NodeId::new("broker@127.0.0.1".to_string())
}

fn there() -> NodeId {
    NodeId::new("peer@127.0.0.2".to_string())
}

fn on_here(id: u64) -> ActorAddress {
    ActorAddress::on(here(), ActorId::from_raw(id))
}

fn on_there(id: u64) -> ActorAddress {
    ActorAddress::on(there(), ActorId::from_raw(id))
}

fn running(_: &&'static str) -> Option<ExitReason> {
    None
}

fn broker() -> SupervisionBrokerInner<&'static str, u8> {
    SupervisionBrokerInner::new(here())
}

#[test]
fn local_shutdown_signal_via_broker() {
    let mut b = broker();
    let address = on_here(5);
    b.register(&address, ActorId::from_raw(5), "actor").unwrap();
    let step = b
        .apply(
            SupervisionEnvelope {
                correlation_id: 0,
                event: SupervisionEvent::Signal { target: address, signal: SupervisionSignal::Shutdown },
            },
            &running,
        )
        .unwrap();
    assert!(matches!(step, BrokerStep::Signal { actor, signal: SupervisionSignal::Shutdown } if actor == ActorId::from_raw(5)));
}

#[test]
fn signal_for_unknown_or_remote_actor_is_refused() {
    let mut b = broker();
    let r = b.apply(
        SupervisionEnvelope { correlation_id: 0, event: SupervisionEvent::Signal { target: on_here(9), signal: SupervisionSignal::Kill } },
        &running,
    );
    assert!(matches!(r, Err(BrokerError::UnknownActor { op: BrokerOp::Signal, .. })));
    let r = b.apply(
        SupervisionEnvelope { correlation_id: 0, event: SupervisionEvent::Signal { target: on_there(9), signal: SupervisionSignal::Kill } },
        &running,
    );
    assert!(matches!(r, Err(BrokerError::NotLocal { op: BrokerOp::Signal, .. })));
}

#[test]
fn register_checks_node_and_handle() {
    let mut b = broker();
    assert!(matches!(b.register(&on_there(1), ActorId::from_raw(1), "x"), Err(BrokerError::NotLocal { .. })));
    assert!(matches!(b.register(&on_here(1), ActorId::from_raw(2), "x"), Err(BrokerError::HandleMismatch { .. })));
    assert!(b.register(&ActorAddress::local(ActorId::from_raw(1)), ActorId::from_raw(1), "x").is_ok());
    assert_eq!(b.local_handle(ActorId::from_raw(1)), Some("x"));
}

#[test]
fn spawn_request_placed_elsewhere_is_refused_with_reason() {
    let mut b = broker();
    let step = b
        .apply(
            SupervisionEnvelope {
                correlation_id: 4,
                event: SupervisionEvent::SpawnRequest {
                    parent: on_there(1),
                    placement: there(),
                    spec: RemoteSpawnSpec::Worker { worker_type: "echo".into(), init: vec![] },
                    link: false,
                },
            },
            &running,
        )
        .unwrap();
    match step {
        BrokerStep::Reply(SupervisionEnvelope { correlation_id: 4, event: SupervisionEvent::SpawnErr { error } }) => {
            assert_eq!(error, "placement node peer@127.0.0.2 does not match local node broker@127.0.0.1");
        }
        other => panic!("unexpected {:?}", other),
    }
}

#[test]
fn linked_spawn_waits_for_broker_handle() {
    let mut b = broker();
    let req = |link: bool| SupervisionEnvelope {
        correlation_id: 1,
        event: SupervisionEvent::SpawnRequest {
            parent: on_there(1),
            placement: here(),
            spec: RemoteSpawnSpec::Worker { worker_type: "echo".into(), init: vec![1] },
            link,
        },
    };
    match b.apply(req(true), &running).unwrap() {
        BrokerStep::Reply(SupervisionEnvelope { event: SupervisionEvent::SpawnErr { error }, .. }) => {
            assert_eq!(error, "supervision broker not ready");
        }
        other => panic!("unexpected {:?}", other),
    }
    b.set_broker_handle("broker");
    assert!(matches!(b.apply(req(true), &running).unwrap(), BrokerStep::Spawn { correlation_id: 1, link: true, .. }));
    let reply = b.finish_spawn(1, on_there(1), Ok((ActorId::from_raw(20), "child")));
    match reply.event {
        SupervisionEvent::SpawnOk { child } => assert_eq!(child, on_here(20)),
        other => panic!("unexpected {:?}", other),
    }
    assert_eq!(b.local_handle(ActorId::from_raw(20)), Some("child"));
}

#[test]
fn spawned_child_exit_reaches_remote_parent_and_late_monitor() {
    let mut b = broker();
    b.finish_spawn(1, on_there(1), Ok((ActorId::from_raw(20), "child")));
    let e = b.propagate_child_exit(ActorId::from_raw(20), ExitReason::Kill).unwrap();
    match e.event {
        SupervisionEvent::ChildExit { child, parent, reason } => {
            assert_eq!(child, on_here(20));
            assert_eq!(parent, on_there(1));
            assert_eq!(reason, ExitReason::Kill);
        }
        other => panic!("unexpected {:?}", other),
    }
    assert_eq!(b.local_handle(ActorId::from_raw(20)), None);
    assert!(b.propagate_child_exit(ActorId::from_raw(20), ExitReason::Kill).is_none());
    let step = b.apply(monitor_envelope(on_there(2), on_here(20), 77), &running).unwrap();
    match step {
        BrokerStep::Publish(SupervisionEnvelope { event: SupervisionEvent::Down { monitor_ref: 77, reason, .. }, .. }) => {
            assert_eq!(reason, ExitReason::Kill);
        }
        other => panic!("unexpected {:?}", other),
    }
}

#[test]
fn monitor_fires_once_unless_cancelled() {
    let mut b = broker();
    b.register(&on_here(5), ActorId::from_raw(5), "a").unwrap();
    assert!(matches!(b.apply(monitor_envelope(on_there(2), on_here(5), 1), &running).unwrap(), BrokerStep::WatchMonitor { .. }));
    assert!(b.monitor_fired(on_there(2), on_here(5), 1, ExitReason::Normal).is_some());
    assert!(b.monitor_fired(on_there(2), on_here(5), 1, ExitReason::Normal).is_none());

    b.apply(monitor_envelope(on_there(2), on_here(5), 2), &running).unwrap();
    b.apply(
        SupervisionEnvelope {
            correlation_id: 0,
            event: SupervisionEvent::Demonitor { owner: on_there(2), target: on_here(5), monitor_ref: 2 },
        },
        &running,
    )
    .unwrap();
    assert!(b.monitor_fired(on_there(2), on_here(5), 2, ExitReason::Normal).is_none());
}

#[test]
fn monitor_of_exited_actor_reports_down_at_once() {
    let mut b = broker();
    b.register(&on_here(5), ActorId::from_raw(5), "a").unwrap();
    let step = b.apply(monitor_envelope(on_there(2), on_here(5), 3), &|_: &&'static str| Some(ExitReason::Shutdown)).unwrap();
    assert!(matches!(step, BrokerStep::Publish(SupervisionEnvelope { event: SupervisionEvent::Down { reason: ExitReason::Shutdown, .. }, .. })));
    assert!(b.monitor_fired(on_there(2), on_here(5), 3, ExitReason::Shutdown).is_none());
}

#[test]
fn link_watch_notifies_each_peer_once() {
    let mut b = broker();
    b.register(&on_here(5), ActorId::from_raw(5), "a").unwrap();
    assert!(matches!(b.apply(link_envelope(on_there(1), on_here(5)), &running).unwrap(), BrokerStep::WatchLinks { .. }));
    assert!(matches!(b.apply(link_envelope(on_here(5), on_there(2)), &running).unwrap(), BrokerStep::Done));
    assert!(matches!(b.apply(link_envelope(on_here(5), on_there(2)), &running).unwrap(), BrokerStep::Done));
    let exits = b.link_exit_fired(&on_here(5), &ExitReason::Kill);
    assert_eq!(exits.len(), 2);
    match &exits[0].event {
        SupervisionEvent::ChildExit { child, parent, .. } => {
            assert_eq!(*child, on_here(5));
            assert_eq!(*parent, on_there(1));
        }
        other => panic!("unexpected {:?}", other),
    }
    assert!(b.link_exit_fired(&on_here(5), &ExitReason::Kill).is_empty());
}

#[test]
fn unlink_drops_the_peer() {
    let mut b = broker();
    b.register(&on_here(5), ActorId::from_raw(5), "a").unwrap();
    b.apply(link_envelope(on_here(5), on_there(1)), &running).unwrap();
    b.apply(link_envelope(on_here(5), on_there(2)), &running).unwrap();
    b.apply(SupervisionEnvelope { correlation_id: 0, event: SupervisionEvent::Unlink { a: on_there(1), b: on_here(5) } }, &running)
        .unwrap();
    let exits = b.link_exit_fired(&on_here(5), &ExitReason::Normal);
    assert_eq!(exits.len(), 1);
}

#[test]
fn link_between_two_remote_actors_is_refused() {
    let mut b = broker();
    assert!(matches!(b.apply(link_envelope(on_there(1), on_there(2)), &running), Err(BrokerError::LinkNotLocal { .. })));
}

#[test]
fn child_exit_and_down_are_delivered_locally() {
    let mut b = broker();
    b.register(&on_here(5), ActorId::from_raw(5), "parent").unwrap();
    let step = b.apply(child_exit_envelope(on_there(9), on_here(5), ExitReason::Normal), &running).unwrap();
    assert!(matches!(step, BrokerStep::DeliverExit { to, .. } if to == ActorId::from_raw(5)));
    let down = SupervisionEnvelope {
        correlation_id: 0,
        event: SupervisionEvent::Down { owner: on_here(6), monitor_ref: 3, child: on_there(9), reason: ExitReason::Kill },
    };
    assert!(matches!(b.apply(down.clone(), &running), Err(BrokerError::UnknownActor { op: BrokerOp::Down, .. })));
    b.register_down_owner(&on_here(6), 1u8).unwrap();
    assert!(matches!(b.apply(down, &running).unwrap(), BrokerStep::DeliverDown { monitor_ref: 3, .. }));
    assert_eq!(b.down_owner(ActorId::from_raw(6)), Some(&1u8));
}

#[test]
fn broker_slot_requires_installation() {
    let mut slot: Option<SupervisionBrokerInner<&'static str, u8>> = None;
    assert!(matches!(register_supervision_actor(&mut slot, &on_here(1), ActorId::from_raw(1), "a"), Err(BrokerError::NotInstalled)));
    assert_eq!(local_handle(&slot, ActorId::from_raw(1)), None);
    install_supervision_broker(&mut slot, broker());
    assert!(register_supervision_actor(&mut slot, &on_here(1), ActorId::from_raw(1), "a").is_ok());
    assert_eq!(local_handle(&slot, ActorId::from_raw(1)), Some("a"));
}

#[test]
fn events_route_to_their_target_node() {
    let local = here();
    assert!(matches!(route(&local, &link_envelope(on_here(1), on_there(2)).event), Route::Drop));
    assert!(matches!(route(&local, &monitor_envelope(on_there(1), on_here(2), 1).event), Route::Local));
    match route(&local, &child_exit_envelope(on_here(1), on_there(2), ExitReason::Normal).event) {
        Route::Remote(n) => assert_eq!(n, there()),
        other => panic!("unexpected {:?}", other),
    }
    assert_eq!(
        route_node(&SupervisionEvent::Signal { target: ActorAddress::local(ActorId::from_raw(1)), signal: SupervisionSignal::Stop }),
        Some(Locality::Local)
    );
}

#[test]
fn remote_link_exits_reach_every_peer() {
    let peers = vec![on_there(1), on_there(2)];
    let exits = concurrency::supervision::remote_link_exits(ActorId::from_raw(5), &peers, &ExitReason::Kill);
    assert_eq!(exits.len(), 2);
    match &exits[1].event {
        SupervisionEvent::ChildExit { child, parent, reason } => {
            assert_eq!(*child, ActorAddress::local(ActorId::from_raw(5)));
            assert_eq!(*parent, on_there(2));
            assert_eq!(*reason, ExitReason::Kill);
        }
        other => panic!("unexpected {:?}", other),
    }
}

#[test]
fn published_envelopes_go_where_they_are_routed() {
    let local = here();
    let sent: std::cell::RefCell<Vec<String>> = std::cell::RefCell::new(Vec::new());
    let r: Result<(), String> = concurrency::supervision::publish_routed(
        &local,
        child_exit_envelope(on_here(1), on_there(2), ExitReason::Normal),
        |_e: SupervisionEnvelope| {
            sent.borrow_mut().push("local".to_string());
            Ok(())
        },
        |n: NodeId, _e: SupervisionEnvelope| {
            sent.borrow_mut().push(n.name);
            Ok(())
        },
    );
    assert!(r.is_ok());
    let r: Result<(), String> = concurrency::supervision::publish_routed(
        &local,
        monitor_envelope(on_there(1), on_here(2), 5),
        |_e: SupervisionEnvelope| Err("local broker down".to_string()),
        |_n: NodeId, _e: SupervisionEnvelope| Ok(()),
    );
    assert_eq!(r, Err("local broker down".to_string()));
    let r: Result<(), String> = concurrency::supervision::publish_routed(
        &local,
        link_envelope(on_here(1), on_there(2)),
        |_e: SupervisionEnvelope| Err("unexpected".to_string()),
        |_n: NodeId, _e: SupervisionEnvelope| Err("unexpected".to_string()),
    );
    assert!(r.is_ok());
    assert_eq!(*sent.borrow(), vec!["peer@127.0.0.2".to_string()]);
}

#[test]
fn broker_refusals_have_their_protocol_texts() {
    let mut b = broker();
    let r = b.register(&on_there(5), ActorId::from_raw(5), "x");
    match r {
        Err(e) => assert_eq!(e.message(&here()), "supervision register: address peer@127.0.0.2 is not local (broker@127.0.0.1)"),
        Ok(()) => panic!("expected a refusal"),
    }
    let r = b.apply(
        SupervisionEnvelope { correlation_id: 0, event: SupervisionEvent::Signal { target: on_here(9), signal: SupervisionSignal::Kill } },
        &running,
    );
    match r {
        Err(e) => assert_eq!(e.message(&here()), "supervision signal: unknown local actor 9"),
        Ok(_) => panic!("expected a refusal"),
    }
    assert_eq!(
        BrokerError::HandleMismatch { handle: ActorId::from_raw(3), address: ActorId::from_raw(4) }.message(&here()),
        "supervision register: handle id 3 does not match address 4"
    );
    assert_eq!(
        BrokerError::LinkNotLocal { a: on_there(1), b: on_there(2) }.message(&here()),
        "Link: neither peer@127.0.0.2 nor peer@127.0.0.2 is on this node (broker@127.0.0.1)"
    );
    assert_eq!(BrokerError::NotInstalled.message(&here()), "supervision broker not installed");
}
