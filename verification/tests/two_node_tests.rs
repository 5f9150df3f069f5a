//! Supervision across two nodes: each node has a broker; envelopes travel
//! between them the way the transport routes them, and a small runtime
//! carries out what each broker asks for.

use concurrency::child_spec::{ChildSpec, RestartIntensity, RestartType, ShutdownType};
use concurrency::static_supervisor::{StaticSupervisor, SupervisorStep};
use concurrency::supervisor::SupervisorStrategy;
use concurrency::time::Instant;
use concurrency::error::ExitReason;
use concurrency::ids::{ActorAddress, ActorId, Locality, NodeId};
use concurrency::remote::{
    after_remote_wait, begin_remote_shutdown, spawn_reply_outcome, RemoteShutdownStep, RemoteChildHandle, RemoteShutdownError, RemoteSpawnStore,
    worker_parent, ShutdownWaits, SpawnRuntime,
};
use std::cell::RefCell;
use concurrency::supervision::{
    link_envelope, monitor_envelope, route_node, spawn_request_envelope, RemoteSpawnSpec, SupervisionEnvelope,
    SupervisionEvent, SupervisionSignal,
};
use concurrency::supervision_broker::{BrokerStep, SupervisionBrokerInner};
use std::collections::HashMap;

/// Shut a remote child down through the library's steps, from a thread that
/// may block: register the wait, publish the policy's signal, wait, escalate
/// when the step says so, and clear the wait.
fn shutdown_remote_and_wait_blocking(
    waits: &mut ShutdownWaits<u8>,
    remote: &RemoteChildHandle,
    shutdown: ShutdownType,
    completion: u8,
    publish: &dyn Fn(SupervisionEnvelope),
    wait: &dyn Fn(Option<concurrency::time::Duration>) -> Result<(), RemoteShutdownError>,
) -> Result<(), RemoteShutdownError> {
    let actor_id = remote.address().actor_id.raw();
    waits.register_shutdown_wait(actor_id, completion);
    let (signal, first_wait) = begin_remote_shutdown(remote, shutdown);
    publish(signal);
    let result = match after_remote_wait(remote, shutdown, wait(first_wait), true) {
        RemoteShutdownStep::Done(r) => r,
        RemoteShutdownStep::Escalate { kill, grace } => {
            publish(kill);
            wait(Some(grace))
        }
    };
    waits.clear_shutdown_wait(actor_id);
    result
}

/// Start what an inbound spawn request asks for, as a node's runtime does
/// with the library's resolution: a registered worker from its init bytes,
/// or a named spec with overrides under the parent.
fn spawn_local<W, N, S, P, H>(
    store: &RemoteSpawnStore<W, N>,
    spec: RemoteSpawnSpec,
    link: bool,
    parent: Option<&P>,
    start: &dyn Fn(&ChildSpec<S>, &P) -> H,
) -> Result<H, String>
where
    W: Fn(&[u8], Option<&P>) -> Result<H, String>,
    N: Fn() -> ChildSpec<S>,
{
    match spec {
        RemoteSpawnSpec::Worker { worker_type, init } => {
            let worker = store.resolve_worker(&worker_type)?;
            worker(&init, worker_parent(link, parent))
        }
        RemoteSpawnSpec::NamedSpec { name, overrides } => {
            let spec = store.prepare_named_spec(&name, &overrides, link, parent.is_some())?;
            Ok(start(&spec, parent.expect("a prepared named spec has a parent")))
        }
    }
}

type Worker = fn(&[u8], Option<&u64>) -> Result<u64, String>;
type Named = fn() -> ChildSpec<()>;

fn counter_worker(init: &[u8], _parent: Option<&u64>) -> Result<u64, String> {
    Ok(init.first().copied().unwrap_or(0) as u64)
}

struct Node {
    name: NodeId,
    broker: SupervisionBrokerInner<u64, u64>,
    workers: RemoteSpawnStore<Worker, Named>,
    exited: HashMap<u64, ExitReason>,
    link_watch: Vec<ActorAddress>,
    monitor_watch: Vec<(ActorAddress, ActorAddress, u64)>,
}

struct Cluster {
    nodes: Vec<Node>,
    next_actor: u64,
    /// Exits delivered to local actors: (node, actor, from, reason).
    exits: Vec<(String, ActorId, ActorAddress, ExitReason)>,
    /// Downs delivered to local owners: (node, owner, monitor ref, reason).
    downs: Vec<(String, ActorId, u64, ExitReason)>,
    /// Values the spawned workers started with.
    started: HashMap<u64, u64>,
}

impl Cluster {
    fn new(names: &[&str]) -> Cluster {
        let mut nodes = Vec::new();
        for n in names {
            let name = NodeId::new(n.to_string());
            let mut broker = SupervisionBrokerInner::new(name.clone());
            broker.set_broker_handle(0);
            let mut workers: RemoteSpawnStore<Worker, Named> = RemoteSpawnStore::new();
            workers.register_worker(SpawnRuntime::Tasks, "test.Counter/v1".to_string(), counter_worker).unwrap();
            nodes.push(Node { name, broker, workers, exited: HashMap::new(), link_watch: Vec::new(), monitor_watch: Vec::new() });
        }
        Cluster { nodes, next_actor: 100, exits: Vec::new(), downs: Vec::new(), started: HashMap::new() }
    }

    fn node_index(&self, name: &str) -> usize {
        self.nodes.iter().position(|n| n.name.name == name).unwrap()
    }

    fn address(&self, node: &str, id: u64) -> ActorAddress {
        ActorAddress::on(NodeId::new(node.to_string()), ActorId::from_raw(id))
    }

    /// Start a local actor on `node` and register it with its broker.
    fn start_actor(&mut self, node: &str) -> ActorAddress {
        let id = self.next_actor;
        self.next_actor += 1;
        let address = self.address(node, id);
        let i = self.node_index(node);
        self.nodes[i].broker.register(&address, ActorId::from_raw(id), id).unwrap();
        address
    }

    /// Send an envelope to `node`'s broker and carry out its step; a reply
    /// is handed back to the sender.
    fn send_to(&mut self, node: &str, envelope: SupervisionEnvelope) -> Option<SupervisionEnvelope> {
        let i = self.node_index(node);
        let exited = self.nodes[i].exited.clone();
        let step = self.nodes[i].broker.apply(envelope, &|h: &u64| exited.get(h).cloned()).unwrap();
        match step {
            BrokerStep::Done => None,
            BrokerStep::Reply(e) => Some(e),
            BrokerStep::Publish(e) => {
                self.publish(e);
                None
            },
            BrokerStep::Spawn { correlation_id, parent, spec, link } => {
                let broker_handle = 0u64;
                let outcome = spawn_local(&self.nodes[i].workers, spec, link, Some(&broker_handle), &|_: &ChildSpec<()>, _: &u64| 0u64);
                let id = self.next_actor;
                self.next_actor += 1;
                let outcome = outcome.map(|value| {
                    self.started.insert(id, value);
                    (ActorId::from_raw(id), id)
                });
                Some(self.nodes[i].broker.finish_spawn(correlation_id, parent, outcome))
            },
            BrokerStep::Signal { actor, signal } => {
                let reason = match signal {
                    SupervisionSignal::Stop => ExitReason::Normal,
                    SupervisionSignal::Shutdown => ExitReason::Shutdown,
                    SupervisionSignal::Kill => ExitReason::Kill,
                };
                self.actor_exited(node, actor.raw(), reason);
                None
            },
            BrokerStep::DeliverExit { to, from, reason } => {
                self.exits.push((node.to_string(), to, from, reason));
                None
            },
            BrokerStep::DeliverDown { owner, monitor_ref, reason } => {
                self.downs.push((node.to_string(), owner, monitor_ref, reason));
                None
            },
            BrokerStep::WatchMonitor { owner, target, monitor_ref } => {
                self.nodes[i].monitor_watch.push((owner, target, monitor_ref));
                None
            },
            BrokerStep::WatchLinks { local } => {
                self.nodes[i].link_watch.push(local);
                None
            },
        }
    }

    /// Publish an envelope: the transport sends it to the node it routes to.
    fn publish(&mut self, envelope: SupervisionEnvelope) {
        let target = match route_node(&envelope.event) {
            Some(Locality::Remote(n)) => n.name,
            other => panic!("unroutable envelope {:?}", other),
        };
        self.send_to(&target, envelope);
    }

    /// A local actor on `node` exited: its broker reports to parents, link
    /// peers and monitors.
    fn actor_exited(&mut self, node: &str, id: u64, reason: ExitReason) {
        let i = self.node_index(node);
        self.nodes[i].exited.insert(id, reason.clone());
        let address = self.address(node, id);
        let mut out = Vec::new();
        if let Some(e) = self.nodes[i].broker.propagate_child_exit(ActorId::from_raw(id), reason.clone()) {
            out.push(e);
        }
        if self.nodes[i].link_watch.iter().any(|a| a.actor_id.raw() == id) {
            out.extend(self.nodes[i].broker.link_exit_fired(&address, &reason));
        }
        let watches: Vec<_> = self.nodes[i].monitor_watch.iter().filter(|w| w.1.actor_id.raw() == id).cloned().collect();
        for (owner, target, monitor_ref) in watches {
            if let Some(e) = self.nodes[i].broker.monitor_fired(owner, target, monitor_ref, reason.clone()) {
                out.push(e);
            }
        }
        for e in out {
            if route_node(&e.event).is_some() {
                self.publish(e);
            }
        }
    }

    /// Ask `placement` to start a counter worker for `parent`, linked to it.
    fn spawn_remote(&mut self, placement: &str, parent: ActorAddress, start: u8) -> ActorAddress {
        let request = spawn_request_envelope(
            7,
            parent.clone(),
            NodeId::new(placement.to_string()),
            RemoteSpawnSpec::Worker { worker_type: "test.Counter/v1".into(), init: vec![start] },
            true,
        );
        let reply = self.send_to(placement, request).unwrap();
        spawn_reply_outcome(7, reply).unwrap()
    }
}

#[test]
fn remote_link_delivers_exit_on_worker_stop() {
    let mut cluster = Cluster::new(&["worker@127.0.0.1", "trap@127.0.0.1"]);
    let trap = cluster.start_actor("trap@127.0.0.1");
    let sup = cluster.start_actor("trap@127.0.0.1");
    let worker_addr = cluster.spawn_remote("worker@127.0.0.1", sup.clone(), 1);

    // The trap links to the remote worker.
    cluster.send_to("worker@127.0.0.1", link_envelope(trap.clone(), worker_addr.clone()));

    // Stop the worker through its remote handle.
    let remote = RemoteChildHandle::new(worker_addr.clone(), sup.clone());
    cluster.publish(remote.stop());

    let to_trap: Vec<_> = cluster.exits.iter().filter(|e| e.1 == trap.actor_id).collect();
    assert_eq!(to_trap.len(), 1);
    assert_eq!(to_trap[0].2, worker_addr);
    assert!(matches!(to_trap[0].3, ExitReason::Normal));
}

#[test]
fn remote_monitor_delivers_down_on_worker_stop() {
    let mut cluster = Cluster::new(&["worker@127.0.0.1", "observer@127.0.0.1"]);
    let observer = cluster.start_actor("observer@127.0.0.1");
    let sup = cluster.start_actor("observer@127.0.0.1");
    let worker_addr = cluster.spawn_remote("worker@127.0.0.1", sup.clone(), 1);

    let i = cluster.node_index("observer@127.0.0.1");
    cluster.nodes[i].broker.register_down_owner(&observer, observer.actor_id.raw()).unwrap();
    let monitor_ref = 41u64;
    cluster.publish(monitor_envelope(observer.clone(), worker_addr.clone(), monitor_ref));

    let remote = RemoteChildHandle::new(worker_addr.clone(), sup);
    cluster.publish(remote.stop());

    assert_eq!(cluster.downs.len(), 1);
    assert_eq!(cluster.downs[0].2, monitor_ref);
    assert!(matches!(cluster.downs[0].3, ExitReason::Normal));
}

#[test]
fn remote_shutdown_signal_via_broker() {
    let mut cluster = Cluster::new(&["sup_server@127.0.0.1", "sup_client@127.0.0.1"]);
    let target = cluster.start_actor("sup_server@127.0.0.1");
    cluster.publish(SupervisionEnvelope {
        correlation_id: 0,
        event: SupervisionEvent::Signal { target: target.clone(), signal: SupervisionSignal::Shutdown },
    });
    let i = cluster.node_index("sup_server@127.0.0.1");
    assert_eq!(cluster.nodes[i].exited.get(&target.actor_id.raw()), Some(&ExitReason::Shutdown));
}

#[test]
fn dynamic_supervisor_spawns_remote_worker() {
    let mut cluster = Cluster::new(&["worker@127.0.0.1", "sup@127.0.0.1"]);
    let sup = cluster.start_actor("sup@127.0.0.1");
    let remote_addr = cluster.spawn_remote("worker@127.0.0.1", sup.clone(), 7);
    assert_eq!(remote_addr.locality, Locality::Remote(NodeId::new("worker@127.0.0.1".to_string())));
    assert_eq!(cluster.started.get(&remote_addr.actor_id.raw()), Some(&7));

    let remote = RemoteChildHandle::new(remote_addr.clone(), sup.clone());
    cluster.publish(remote.shutdown());
    let i = cluster.node_index("worker@127.0.0.1");
    assert_eq!(cluster.nodes[i].exited.get(&remote_addr.actor_id.raw()), Some(&ExitReason::Shutdown));
    // The supervisor hears of its child's exit.
    assert!(cluster.exits.iter().any(|e| e.1 == sup.actor_id && e.2 == remote_addr && e.3 == ExitReason::Shutdown));
}

/// A static supervisor on node `sup@127.0.0.1` whose children run on this
/// node or, for the ids in `remote`, on `worker@127.0.0.1`.
struct StaticRun {
    sup: StaticSupervisor<()>,
    sup_addr: ActorAddress,
    actors: HashMap<String, (u64, bool)>,
    local_starts: u32,
}

impl StaticRun {
    fn start(cluster: &mut Cluster, strategy: SupervisorStrategy, ids: &[(&str, bool)]) -> StaticRun {
        let sup_addr = cluster.start_actor("sup@127.0.0.1");
        let specs = ids.iter().map(|(id, _)| ChildSpec::worker(id.to_string(), (), RestartType::Permanent)).collect();
        let mut run = StaticRun {
            sup: StaticSupervisor::new(strategy, RestartIntensity::default(), specs),
            sup_addr,
            actors: HashMap::new(),
            local_starts: 0,
        };
        for (i, (id, remote)) in ids.iter().enumerate() {
            let actor = run.launch(cluster, id, *remote);
            run.sup.child_started(i, ActorId::from_raw(actor), *remote);
        }
        run
    }

    fn launch(&mut self, cluster: &mut Cluster, id: &str, remote: bool) -> u64 {
        let actor = if remote {
            cluster.spawn_remote("worker@127.0.0.1", self.sup_addr.clone(), 0).actor_id.raw()
        } else {
            self.local_starts += 1;
            let a = cluster.next_actor;
            cluster.next_actor += 1;
            a
        };
        self.actors.insert(id.to_string(), (actor, true));
        actor
    }

    fn restart(&mut self, cluster: &mut Cluster, ids: Vec<String>) {
        for id in ids {
            let remote = self.sup.is_remote(&id);
            let actor = self.launch(cluster, &id, remote);
            self.sup.child_restarted(&id, ActorId::from_raw(actor));
        }
    }

    /// Hand the supervisor the exits delivered to it and carry out its steps.
    fn drive(&mut self, cluster: &mut Cluster) {
        let mine: Vec<_> = cluster.exits.iter().filter(|e| e.1 == self.sup_addr.actor_id).cloned().collect();
        cluster.exits.retain(|e| e.1 != self.sup_addr.actor_id);
        for (_, _, from, reason) in mine {
            for v in self.actors.values_mut() {
                if v.0 == from.actor_id.raw() {
                    v.1 = false;
                }
            }
            match self.sup.on_exit(from.actor_id, &reason, Instant::from_nanos(0)) {
                SupervisorStep::Nothing | SupervisorStep::Stop => {},
                SupervisorStep::Restart(ids) => self.restart(cluster, ids),
                SupervisorStep::Terminate(ids) => {
                    for id in ids {
                        let (actor, alive) = self.actors[&id];
                        if self.sup.is_remote(&id) {
                            if alive {
                                let handle = RemoteChildHandle::new(cluster.address("worker@127.0.0.1", actor), self.sup_addr.clone());
                                cluster.publish(handle.shutdown());
                            }
                            continue;
                        }
                        self.actors.insert(id.clone(), (actor, false));
                        self.sup.child_terminated(ActorId::from_raw(actor));
                    }
                    if let Some(ids) = self.sup.batch_terminated() {
                        self.restart(cluster, ids);
                    }
                },
            }
        }
    }
}

#[test]
fn static_supervisor_remote_worker_restarts_on_exit() {
    let mut cluster = Cluster::new(&["worker@127.0.0.1", "sup@127.0.0.1"]);
    let mut run = StaticRun::start(&mut cluster, SupervisorStrategy::OneForOne, &[("counter", true)]);
    assert_eq!(cluster.started.len(), 1);
    let first_id = run.actors["counter"].0;

    cluster.send_to(
        "worker@127.0.0.1",
        SupervisionEnvelope {
            correlation_id: 0,
            event: SupervisionEvent::Signal { target: cluster.address("worker@127.0.0.1", first_id), signal: SupervisionSignal::Stop },
        },
    );
    run.drive(&mut cluster);

    assert_eq!(cluster.started.len(), 2);
    let second_id = run.actors["counter"].0;
    assert_ne!(second_id, first_id);
}

#[test]
fn static_supervisor_one_for_all_restarts_local_and_remote() {
    let mut cluster = Cluster::new(&["worker@127.0.0.1", "sup@127.0.0.1"]);
    let mut run = StaticRun::start(&mut cluster, SupervisorStrategy::OneForAll, &[("local", false), ("remote", true)]);
    assert_eq!(cluster.started.len(), 1);
    assert_eq!(run.local_starts, 1);
    let remote_id = run.actors["remote"].0;

    cluster.send_to(
        "worker@127.0.0.1",
        SupervisionEnvelope {
            correlation_id: 0,
            event: SupervisionEvent::Signal { target: cluster.address("worker@127.0.0.1", remote_id), signal: SupervisionSignal::Stop },
        },
    );
    run.drive(&mut cluster);

    assert_eq!(cluster.started.len(), 2, "remote child should restart after OneForAll batch");
    assert_eq!(run.local_starts, 2, "local child should restart after OneForAll batch");
}

#[test]
fn static_supervisor_stopped_waits_for_remote_child_exit() {
    let mut cluster = Cluster::new(&["worker@127.0.0.1", "sup@127.0.0.1"]);
    let mut run = StaticRun::start(&mut cluster, SupervisorStrategy::OneForOne, &[("remote", true)]);
    assert_eq!(cluster.started.len(), 1);
    let (remote_id, _) = run.actors["remote"];
    let remote_addr = cluster.address("worker@127.0.0.1", remote_id);

    // The supervisor stops: its remote child is shut down by policy and
    // waited for.
    let plan = run.sup.begin_stop();
    assert_eq!(plan.len(), 1);
    let cluster = RefCell::new(cluster);
    let mut waits: ShutdownWaits<u8> = ShutdownWaits::new();
    let handle = RemoteChildHandle::new(remote_addr.clone(), run.sup_addr.clone());
    let sup_id = run.sup_addr.actor_id;
    let r = shutdown_remote_and_wait_blocking(
        &mut waits,
        &handle,
        plan[0].1,
        1u8,
        &|e: SupervisionEnvelope| cluster.borrow_mut().publish(e),
        &|_: Option<concurrency::time::Duration>| {
            if cluster.borrow().exits.iter().any(|e| e.1 == sup_id && e.2 == remote_addr) {
                Ok(())
            } else {
                Err(RemoteShutdownError::Timeout)
            }
        },
    );
    assert_eq!(r, Ok(()));
    let cluster = cluster.into_inner();
    let i = cluster.node_index("worker@127.0.0.1");
    assert!(cluster.nodes[i].exited.contains_key(&remote_id), "remote child must exit before supervisor join completes");
    assert!(waits.complete_remote_shutdown_wait(remote_id).is_none());
}

#[test]
fn static_supervisor_remote_workers_on_two_nodes_start() {
    let mut cluster = Cluster::new(&["worker_a@127.0.0.1", "worker_b@127.0.0.1", "sup@127.0.0.1"]);
    let sup_addr = cluster.start_actor("sup@127.0.0.1");
    let specs = vec![
        ChildSpec::worker("counter_a".to_string(), (), RestartType::Permanent),
        ChildSpec::worker("counter_b".to_string(), (), RestartType::Permanent),
    ];
    let mut sup = StaticSupervisor::new(SupervisorStrategy::OneForOne, RestartIntensity::default(), specs);
    let a = cluster.spawn_remote("worker_a@127.0.0.1", sup_addr.clone(), 1);
    sup.child_started(0, a.actor_id, true);
    let b = cluster.spawn_remote("worker_b@127.0.0.1", sup_addr.clone(), 10);
    sup.child_started(1, b.actor_id, true);
    assert_eq!(cluster.started.get(&a.actor_id.raw()), Some(&1));
    assert_eq!(cluster.started.get(&b.actor_id.raw()), Some(&10));

    // Worker A stops: only it is restarted, on its node.
    cluster.send_to(
        "worker_a@127.0.0.1",
        SupervisionEnvelope { correlation_id: 0, event: SupervisionEvent::Signal { target: a.clone(), signal: SupervisionSignal::Stop } },
    );
    let delivered: Vec<_> = cluster.exits.iter().filter(|e| e.1 == sup_addr.actor_id).cloned().collect();
    assert_eq!(delivered.len(), 1);
    match sup.on_exit(delivered[0].2.actor_id, &delivered[0].3, Instant::from_nanos(0)) {
        SupervisorStep::Restart(ids) => assert_eq!(ids, vec!["counter_a".to_string()]),
        other => panic!("unexpected {:?}", other),
    }
    let a2 = cluster.spawn_remote("worker_a@127.0.0.1", sup_addr.clone(), 1);
    sup.child_restarted("counter_a", a2.actor_id);
    assert_ne!(a2.actor_id, a.actor_id);
    assert_eq!(sup.logic().child_id_by_actor(b.actor_id), Some("counter_b"));
}
