use concurrency::pg::PgStore;
use concurrency::typed_pg;
use concurrency::child_spec::{ChildSpec, ChildType, RestartBackoff, RestartType, ShutdownType};
use concurrency::mailbox::MailboxConfig;
use std::cell::RefCell;
use concurrency::error::ActorError;
use concurrency::ids::{ActorAddress, ActorId, NodeId};
use concurrency::pool::{
    select_federated_target, select_local_target, select_member_index, ActorPoolBuilder,
    FederatedTarget, PoolDispatcher, PoolError, PoolStrategy,
};


/// Send to the local member the dispatcher picks, as a runtime does.
fn dispatch(d: &mut PoolDispatcher, depths: &[usize], send: &dyn Fn(usize) -> Result<(), ActorError>) -> Result<(), PoolError> {
    let i = select_local_target(d, depths)?;
    send(i).map_err(PoolError::from)
}

/// Ask the local member the dispatcher picks.
fn call_one<T>(d: &mut PoolDispatcher, depths: &[usize], request: &dyn Fn(usize) -> Result<T, ActorError>) -> Result<T, PoolError> {
    let i = select_local_target(d, depths)?;
    request(i).map_err(PoolError::from)
}

/// Send to the member the dispatcher picks among local and remote ones.
fn dispatch_federated(
    d: &mut PoolDispatcher,
    local: &[usize],
    addresses: &[ActorAddress],
    send_local: &dyn Fn(usize) -> Result<(), ActorError>,
    send_remote: &dyn Fn(&ActorAddress) -> Result<(), ActorError>,
) -> Result<(), PoolError> {
    match select_federated_target(d, local, addresses)? {
        FederatedTarget::Local(i) => send_local(i),
        FederatedTarget::Remote(a) => send_remote(&a),
    }
    .map_err(PoolError::from)
}

/// Ask the member the dispatcher picks among local and remote ones.
fn call_one_federated<T>(
    d: &mut PoolDispatcher,
    local: &[usize],
    addresses: &[ActorAddress],
    request_local: &dyn Fn(usize) -> Result<T, ActorError>,
    request_remote: &dyn Fn(&ActorAddress) -> Result<T, ActorError>,
) -> Result<T, PoolError> {
    match select_federated_target(d, local, addresses)? {
        FederatedTarget::Local(i) => request_local(i),
        FederatedTarget::Remote(a) => request_remote(&a),
    }
    .map_err(PoolError::from)
}

#[test]
fn round_robin_cycles() {
    let mut next = 0usize;
    assert_eq!(select_member_index(3, PoolStrategy::RoundRobin, &[0, 0, 0], &mut next), Some(0));
    assert_eq!(select_member_index(3, PoolStrategy::RoundRobin, &[0, 0, 0], &mut next), Some(1));
    assert_eq!(select_member_index(3, PoolStrategy::RoundRobin, &[0, 0, 0], &mut next), Some(2));
    assert_eq!(select_member_index(3, PoolStrategy::RoundRobin, &[0, 0, 0], &mut next), Some(0));
}

#[test]
fn least_loaded_picks_shallowest() {
    let mut next = 0usize;
    assert_eq!(select_member_index(4, PoolStrategy::LeastLoaded, &[3, 1, 2, 1], &mut next), Some(1));
}

#[test]
fn empty_pool_returns_none() {
    let mut next = 0usize;
    assert_eq!(select_member_index(0, PoolStrategy::RoundRobin, &[], &mut next), None);
}

#[test]
fn round_robin_counter_wraps() {
    let mut next = usize::MAX;
    assert_eq!(select_member_index(2, PoolStrategy::RoundRobin, &[0, 0], &mut next), Some(usize::MAX % 2));
    assert_eq!(next, 0);
}

#[test]
fn dispatcher_defaults_and_scope() {
    let d = PoolDispatcher::new("workers".to_string(), PoolStrategy::LeastLoaded);
    assert_eq!(d.group(), "workers");
    assert_eq!(d.scope(), "default");
    assert_eq!(d.strategy(), PoolStrategy::LeastLoaded);
    let d = d.with_scope("jobs".to_string());
    assert_eq!(d.scope(), "jobs");
}

#[test]
fn dispatch_to_empty_group_has_no_members() {
    let mut d = PoolDispatcher::new("workers".to_string(), PoolStrategy::RoundRobin);
    assert_eq!(select_local_target(&mut d, &[]), Err(PoolError::NoMembers));
    let r = dispatch(&mut d, &[], &|_: usize| Ok(()));
    assert_eq!(r, Err(PoolError::NoMembers));
}

#[test]
fn dispatch_reports_send_failure() {
    let mut d = PoolDispatcher::new("workers".to_string(), PoolStrategy::RoundRobin);
    let r = dispatch(&mut d, &[0, 0], &|i: usize| if i == 0 { Err(ActorError::MailboxFull) } else { Ok(()) });
    assert!(matches!(r, Err(PoolError::Actor(ActorError::MailboxFull))));
    let r = dispatch(&mut d, &[0, 0], &|i: usize| if i == 0 { Err(ActorError::MailboxFull) } else { Ok(()) });
    assert!(r.is_ok());
}

#[test]
fn federated_target_counts_remote_members_as_empty() {
    let mut d = PoolDispatcher::new("workers".to_string(), PoolStrategy::LeastLoaded);
    let remote = ActorAddress::on(NodeId::new("peer@host".to_string()), ActorId::from_raw(4));
    let addrs = vec![ActorAddress::local(ActorId::from_raw(1)), remote.clone()];
    match select_federated_target(&mut d, &[3], &addrs) {
        Ok(FederatedTarget::Remote(a)) => assert_eq!(a, remote),
        other => panic!("unexpected target {:?}", other),
    }
    let mut rr = PoolDispatcher::new("workers".to_string(), PoolStrategy::RoundRobin);
    assert!(matches!(select_federated_target(&mut rr, &[3], &addrs), Ok(FederatedTarget::Local(0))));
    assert!(matches!(select_federated_target(&mut rr, &[], &[]), Err(PoolError::NoMembers)));
}

#[test]
fn pool_builder_settings() {
    let b = ActorPoolBuilder::new("workers".to_string())
        .strategy(PoolStrategy::LeastLoaded)
        .max_children(4)
        .scope("jobs".to_string());
    assert_eq!(b.group(), "workers");
    assert_eq!(b.max_children_limit(), Some(4));
    let d = b.dispatcher();
    assert_eq!(d.group(), "workers");
    assert_eq!(d.scope(), "jobs");
    assert_eq!(d.strategy(), PoolStrategy::LeastLoaded);
    let plain = ActorPoolBuilder::new("w".to_string()).dispatcher();
    assert_eq!(plain.scope(), "default");
    assert_eq!(plain.strategy(), PoolStrategy::RoundRobin);
}

#[test]
fn federated_dispatch_sends_to_remote_member() {
    let mut d = PoolDispatcher::new("workers".to_string(), PoolStrategy::LeastLoaded);
    let remote = ActorAddress::on(NodeId::new("peer@host".to_string()), ActorId::from_raw(4));
    let hit: RefCell<Vec<ActorId>> = RefCell::new(Vec::new());
    let r = dispatch_federated(
        &mut d,
        &[5],
        &[remote.clone()],
        &|_: usize| Ok(()),
        &|a: &ActorAddress| {
            hit.borrow_mut().push(a.actor_id);
            Err(ActorError::RemoteUnreachable)
        },
    );
    assert!(matches!(r, Err(PoolError::Actor(ActorError::RemoteUnreachable))));
    assert_eq!(*hit.borrow(), vec![ActorId::from_raw(4)]);
}

#[test]
fn pool_workers_join_the_pool_group_unless_they_have_one() {
    let b = ActorPoolBuilder::new("workers".to_string());
    let bare = ChildSpec {
        id: "w".to_string(),
        restart: RestartType::Permanent,
        shutdown: ShutdownType::Infinity,
        child_type: ChildType::Worker,
        mailbox: MailboxConfig::unbounded(),
        backoff: RestartBackoff::NoDelay,
        pg_membership: None,
        start: (),
    };
    let joined = b.worker_spec(bare);
    let m = joined.pg_membership.clone().unwrap();
    assert_eq!((m.scope.as_str(), m.group.as_str()), ("default", "workers"));
    let own = joined.with_pg_group_scoped("s".to_string(), "other".to_string());
    let kept = b.worker_spec(own);
    assert_eq!(kept.pg_membership.unwrap().group, "other");
}

#[test]
fn call_one_returns_the_picked_members_reply() {
    let mut d = PoolDispatcher::new("workers".to_string(), PoolStrategy::LeastLoaded);
    let r = call_one(&mut d, &[4, 1, 7], &|i: usize| Ok::<usize, ActorError>(i * 10));
    assert!(matches!(r, Ok(10)));
    let none = call_one(&mut d, &[], &|i: usize| Ok::<usize, ActorError>(i));
    assert_eq!(none, Err(PoolError::NoMembers));
    let failed = call_one(&mut d, &[0], &|_: usize| Err::<usize, ActorError>(ActorError::ActorStopped));
    assert!(matches!(failed, Err(PoolError::Actor(ActorError::ActorStopped))));
}

#[test]
fn call_one_federated_asks_the_remote_member() {
    let mut d = PoolDispatcher::new("workers".to_string(), PoolStrategy::LeastLoaded);
    let remote = ActorAddress::on(NodeId::new("peer@host".to_string()), ActorId::from_raw(9));
    let r = call_one_federated(
        &mut d,
        &[2],
        &[ActorAddress::local(ActorId::from_raw(1)), remote],
        &|_: usize| Ok::<u64, ActorError>(0),
        &|a: &ActorAddress| Ok::<u64, ActorError>(a.actor_id.raw()),
    );
    assert!(matches!(r, Ok(9)));
    let mut rr = PoolDispatcher::new("workers".to_string(), PoolStrategy::RoundRobin);
    let local = call_one_federated(
        &mut rr,
        &[2],
        &[],
        &|i: usize| Ok::<u64, ActorError>(100 + i as u64),
        &|_: &ActorAddress| Ok::<u64, ActorError>(0),
    );
    assert!(matches!(local, Ok(100)));
}

#[test]
fn actor_pool_round_robin_dispatch() {
    let group = "tasks_pool_rr_0";
    let builder = ActorPoolBuilder::new(group.to_string());
    let values = RefCell::new(Vec::new());
    let mut store: PgStore<usize> = PgStore::new();
    for i in 0..3usize {
        let spec = builder.worker_spec(ChildSpec {
            id: "worker".to_string(),
            restart: RestartType::Permanent,
            shutdown: ShutdownType::Timeout(concurrency::time::Duration::from_millis(5000)),
            child_type: ChildType::Worker,
            mailbox: MailboxConfig::bounded(8),
            backoff: RestartBackoff::NoDelay,
            pg_membership: None,
            start: (),
        });
        // The started worker joins the pool's group.
        let pg = spec.pg_membership.unwrap();
        values.borrow_mut().push(i as u32 * 10);
        typed_pg::join_scoped(&mut store, &pg.scope, &pg.group, ActorId::from_raw(i as u64 + 1), i);
    }
    let members = typed_pg::members(&store, group, &|_: &usize| true);
    assert_eq!(members.len(), 3);

    let mut d = PoolDispatcher::new(group.to_string(), PoolStrategy::RoundRobin);
    let depths = [0usize, 0, 0];
    let work = |i: usize| -> Result<u32, ActorError> {
        let mut v = values.borrow_mut();
        v[members[i]] += 1;
        Ok(v[members[i]])
    };
    let r1 = call_one(&mut d, &depths, &work).unwrap();
    let r2 = call_one(&mut d, &depths, &work).unwrap();
    let r3 = call_one(&mut d, &depths, &work).unwrap();
    let mut results = [r1, r2, r3];
    results.sort();
    assert_eq!(results, [1, 11, 21]);

    assert!(dispatch(&mut d, &depths, &|i: usize| work(i).map(|_| ())).is_ok());
}

#[test]
fn empty_pool_returns_no_members() {
    let mut d = PoolDispatcher::new("tasks_pool_empty_0".to_string(), PoolStrategy::RoundRobin);
    assert_eq!(dispatch(&mut d, &[], &|_: usize| Ok(())).unwrap_err(), PoolError::NoMembers);
}

#[test]
fn actor_pool_call_one() {
    let group = "threads_pool_0";
    let builder = ActorPoolBuilder::new(group.to_string());
    let values = RefCell::new(Vec::new());
    let mut store: PgStore<usize> = PgStore::new();
    for i in 0..2usize {
        let spec = builder.worker_spec(
            ChildSpec::worker("worker".to_string(), (), RestartType::Permanent).with_mailbox(MailboxConfig::bounded(4)),
        );
        let pg = spec.pg_membership.unwrap();
        values.borrow_mut().push(i as u32);
        typed_pg::join_scoped(&mut store, &pg.scope, &pg.group, ActorId::from_raw(i as u64 + 1), i);
    }
    let members = typed_pg::members(&store, group, &|_: &usize| true);
    let mut d = PoolDispatcher::new(group.to_string(), PoolStrategy::RoundRobin);
    let work = |i: usize| -> Result<u32, ActorError> {
        let mut v = values.borrow_mut();
        v[members[i]] += 1;
        Ok(v[members[i]])
    };
    let r1 = call_one(&mut d, &[0, 0], &work).unwrap();
    let r2 = call_one(&mut d, &[0, 0], &work).unwrap();
    let mut results = [r1, r2];
    results.sort();
    assert_eq!(results, [1, 2]);
    assert!(dispatch(&mut d, &[0, 0], &|i: usize| work(i).map(|_| ())).is_ok());
}
