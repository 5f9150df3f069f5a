use concurrency::error::ActorError;
use concurrency::ids::{ActorAddress, ActorId, NodeId};
use concurrency::pg::{
    apply_remote_pg_event, get_local_members, get_members, get_members_scoped, join, join_scoped, leave, leave_scoped,
    member_addresses, remove_actor, typed_join, typed_members, which_groups, which_scopes, PgError,
    PgEvent, PgStore,
};
use concurrency::typed_pg;

const DEFAULT_SCOPE: &str = "default";

fn alive(_: ActorId) -> bool {
    true
}


/// Send once to every live typed member of `group` in the default scope, as
/// a runtime does with the library's targets and report.
fn cast<T: Clone>(
    store: &PgStore<T>,
    group: &str,
    is_live: &dyn Fn(&T) -> bool,
    send: &dyn Fn(&T) -> Result<(), ActorError>,
) -> concurrency::pg::PgSendReport {
    let targets = typed_pg::live_targets_scoped(store, DEFAULT_SCOPE, group, &is_live);
    let sent: Vec<Result<(), ActorError>> = targets.iter().map(|(_, t)| send(t)).collect();
    let mut report = concurrency::pg::PgSendReport::default();
    typed_pg::record_sends(&mut report, &targets, sent);
    report
}

/// Ask every live typed member of `group` in the default scope once.
fn call<T: Clone, X>(
    store: &PgStore<T>,
    group: &str,
    is_live: &dyn Fn(&T) -> bool,
    request: &dyn Fn(&T) -> Result<X, ActorError>,
) -> concurrency::pg::PgCallReport<X> {
    let targets = typed_pg::live_targets_scoped(store, DEFAULT_SCOPE, group, &is_live);
    let replies: Vec<Result<X, ActorError>> = targets.iter().map(|(_, t)| request(t)).collect();
    let mut report = concurrency::pg::PgCallReport { ok: Vec::new(), failed: Vec::new() };
    typed_pg::record_replies(&mut report, &targets, replies);
    report
}

/// Send once to every address of `addrs` on another node.
fn cast_remote(addrs: &Vec<ActorAddress>, send_remote: &dyn Fn(&ActorAddress) -> Result<(), ActorError>, report: &mut concurrency::pg::PgSendReport) {
    let targets = typed_pg::remote_targets(addrs);
    let sent: Vec<Result<(), ActorError>> = targets.iter().map(|a| send_remote(a)).collect();
    typed_pg::record_remote_sends(report, &targets, sent);
}

/// Ask every address of `addrs` on another node once.
fn call_remote<X>(addrs: &Vec<ActorAddress>, request_remote: &dyn Fn(&ActorAddress) -> Result<X, ActorError>, report: &mut concurrency::pg::PgCallReport<X>) {
    let targets = typed_pg::remote_targets(addrs);
    let replies: Vec<Result<X, ActorError>> = targets.iter().map(|a| request_remote(a)).collect();
    typed_pg::record_remote_replies(report, &targets, replies);
}

/// Send to the live local members, then to the members on other nodes.
fn cast_federated<T: Clone>(
    store: &mut PgStore<T>,
    group: &str,
    is_live: &dyn Fn(&T) -> bool,
    send: &dyn Fn(&T) -> Result<(), ActorError>,
    is_alive: &dyn Fn(ActorId) -> bool,
    send_remote: &dyn Fn(&ActorAddress) -> Result<(), ActorError>,
) -> concurrency::pg::PgSendReport {
    let mut report = cast(store, group, is_live, send);
    let addrs = concurrency::pg::member_addresses_scoped(store, DEFAULT_SCOPE, group, &is_alive);
    cast_remote(&addrs, send_remote, &mut report);
    report
}

/// Ask the live local members, then the members on other nodes.
fn call_federated<T: Clone, X>(
    store: &mut PgStore<T>,
    group: &str,
    is_live: &dyn Fn(&T) -> bool,
    request: &dyn Fn(&T) -> Result<X, ActorError>,
    is_alive: &dyn Fn(ActorId) -> bool,
    request_remote: &dyn Fn(&ActorAddress) -> Result<X, ActorError>,
) -> concurrency::pg::PgCallReport<X> {
    let mut report = call(store, group, is_live, request);
    let addrs = concurrency::pg::member_addresses_scoped(store, DEFAULT_SCOPE, group, &is_alive);
    call_remote(&addrs, request_remote, &mut report);
    report
}

#[test]
fn join_and_get_members() {
    let mut store: PgStore<u32> = PgStore::new();
    let h1 = ActorId::from_raw(1);
    let h2 = ActorId::from_raw(2);
    join(&mut store, "pg_join", h1);
    join(&mut store, "pg_join", h2);

    let members = get_members(&store, "pg_join");
    assert_eq!(members.len(), 2);
    assert!(members.iter().any(|h| *h == h1));
    assert!(members.iter().any(|h| *h == h2));
}

#[test]
fn scoped_groups_are_isolated() {
    let mut store: PgStore<u32> = PgStore::new();
    let h1 = ActorId::from_raw(1);
    let h2 = ActorId::from_raw(2);
    join_scoped(&mut store, "scope_a", "grp", h1);
    join_scoped(&mut store, "scope_b", "grp", h2);

    assert_eq!(get_members_scoped(&store, "scope_a", "grp").len(), 1);
    assert_eq!(get_members_scoped(&store, "scope_b", "grp").len(), 1);
    assert!(get_members(&store, "grp").is_empty());
}

#[test]
fn leave_decrements_refcount() {
    let mut store: PgStore<u32> = PgStore::new();
    let handle = ActorId::from_raw(5);
    join(&mut store, "pg_refcount", handle);
    join(&mut store, "pg_refcount", handle);

    leave(&mut store, "pg_refcount", handle).unwrap();
    assert_eq!(get_members(&store, "pg_refcount").len(), 1);

    leave(&mut store, "pg_refcount", handle).unwrap();
    assert!(get_members(&store, "pg_refcount").is_empty());
    assert!(!which_groups(&store).contains(&"pg_refcount".to_string()));
}

#[test]
fn leave_not_joined_returns_error() {
    let mut store: PgStore<u32> = PgStore::new();
    let handle = ActorId::from_raw(9);
    let err = leave(&mut store, "pg_not_joined", handle).unwrap_err();
    assert_eq!(
        err,
        PgError::NotJoined(handle, "pg_not_joined".to_string(), DEFAULT_SCOPE.to_string())
    );
}

#[test]
fn remove_actor_clears_all_groups() {
    let mut store: PgStore<u32> = PgStore::new();
    let handle = ActorId::from_raw(3);
    join(&mut store, "pg_rm1", handle);
    join(&mut store, "pg_rm2", handle);

    remove_actor(&mut store, handle);

    assert!(get_members(&store, "pg_rm1").is_empty());
    assert!(get_members(&store, "pg_rm2").is_empty());
}

#[test]
fn typed_members_roundtrip() {
    let mut store: PgStore<u32> = PgStore::new();
    typed_join(&mut store, DEFAULT_SCOPE, "pg_typed", ActorId::from_raw(1), 42u32);
    typed_join(&mut store, DEFAULT_SCOPE, "pg_typed", ActorId::from_raw(2), 99u32);
    let values: Vec<u32> = typed_members(&store, DEFAULT_SCOPE, "pg_typed");
    assert_eq!(values.len(), 2);
    assert!(values.contains(&42));
    assert!(values.contains(&99));
}

#[test]
fn which_groups_lists_active_groups() {
    let mut store: PgStore<u32> = PgStore::new();
    join(&mut store, "pg_which1", ActorId::from_raw(1));
    join(&mut store, "pg_which2", ActorId::from_raw(2));
    let groups = which_groups(&store);
    assert!(groups.contains(&"pg_which1".to_string()));
    assert!(groups.contains(&"pg_which2".to_string()));
}

#[test]
fn which_scopes_lists_active_scopes() {
    let mut store: PgStore<u32> = PgStore::new();
    join_scoped(&mut store, "pg_scope_list", "pg_grp", ActorId::from_raw(1));
    assert!(which_scopes(&store).contains(&"pg_scope_list".to_string()));
}

#[test]
fn dead_members_are_pruned_on_read() {
    let mut store: PgStore<u32> = PgStore::new();
    join(&mut store, "g", ActorId::from_raw(1));
    join(&mut store, "g", ActorId::from_raw(2));
    // Dead members are listed until pruned.
    assert_eq!(get_members(&store, "g"), vec![ActorId::from_raw(1), ActorId::from_raw(2)]);
    let members = get_local_members(&mut store, "g", &|a: ActorId| a.raw() != 1);
    assert_eq!(members, vec![ActorId::from_raw(2)]);
    assert_eq!(get_members(&store, "g"), vec![ActorId::from_raw(2)]);
}

#[test]
fn remote_join_is_listed_among_addresses() {
    let mut store: PgStore<u32> = PgStore::new();
    join(&mut store, "g", ActorId::from_raw(1));
    let remote = ActorAddress::on(NodeId::new("peer@host".to_string()), ActorId::from_raw(7));
    apply_remote_pg_event(
        &mut store,
        PgEvent::Join { scope: DEFAULT_SCOPE.to_string(), group: "g".to_string(), address: remote.clone() },
    );
    let addrs = member_addresses(&mut store, "g", &alive);
    assert_eq!(addrs.len(), 2);
    assert!(addrs[0].is_local());
    assert_eq!(addrs[1], remote);
}

#[test]
fn typed_cast_counts_deliveries_and_failures() {
    let mut store: PgStore<u32> = PgStore::new();
    typed_pg::join(&mut store, "w", ActorId::from_raw(1), 10u32);
    typed_pg::join(&mut store, "w", ActorId::from_raw(2), 20u32);
    typed_pg::join(&mut store, "w", ActorId::from_raw(3), 30u32);
    let report = cast(
        &store,
        "w",
        &|v: &u32| *v != 30,
        &|v: &u32| if *v == 20 { Err(ActorError::MailboxFull) } else { Ok(()) },
    );
    assert_eq!(report.delivered, 1);
    assert_eq!(report.failed, vec![(ActorId::from_raw(2), ActorError::MailboxFull)]);
}

#[test]
fn federated_cast_reaches_remote_members() {
    let mut store: PgStore<u32> = PgStore::new();
    typed_pg::join(&mut store, "w", ActorId::from_raw(1), 10u32);
    let remote = ActorAddress::on(NodeId::new("peer@host".to_string()), ActorId::from_raw(8));
    apply_remote_pg_event(
        &mut store,
        PgEvent::Join { scope: DEFAULT_SCOPE.to_string(), group: "w".to_string(), address: remote },
    );
    let report = cast_federated(
        &mut store,
        "w",
        &|_: &u32| true,
        &|_: &u32| Ok(()),
        &alive,
        &|_: &ActorAddress| Err(ActorError::RemoteUnreachable),
    );
    assert_eq!(report.delivered, 1);
    assert_eq!(report.failed, vec![(ActorId::from_raw(8), ActorError::RemoteUnreachable)]);
}

#[test]
fn leave_scoped_of_other_scope_fails() {
    let mut store: PgStore<u32> = PgStore::new();
    join_scoped(&mut store, "a", "g", ActorId::from_raw(1));
    assert!(leave_scoped(&mut store, "b", "g", ActorId::from_raw(1)).is_err());
    assert!(leave_scoped(&mut store, "a", "g", ActorId::from_raw(1)).is_ok());
}

#[test]
fn federated_call_collects_local_and_remote_replies() {
    let mut store: PgStore<u32> = PgStore::new();
    typed_pg::join(&mut store, "w", ActorId::from_raw(1), 10u32);
    typed_pg::join(&mut store, "w", ActorId::from_raw(2), 20u32);
    let remote = ActorAddress::on(NodeId::new("peer@host".to_string()), ActorId::from_raw(8));
    apply_remote_pg_event(
        &mut store,
        PgEvent::Join { scope: DEFAULT_SCOPE.to_string(), group: "w".to_string(), address: remote },
    );
    let report = call_federated(
        &mut store,
        "w",
        &|_: &u32| true,
        &|v: &u32| if *v == 20 { Err(ActorError::MailboxFull) } else { Ok(*v + 1) },
        &alive,
        &|a: &ActorAddress| Ok(a.actor_id.raw() as u32),
    );
    assert_eq!(report.ok, vec![(ActorId::from_raw(1), 11), (ActorId::from_raw(8), 8)]);
    assert_eq!(report.failed, vec![(ActorId::from_raw(2), ActorError::MailboxFull)]);
}

#[test]
fn remote_call_skips_local_addresses() {
    let addrs = vec![
        ActorAddress::local(ActorId::from_raw(1)),
        ActorAddress::on(NodeId::new("peer@host".to_string()), ActorId::from_raw(5)),
    ];
    let mut report = concurrency::pg::PgCallReport { ok: Vec::new(), failed: Vec::new() };
    call_remote(&addrs, &|_: &ActorAddress| Err::<u32, ActorError>(ActorError::RemoteUnreachable), &mut report);
    assert!(report.ok.is_empty());
    assert_eq!(report.failed, vec![(ActorId::from_raw(5), ActorError::RemoteUnreachable)]);
}
