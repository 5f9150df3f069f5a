use concurrency::error::ActorError;
use concurrency::ids::{ActorAddress, ActorId};
use concurrency::pg::{get_members, join, join_scoped, member_addresses, remove_actor, which_groups, which_scopes, PgError, PgStore};
use concurrency::typed_pg;
use std::cell::RefCell;

const DEFAULT_SCOPE: &str = "default";

fn alive(_: ActorId) -> bool {
    true
}

fn live(_: &usize) -> bool {
    true
}

/// Counter actors: a typed member's value is its index in `values`; a tick
/// increments the counter and replies with the new value.
fn tick(values: &RefCell<Vec<u32>>, member: usize) -> u32 {
    let mut v = values.borrow_mut();
    v[member] += 1;
    v[member]
}


/// Send once to every live typed member of `group` in the default scope, as
/// a runtime does with the library's targets and report.
fn cast<T: Clone>(
    store: &PgStore<T>,
    group: &str,
    is_live: &dyn Fn(&T) -> bool,
    send: &dyn Fn(&T) -> Result<(), ActorError>,
) -> concurrency::pg::PgSendReport {
    let targets = typed_pg::live_targets_scoped(store, DEFAULT_SCOPE, group, &is_live);
    let sent: Vec<Result<(), ActorError>> = targets.iter().map(|(_, t)| send(t)).collect();
    let mut report = concurrency::pg::PgSendReport::default();
    typed_pg::record_sends(&mut report, &targets, sent);
    report
}

/// Ask every live typed member of `group` in the default scope once.
fn call<T: Clone, X>(
    store: &PgStore<T>,
    group: &str,
    is_live: &dyn Fn(&T) -> bool,
    request: &dyn Fn(&T) -> Result<X, ActorError>,
) -> concurrency::pg::PgCallReport<X> {
    let targets = typed_pg::live_targets_scoped(store, DEFAULT_SCOPE, group, &is_live);
    let replies: Vec<Result<X, ActorError>> = targets.iter().map(|(_, t)| request(t)).collect();
    let mut report = concurrency::pg::PgCallReport { ok: Vec::new(), failed: Vec::new() };
    typed_pg::record_replies(&mut report, &targets, replies);
    report
}

#[test]
fn pg_integration_pg_join_members_and_broadcast() {
    let group = "tasks_pg_join_0";
    let counters = RefCell::new(vec![0u32, 10u32]);
    let mut store: PgStore<usize> = PgStore::new();
    typed_pg::join(&mut store, group, ActorId::from_raw(1), 0);
    typed_pg::join(&mut store, group, ActorId::from_raw(2), 1);

    let members = typed_pg::members(&store, group, &live);
    assert_eq!(members.len(), 2);

    let mut sum = 0u32;
    for member in &members {
        sum += tick(&counters, *member);
    }
    assert_eq!(sum, 12); // 1 + 11
}

#[test]
fn pg_integration_pg_auto_leave_on_actor_exit() {
    let group = "tasks_pg_auto_leave_0";
    let mut store: PgStore<usize> = PgStore::new();
    let id = ActorId::from_raw(4);
    typed_pg::join(&mut store, group, id, 0);
    assert_eq!(typed_pg::members(&store, group, &live).len(), 1);

    // The actor stops: its memberships are removed.
    remove_actor(&mut store, id);

    assert_eq!(typed_pg::members(&store, group, &live).len(), 0);
    assert!(get_members(&store, group).iter().all(|h| *h != id));
}

#[test]
fn pg_integration_pg_leave_refcount_and_errors() {
    let group = "tasks_pg_refcount_0".to_string();
    let mut store: PgStore<usize> = PgStore::new();
    let id = ActorId::from_raw(6);
    typed_pg::join(&mut store, &group, id, 0);
    typed_pg::join(&mut store, &group, id, 0);

    typed_pg::leave(&mut store, &group, id).unwrap();
    assert_eq!(typed_pg::members(&store, &group, &live).len(), 1);

    typed_pg::leave(&mut store, &group, id).unwrap();
    assert!(typed_pg::members(&store, &group, &live).is_empty());

    let err = typed_pg::leave(&mut store, &group, id).unwrap_err();
    assert_eq!(err, PgError::NotJoined(id, group, DEFAULT_SCOPE.to_string()));
}

#[test]
fn pg_integration_pg_child_handle_membership() {
    let group = "tasks_pg_handle_0";
    let mut store: PgStore<usize> = PgStore::new();
    let handle = ActorId::from_raw(8);
    typed_pg::join(&mut store, group, handle, 0);

    let members: Vec<ActorId> = get_members(&store, group);
    assert!(members.iter().any(|h| *h == handle));
}

#[test]
fn pg_integration_pg_which_groups() {
    let unique = "tasks_pg_which_0".to_string();
    let mut store: PgStore<usize> = PgStore::new();
    let counter = ActorId::from_raw(3);
    typed_pg::join(&mut store, &unique, counter, 0);
    join(&mut store, &unique, counter);
    assert!(which_groups(&store).contains(&unique));
}

#[test]
fn pg_scoped_membership_isolated() {
    let group = "tasks_pg_scope_0";
    let scope_a = "scope_a_1".to_string();
    let scope_b = "scope_b_2";
    let mut store: PgStore<usize> = PgStore::new();
    typed_pg::join(&mut store, group, ActorId::from_raw(1), 0);

    let member = typed_pg::members(&store, group, &live)[0];
    typed_pg::leave(&mut store, group, ActorId::from_raw(1)).unwrap();
    typed_pg::join_scoped(&mut store, &scope_a, group, ActorId::from_raw(1), member);

    assert!(typed_pg::members(&store, group, &live).is_empty());
    assert_eq!(typed_pg::members_scoped(&store, &scope_a, group, &live).len(), 1);
    assert!(typed_pg::members_scoped(&store, scope_b, group, &live).is_empty());
    assert!(which_scopes(&store).contains(&scope_a));
}

#[test]
fn pg_integration_pg_cast_and_call() {
    let group = "tasks_pg_cast_0";
    let counters = RefCell::new(vec![0u32, 10u32]);
    let mut store: PgStore<usize> = PgStore::new();
    typed_pg::join(&mut store, group, ActorId::from_raw(1), 0);
    typed_pg::join(&mut store, group, ActorId::from_raw(2), 1);

    let cast = cast(&store, group, &live, &|m: &usize| {
        tick(&counters, *m);
        Ok::<(), ActorError>(())
    });
    assert_eq!(cast.delivered, 2);
    assert!(cast.failed.is_empty());

    let call = call(&store, group, &live, &|m: &usize| Ok::<u32, ActorError>(tick(&counters, *m)));
    assert_eq!(call.ok.len(), 2);
    assert!(call.failed.is_empty());
    let sum: u32 = call.ok.iter().map(|(_, v)| *v).sum();
    assert_eq!(sum, 14);
}

#[test]
fn member_key_matches_local_address() {
    let group = "pg_addr_0";
    let mut store: PgStore<usize> = PgStore::new();
    let id = ActorId::from_raw(12);
    join(&mut store, group, id);

    let addr = ActorAddress::local(id);
    assert!(member_addresses(&mut store, group, &alive).contains(&addr));
}

#[test]
fn leave_of_one_scope_keeps_the_other() {
    let mut store: PgStore<usize> = PgStore::new();
    let id = ActorId::from_raw(2);
    join_scoped(&mut store, "a", "g", id);
    join_scoped(&mut store, "b", "g", id);
    typed_pg::leave_scoped(&mut store, "a", "g", id).unwrap();
    assert!(which_scopes(&store).contains(&"b".to_string()));
    assert!(!which_scopes(&store).contains(&"a".to_string()));
}
