use concurrency::named_registry::{lookup_handle, register_named, unregister_named, NamedStore};
use concurrency::child_spec::{ChildSpec, RestartIntensity, RestartType, ShutdownType};
use concurrency::pg::PgStore;
use concurrency::typed_pg;
use concurrency::dynamic_supervisor::{
    decimal_string, instance_id, DynamicExitStep, DynamicSupervisorBuilder, DynamicSupervisorError,
    DynamicSupervisorState,
};
use concurrency::error::ExitReason;
use concurrency::ids::ActorId;
use concurrency::time::{Duration, Instant};

fn start(sup: &mut DynamicSupervisorState<(), &'static str>, template: &str, actor: u64) -> Result<String, DynamicSupervisorError> {
    let id = sup.decide_start(template)?;
    sup.add_child(id.clone(), RestartType::Permanent, ShutdownType::Timeout(Duration::from_secs(5)), (), "h", ActorId::from_raw(actor))?;
    Ok(id)
}

#[test]
fn instance_id_includes_template_and_counter() {
    assert_eq!(instance_id("worker", 3), "worker#3");
}

#[test]
fn decimal_text_of_numbers() {
    assert_eq!(decimal_string(0), "0");
    assert_eq!(decimal_string(42), "42");
    assert_eq!(decimal_string(u64::MAX), "18446744073709551615");
}

#[test]
fn start_count_which_and_terminate() {
    let mut sup: DynamicSupervisorState<(), &'static str> = DynamicSupervisorBuilder::new().build();
    let id = start(&mut sup, "w", 100).unwrap();
    assert_eq!(sup.count_children(), 1);
    let children = sup.which_children();
    assert_eq!(children.len(), 1);
    assert!(children[0].id.starts_with("w#"));
    assert_eq!(children[0].actor_id, ActorId::from_raw(100));
    assert_eq!(children[0].shutdown, ShutdownType::Timeout(Duration::from_secs(5)));

    let (child_id, shutdown) = sup.begin_terminate(ActorId::from_raw(100)).unwrap();
    assert_eq!(child_id, id);
    assert_eq!(shutdown, ShutdownType::Timeout(Duration::from_secs(5)));
    assert_eq!(sup.cleanup_child(&child_id), None);
    assert_eq!(sup.count_children(), 0);
}

#[test]
fn max_children_is_enforced() {
    let mut sup: DynamicSupervisorState<(), &'static str> = DynamicSupervisorBuilder::new().max_children(1).build();
    start(&mut sup, "w", 1).unwrap();
    let err = start(&mut sup, "w", 2).unwrap_err();
    assert_eq!(err, DynamicSupervisorError::MaxChildrenExceeded);
}

#[test]
fn terminate_does_not_restart_permanent_child() {
    let mut sup: DynamicSupervisorState<(), &'static str> = DynamicSupervisorBuilder::new().build();
    start(&mut sup, "worker", 7).unwrap();
    let (child_id, _) = sup.begin_terminate(ActorId::from_raw(7)).unwrap();
    let step = sup.on_exit(ActorId::from_raw(7), &ExitReason::Shutdown, Instant::from_nanos(0));
    assert!(matches!(step, DynamicExitStep::Nothing));
    sup.cleanup_child(&child_id);
    assert_eq!(sup.count_children(), 0);
}

#[test]
fn crashed_child_is_restarted() {
    let mut sup: DynamicSupervisorState<(), &'static str> = DynamicSupervisorBuilder::new()
        .intensity(RestartIntensity { max_restarts: 5, within: Duration::from_secs(5) })
        .build();
    let id = start(&mut sup, "worker", 7).unwrap();
    match sup.on_exit(ActorId::from_raw(7), &ExitReason::Panic("first start dies".into()), Instant::from_nanos(0)) {
        DynamicExitStep::Restart(r) => assert_eq!(r, id),
        other => panic!("unexpected {:?}", other),
    }
    sup.restarted(&id, "h2", ActorId::from_raw(8));
    assert_eq!(sup.count_children(), 1);
    assert_eq!(sup.which_children()[0].actor_id, ActorId::from_raw(8));
}

#[test]
fn registry_name_is_registered_and_unregistered() {
    let mut sup: DynamicSupervisorState<(), &'static str> = DynamicSupervisorBuilder::new().build();
    let id = start(&mut sup, "w", 3).unwrap();
    sup.set_reg_name(&id, "dyn-worker".to_string());
    let (child_id, _) = sup.begin_terminate(ActorId::from_raw(3)).unwrap();
    assert_eq!(sup.cleanup_child(&child_id), Some("dyn-worker".to_string()));
}

#[test]
fn stopping_supervisor_refuses_starts_and_plans_shutdown() {
    let mut sup: DynamicSupervisorState<(), &'static str> = DynamicSupervisorBuilder::new().build();
    let a = start(&mut sup, "a", 1).unwrap();
    let b = start(&mut sup, "b", 2).unwrap();
    sup.set_reg_name(&a, "name-a".to_string());
    let plan = sup.begin_stopping();
    assert_eq!(plan.len(), 2);
    assert_eq!(plan[0].0, b);
    assert_eq!(plan[1].0, a);
    assert_eq!(sup.decide_start("c"), Err(DynamicSupervisorError::SupervisorStopping));
    assert_eq!(sup.finish_stopping(), vec!["name-a".to_string()]);
}

#[test]
fn normal_exit_of_transient_child_removes_it() {
    let mut sup: DynamicSupervisorState<(), &'static str> = DynamicSupervisorBuilder::new().build();
    let id = sup.decide_start("t").unwrap();
    sup.add_child(id, RestartType::Transient, ShutdownType::Infinity, (), "h", ActorId::from_raw(4)).unwrap();
    assert!(matches!(sup.on_exit(ActorId::from_raw(4), &ExitReason::Normal, Instant::from_nanos(0)), DynamicExitStep::Removed(None)));
    assert_eq!(sup.count_children(), 0);
    assert!(sup.which_children().is_empty());
}

#[test]
fn terminate_unknown_actor_fails() {
    let mut sup: DynamicSupervisorState<(), &'static str> = DynamicSupervisorBuilder::new().build();
    assert_eq!(sup.begin_terminate(ActorId::from_raw(1)), Err(DynamicSupervisorError::ChildNotFound(ActorId::from_raw(1))));
}

#[test]
fn duplicate_instance_id_is_refused() {
    let mut sup: DynamicSupervisorState<(), &'static str> = DynamicSupervisorBuilder::new().build();
    sup.add_child("w#1".to_string(), RestartType::Permanent, ShutdownType::Infinity, (), "h", ActorId::from_raw(1)).unwrap();
    assert_eq!(sup.decide_start("w"), Err(DynamicSupervisorError::DuplicateChildId("w#1".to_string())));
    assert_eq!(sup.decide_start("w").unwrap(), "w#2");
}

#[test]
fn instance_ids_differ_by_counter() {
    assert_ne!(instance_id("w", 1), instance_id("w", 11));
    assert_eq!(instance_id("", 0), "#0");
}

/// Start a child of `template` as the runtime does: decide, then record the
/// started actor; `starts` counts the actor starts.
fn start_counted(
    sup: &mut DynamicSupervisorState<(), &'static str>,
    template: &str,
    actor: u64,
    starts: &mut usize,
) -> Result<String, DynamicSupervisorError> {
    let id = sup.decide_start(template)?;
    *starts += 1;
    sup.add_child(id.clone(), RestartType::Permanent, ShutdownType::Timeout(Duration::from_secs(5)), (), "h", ActorId::from_raw(actor))?;
    Ok(id)
}

#[test]
fn dynamic_supervisor_integration_dynamic_pool_starts_multiple_children() {
    let mut starts = 0usize;
    let mut sup: DynamicSupervisorState<(), &'static str> = DynamicSupervisorBuilder::new().build();
    for i in 0..3u64 {
        start_counted(&mut sup, "worker", 10 + i, &mut starts).unwrap();
    }
    assert_eq!(sup.count_children(), 3);
    assert_eq!(starts, 3);
    let plan = sup.begin_stopping();
    assert_eq!(plan.len(), 3);
}

#[test]
fn dynamic_supervisor_integration_crash_restarts_single_dynamic_child() {
    let mut starts = 0usize;
    let mut sup: DynamicSupervisorState<(), &'static str> = DynamicSupervisorBuilder::new()
        .intensity(RestartIntensity { max_restarts: 5, within: Duration::from_secs(5) })
        .build();
    let id = start_counted(&mut sup, "flaky", 1, &mut starts).unwrap();
    // The first start dies.
    match sup.on_exit(ActorId::from_raw(1), &ExitReason::Panic("first start dies".into()), Instant::from_nanos(0)) {
        DynamicExitStep::Restart(r) => {
            assert_eq!(r, id);
            starts += 1;
            sup.restarted(&r, "h", ActorId::from_raw(2));
        },
        other => panic!("unexpected {:?}", other),
    }
    assert_eq!(starts, 2);
    assert_eq!(sup.count_children(), 1);
}

#[test]
fn max_children_rejects_extra_starts() {
    let mut starts = 0usize;
    let mut sup: DynamicSupervisorState<(), &'static str> = DynamicSupervisorBuilder::new().max_children(2).build();
    start_counted(&mut sup, "w", 1, &mut starts).unwrap();
    start_counted(&mut sup, "w", 2, &mut starts).unwrap();
    let err = start_counted(&mut sup, "w", 3, &mut starts).unwrap_err();
    assert_eq!(err, DynamicSupervisorError::MaxChildrenExceeded);
}

#[test]
fn registered_child_is_lookup_via_registry() {
    let mut registry: NamedStore<&'static str> = NamedStore::new();
    let mut starts = 0usize;
    let mut sup: DynamicSupervisorState<(), &'static str> = DynamicSupervisorBuilder::new().build();
    let id = start_counted(&mut sup, "w", 21, &mut starts).unwrap();
    register_named(&mut registry, "pool-worker", ActorId::from_raw(21), "h").unwrap();
    sup.set_reg_name(&id, "pool-worker".to_string());

    assert!(lookup_handle(&registry, "pool-worker").is_some());

    let children = sup.which_children();
    let (child_id, _) = sup.begin_terminate(children[0].actor_id).unwrap();
    if let Some(name) = sup.cleanup_child(&child_id) {
        unregister_named(&mut registry, &name);
    }
    assert!(lookup_handle(&registry, "pool-worker").is_none());
}

#[test]
fn dynamic_supervisor_one_for_one_restarts_panicked_child() {
    let mut starts = 0usize;
    let mut sup: DynamicSupervisorState<(), &'static str> = DynamicSupervisorBuilder::new()
        .intensity(RestartIntensity { max_restarts: 5, within: Duration::from_secs(5) })
        .build();
    let id = start_counted(&mut sup, "worker", 1, &mut starts).unwrap();
    // The first start dies; the restarted one keeps running.
    if let DynamicExitStep::Restart(r) = sup.on_exit(ActorId::from_raw(1), &ExitReason::Panic("first start dies".into()), Instant::from_nanos(0)) {
        assert_eq!(r, id);
        starts += 1;
        sup.restarted(&r, "h", ActorId::from_raw(2));
    }
    assert_eq!(starts, 2);
}

#[test]
fn pg_integration_child_spec_with_pg_group_auto_joins() {
    let group = "tasks_pg_auto_join_0";
    let spec = ChildSpec::worker("worker".to_string(), (), RestartType::Permanent).with_pg_group(group.to_string());
    let mut store: PgStore<u64> = PgStore::new();
    let mut sup: DynamicSupervisorState<(), &'static str> = DynamicSupervisorBuilder::new().build();
    let id = sup.decide_start(&spec.id).unwrap();
    let actor = ActorId::from_raw(31);
    // Starting the child joins it to the spec's process group.
    if let Some(pg) = &spec.pg_membership {
        typed_pg::join_scoped(&mut store, &pg.scope, &pg.group, actor, 1u64);
    }
    sup.add_child(id, spec.restart, spec.shutdown, (), "h", actor).unwrap();
    assert_eq!(typed_pg::members(&store, group, &|_: &u64| true).len(), 1);
    let plan = sup.begin_stopping();
    assert_eq!(plan.len(), 1);
}
