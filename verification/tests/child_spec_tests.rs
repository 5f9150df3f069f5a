use concurrency::child_spec::{
    after_child_wait, begin_child_shutdown, default_worker_shutdown, ChildShutdownStep, ChildSpec, ChildType, shutdown_plan, should_restart, RestartBackoff,
    RestartIntensity, RestartType, ShutdownCommand, ShutdownType, ShutdownWait,
};
use concurrency::error::ExitReason;
use concurrency::time::Duration;
use std::cell::RefCell;

#[test]
fn default_worker_shutdown_is_five_second_timeout() {
    assert_eq!(default_worker_shutdown(), ShutdownType::Timeout(Duration::from_secs(5)));
}

#[test]
fn permanent_restarts_on_normal_and_abnormal_but_not_shutdown() {
    assert!(should_restart(RestartType::Permanent, &ExitReason::Normal));
    assert!(should_restart(RestartType::Permanent, &ExitReason::Panic("x".into())));
    assert!(!should_restart(RestartType::Permanent, &ExitReason::Shutdown));
}

#[test]
fn transient_restarts_only_on_abnormal() {
    assert!(!should_restart(RestartType::Transient, &ExitReason::Normal));
    assert!(!should_restart(RestartType::Transient, &ExitReason::Shutdown));
    assert!(should_restart(RestartType::Transient, &ExitReason::Panic("x".into())));
    assert!(should_restart(RestartType::Transient, &ExitReason::Kill));
}

#[test]
fn temporary_never_restarts() {
    for reason in [
        ExitReason::Normal,
        ExitReason::Shutdown,
        ExitReason::Panic("x".into()),
        ExitReason::Kill,
    ] {
        assert!(!should_restart(RestartType::Temporary, &reason));
    }
}

#[test]
fn backoff_none_is_zero() {
    assert_eq!(RestartBackoff::NoDelay.delay_for_attempt(1), Duration::zero());
}

#[test]
fn backoff_fixed_is_constant() {
    let policy = RestartBackoff::Fixed(Duration::from_millis(50));
    assert_eq!(policy.delay_for_attempt(1), Duration::from_millis(50));
    assert_eq!(policy.delay_for_attempt(5), Duration::from_millis(50));
}

#[test]
fn backoff_exponential_doubles_and_caps() {
    let policy = RestartBackoff::Exponential {
        base: Duration::from_millis(10),
        max: Duration::from_millis(100),
    };
    assert_eq!(policy.delay_for_attempt(1), Duration::from_millis(10));
    assert_eq!(policy.delay_for_attempt(2), Duration::from_millis(20));
    assert_eq!(policy.delay_for_attempt(3), Duration::from_millis(40));
    assert_eq!(policy.delay_for_attempt(4), Duration::from_millis(80));
    assert_eq!(policy.delay_for_attempt(5), Duration::from_millis(100));
    assert_eq!(policy.delay_for_attempt(10), Duration::from_millis(100));
}

#[test]
fn backoff_exponential_saturates_on_huge_base() {
    let policy = RestartBackoff::Exponential {
        base: Duration::from_secs(u64::MAX),
        max: Duration::from_secs(u64::MAX),
    };
    assert_eq!(policy.delay_for_attempt(30), Duration::from_secs(u64::MAX));
    assert_eq!(policy.delay_for_attempt(0), Duration::from_secs(u64::MAX));
}

#[test]
fn restart_intensity_default_is_three_in_five_seconds() {
    let i = RestartIntensity::default();
    assert_eq!(i.max_restarts, 3);
    assert_eq!(i.within, Duration::from_secs(5));
}

#[test]
fn shutdown_plan_by_policy() {
    assert_eq!(shutdown_plan(ShutdownType::BrutalKill), (ShutdownCommand::Kill, ShutdownWait::Unbounded));
    assert_eq!(shutdown_plan(ShutdownType::Infinity), (ShutdownCommand::Shutdown, ShutdownWait::Unbounded));
    let d = Duration::from_millis(20);
    assert_eq!(shutdown_plan(ShutdownType::Timeout(d)), (ShutdownCommand::Shutdown, ShutdownWait::Bounded(d)));
}

struct FakeChild {
    exited: Option<ExitReason>,
    sent: RefCell<Vec<ShutdownCommand>>,
    reply_bounded: Option<ExitReason>,
    reply_unbounded: ExitReason,
}

/// Drive a child's shutdown through the library's steps, as a runtime does.
fn run_shutdown(child: &FakeChild, shutdown: ShutdownType) -> ExitReason {
    let wait = |w: ShutdownWait| match w {
        ShutdownWait::Unbounded => Some(child.reply_unbounded.clone()),
        ShutdownWait::Bounded(_) => child.reply_bounded.clone(),
    };
    let mut step = begin_child_shutdown(child.exited.clone(), shutdown);
    let mut waits = 0;
    loop {
        match step {
            ChildShutdownStep::Exited(reason) => return reason,
            ChildShutdownStep::Request(command, w) => {
                child.sent.borrow_mut().push(command);
                let waited = wait(w);
                waits += 1;
                step = match (waited, w) {
                    (Some(reason), _) => ChildShutdownStep::Exited(reason),
                    (None, ShutdownWait::Bounded(_)) if waits == 1 => after_child_wait(None),
                    (None, _) => panic!("an unbounded wait ends with the exit"),
                };
            }
        }
    }
}

#[test]
fn shutdown_child_blocking_infinity_waits_for_shutdown_reason() {
    let child = FakeChild {
        exited: None,
        sent: RefCell::new(Vec::new()),
        reply_bounded: None,
        reply_unbounded: ExitReason::Shutdown,
    };
    assert_eq!(run_shutdown(&child, ShutdownType::Infinity), ExitReason::Shutdown);
    assert_eq!(*child.sent.borrow(), vec![ShutdownCommand::Shutdown]);
}

#[test]
fn shutdown_child_blocking_timeout_escalates_to_kill() {
    let child = FakeChild {
        exited: None,
        sent: RefCell::new(Vec::new()),
        reply_bounded: None,
        reply_unbounded: ExitReason::Kill,
    };
    let reason = run_shutdown(&child, ShutdownType::Timeout(Duration::from_millis(20)));
    assert_eq!(reason, ExitReason::Kill);
    assert_eq!(*child.sent.borrow(), vec![ShutdownCommand::Shutdown, ShutdownCommand::Kill]);
}

#[test]
fn shutdown_child_blocking_brutal_kill() {
    let child = FakeChild {
        exited: None,
        sent: RefCell::new(Vec::new()),
        reply_bounded: None,
        reply_unbounded: ExitReason::Kill,
    };
    assert_eq!(run_shutdown(&child, ShutdownType::BrutalKill), ExitReason::Kill);
    assert_eq!(*child.sent.borrow(), vec![ShutdownCommand::Kill]);
}

#[test]
fn shutdown_child_blocking_timeout_in_time_does_not_kill() {
    let child = FakeChild {
        exited: None,
        sent: RefCell::new(Vec::new()),
        reply_bounded: Some(ExitReason::Shutdown),
        reply_unbounded: ExitReason::Kill,
    };
    let reason = run_shutdown(&child, ShutdownType::Timeout(Duration::from_millis(20)));
    assert_eq!(reason, ExitReason::Shutdown);
    assert_eq!(*child.sent.borrow(), vec![ShutdownCommand::Shutdown]);
}

#[test]
fn shutdown_child_blocking_already_exited_sends_nothing() {
    let child = FakeChild {
        exited: Some(ExitReason::Normal),
        sent: RefCell::new(Vec::new()),
        reply_bounded: None,
        reply_unbounded: ExitReason::Kill,
    };
    assert_eq!(run_shutdown(&child, ShutdownType::Infinity), ExitReason::Normal);
    assert!(child.sent.borrow().is_empty());
}

#[test]
fn child_spec_clone_keeps_every_field() {
    let spec = ChildSpec::supervisor("sup".to_string(), 7u8, RestartType::Transient)
        .with_pg_group_scoped("s".to_string(), "g".to_string());
    let copy = spec.clone();
    assert_eq!(copy.id, "sup");
    assert_eq!(copy.restart, RestartType::Transient);
    assert_eq!(copy.shutdown, ShutdownType::Infinity);
    assert_eq!(copy.child_type, ChildType::Supervisor);
    assert_eq!(copy.start, 7u8);
    assert_eq!(copy.pg_membership, spec.pg_membership);
}

#[test]
fn exponential_backoff_keeps_doubling_until_the_cap() {
    let b = RestartBackoff::Exponential { base: Duration::from_millis(1), max: Duration::from_secs(3600) };
    assert_eq!(b.delay_for_attempt(21), Duration::from_millis(1_048_576));
    assert_eq!(b.delay_for_attempt(22), Duration::from_millis(2_097_152));
    assert_eq!(b.delay_for_attempt(23), Duration::from_secs(3600));
    assert_eq!(b.delay_for_attempt(u32::MAX), Duration::from_secs(3600));
    let zero = RestartBackoff::Exponential { base: Duration::zero(), max: Duration::from_secs(1) };
    assert_eq!(zero.delay_for_attempt(u32::MAX), Duration::zero());
}

#[test]
fn child_shutdown_steps_leave_an_exited_child_alone_and_escalate_a_timeout() {
    assert_eq!(
        begin_child_shutdown(Some(ExitReason::Normal), ShutdownType::Timeout(Duration::from_millis(5))),
        ChildShutdownStep::Exited(ExitReason::Normal)
    );
    assert_eq!(
        begin_child_shutdown(None, ShutdownType::Timeout(Duration::from_millis(5))),
        ChildShutdownStep::Request(ShutdownCommand::Shutdown, ShutdownWait::Bounded(Duration::from_millis(5)))
    );
    assert_eq!(
        begin_child_shutdown(None, ShutdownType::BrutalKill),
        ChildShutdownStep::Request(ShutdownCommand::Kill, ShutdownWait::Unbounded)
    );
    assert_eq!(after_child_wait(Some(ExitReason::Shutdown)), ChildShutdownStep::Exited(ExitReason::Shutdown));
    assert_eq!(after_child_wait(None), ChildShutdownStep::Request(ShutdownCommand::Kill, ShutdownWait::Unbounded));
}
