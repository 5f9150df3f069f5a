//! Supervision scenarios driven end to end: a small deterministic runtime
//! starts the children, delivers their exits to the supervisor state machine
//! and carries out the steps it asks for.

use concurrency::child_spec::{
    after_child_wait, begin_child_shutdown, ChildShutdownStep, ChildSpec, RestartBackoff, RestartIntensity, RestartType, ShutdownCommand,
    ShutdownType, ShutdownWait,
};
use concurrency::error::{ActorError, ExitReason};
use concurrency::ids::ActorId;
use concurrency::mailbox::{MailboxConfig, MailboxLimits, MailboxRuntime};
use concurrency::observability::{meltdown, record, restart_scheduled, TestRecorder};
use concurrency::static_supervisor::{StaticSupervisor, SupervisorStep};
use concurrency::supervisor::SupervisorStrategy;
use concurrency::time::{Duration, Instant};
use std::cell::RefCell;
use std::collections::{HashMap, HashSet, VecDeque};

/// Shut a simulated child down through the library's steps: probe, the
/// policy's request and wait, and a kill after a bounded wait that ran out.
fn shutdown_child_blocking<H>(
    handle: &H,
    shutdown: ShutdownType,
    exit_reason: &dyn Fn(&H) -> Option<ExitReason>,
    send: &dyn Fn(&H, ShutdownCommand),
    wait: &dyn Fn(&H, ShutdownWait) -> Option<ExitReason>,
) -> ExitReason {
    let (command, first_wait) = match begin_child_shutdown(exit_reason(handle), shutdown) {
        ChildShutdownStep::Exited(reason) => return reason,
        ChildShutdownStep::Request(command, w) => (command, w),
    };
    send(handle, command);
    let waited = wait(handle, first_wait);
    if let ShutdownWait::Unbounded = first_wait {
        return waited.expect("an unbounded wait ends with the exit");
    }
    let (kill, last_wait) = match after_child_wait(waited) {
        ChildShutdownStep::Exited(reason) => return reason,
        ChildShutdownStep::Request(command, w) => (command, w),
    };
    send(handle, kill);
    wait(handle, last_wait).expect("an unbounded wait ends with the exit")
}

/// How a simulated child behaves.
#[derive(Clone, Debug)]
enum Behavior {
    /// Panics while starting at these start generations.
    Counting(Vec<u32>),
    /// Panics on every start.
    AlwaysPanic,
    /// Panics on its first start, then stops normally.
    CrashOnceThenStop,
    /// Runs `stopped()` for this long when asked to shut down.
    SlowStopper(u64),
    /// Holds its mailbox in a handler for this long.
    Stuck(u64),
}

const MS: u64 = 1_000_000;

struct Sim {
    sup: StaticSupervisor<Behavior>,
    counts: HashMap<String, u32>,
    current: HashMap<String, u64>,
    alive: HashSet<u64>,
    exits: VecDeque<(ActorId, ExitReason)>,
    next_actor: u64,
    clock: u64,
    start_times: HashMap<String, Vec<u64>>,
    restarts_of: HashMap<String, u32>,
    exit_reason: Option<ExitReason>,
    recorder: TestRecorder,
    stopped_ran: HashSet<String>,
}

impl Sim {
    fn start(strategy: SupervisorStrategy, intensity: RestartIntensity, specs: Vec<ChildSpec<Behavior>>) -> Sim {
        let n = specs.len();
        let mut sim = Sim {
            sup: StaticSupervisor::new(strategy, intensity, specs),
            counts: HashMap::new(),
            current: HashMap::new(),
            alive: HashSet::new(),
            exits: VecDeque::new(),
            next_actor: 1,
            clock: 0,
            start_times: HashMap::new(),
            restarts_of: HashMap::new(),
            exit_reason: None,
            recorder: TestRecorder::new(),
            stopped_ran: HashSet::new(),
        };
        for i in 0..n {
            let id = sim.sup.specs()[i].id.clone();
            let actor = sim.launch(&id);
            sim.sup.child_started(i, actor, false);
        }
        sim
    }

    fn behavior(&self, id: &str) -> Behavior {
        self.sup.specs().iter().find(|s| s.id == id).map(|s| s.start.clone()).unwrap()
    }

    fn count(&self, id: &str) -> u32 {
        self.counts.get(id).copied().unwrap_or(0)
    }

    /// Start a generation of child `id`; a start that dies queues its exit.
    fn launch(&mut self, id: &str) -> ActorId {
        let generation = self.count(id);
        *self.counts.entry(id.to_string()).or_insert(0) += 1;
        self.start_times.entry(id.to_string()).or_default().push(self.clock);
        let actor = self.next_actor;
        self.next_actor += 1;
        self.current.insert(id.to_string(), actor);
        self.alive.insert(actor);
        let exit = match self.behavior(id) {
            Behavior::Counting(panic_at) if panic_at.contains(&generation) => Some(ExitReason::Panic(format!("worker {id} crashed"))),
            Behavior::AlwaysPanic => Some(ExitReason::Panic(format!("worker {id} always crashes"))),
            Behavior::CrashOnceThenStop if generation == 0 => Some(ExitReason::Panic(format!("worker {id} crashes once"))),
            Behavior::CrashOnceThenStop => Some(ExitReason::Normal),
            _ => None,
        };
        if let Some(reason) = exit {
            self.alive.remove(&actor);
            self.exits.push_back((ActorId::from_raw(actor), reason));
        }
        ActorId::from_raw(actor)
    }

    fn restart(&mut self, ids: Vec<String>) {
        for id in ids {
            let attempt = self.restarts_of.entry(id.clone()).or_insert(0);
            *attempt += 1;
            let delay = self.sup.backoff_for(&id).delay_for_attempt(*attempt);
            record(&mut self.recorder, restart_scheduled(ActorId::from_raw(0), &id, delay, false));
            self.clock += delay.as_nanos() as u64;
            let actor = self.launch(&id);
            self.sup.child_restarted(&id, actor);
        }
    }

    /// Shut child `id` down under `policy` as the runtime does, and give the
    /// reason it exited with.
    fn shut_down(&mut self, id: &str, policy: ShutdownType) -> ExitReason {
        let actor = self.current[id];
        let behavior = self.behavior(id);
        let was_alive = self.alive.contains(&actor);
        let commands: RefCell<Vec<ShutdownCommand>> = RefCell::new(Vec::new());
        let reason = shutdown_child_blocking(
            &actor,
            policy,
            &|_: &u64| if was_alive { None } else { Some(ExitReason::Panic("already exited".into())) },
            &|_: &u64, c: ShutdownCommand| commands.borrow_mut().push(c),
            &|_: &u64, w: ShutdownWait| {
                let last = *commands.borrow().last().unwrap();
                let needed = match (&behavior, last) {
                    (_, ShutdownCommand::Kill) => 0,
                    (Behavior::SlowStopper(ms), ShutdownCommand::Shutdown) => *ms * MS,
                    (Behavior::Stuck(ms), ShutdownCommand::Shutdown) => *ms * MS,
                    _ => 0,
                };
                let reason = match last {
                    ShutdownCommand::Kill => ExitReason::Kill,
                    ShutdownCommand::Shutdown => ExitReason::Shutdown,
                };
                match w {
                    ShutdownWait::Unbounded => Some(reason),
                    ShutdownWait::Bounded(d) => if (needed as u128) <= d.as_nanos() { Some(reason) } else { None },
                }
            },
        );
        if matches!(behavior, Behavior::SlowStopper(_)) && commands.borrow().first() == Some(&ShutdownCommand::Shutdown) {
            self.stopped_ran.insert(id.to_string());
        }
        self.alive.remove(&actor);
        reason
    }

    /// Deliver the queued exits until none is left or the supervisor stops.
    fn run(&mut self) {
        while let Some((actor, reason)) = self.exits.pop_front() {
            if self.exit_reason.is_some() {
                break;
            }
            match self.sup.on_exit(actor, &reason, Instant::from_nanos(self.clock)) {
                SupervisorStep::Nothing => {},
                SupervisorStep::Restart(ids) => self.restart(ids),
                SupervisorStep::Terminate(ids) => {
                    let plan = self.sup.shutdown_plan(&ids);
                    for (id, policy) in plan {
                        let actor = self.current[&id];
                        if self.alive.contains(&actor) {
                            let reason = self.shut_down(&id, policy);
                            self.exits.push_back((ActorId::from_raw(actor), reason));
                        }
                        self.sup.child_terminated(ActorId::from_raw(actor));
                    }
                    if let Some(ids) = self.sup.batch_terminated() {
                        self.restart(ids);
                    }
                },
                SupervisorStep::Stop => {
                    record(&mut self.recorder, meltdown(ActorId::from_raw(0)));
                    self.exit_reason = Some(ExitReason::Shutdown);
                },
            }
        }
    }

    /// Stop the supervisor: its children are shut down latest first.
    fn stop(&mut self) -> Vec<(String, ExitReason)> {
        let plan = self.sup.begin_stop();
        let mut out = Vec::new();
        for (id, policy) in plan {
            let reason = self.shut_down(&id, policy);
            out.push((id, reason));
        }
        self.exit_reason = Some(ExitReason::Normal);
        out
    }
}

fn worker(id: &str, behavior: Behavior, restart: RestartType) -> ChildSpec<Behavior> {
    ChildSpec::worker(id.to_string(), behavior, restart)
}

fn intensity(max_restarts: u32, secs: u64) -> RestartIntensity {
    RestartIntensity { max_restarts, within: Duration::from_secs(secs) }
}

#[test]
fn supervisor_integration_one_for_all_restarts_all_children_after_one_crashes() {
    let mut sim = Sim::start(
        SupervisorStrategy::OneForAll,
        intensity(5, 10),
        vec![
            worker("alpha", Behavior::Counting(vec![0]), RestartType::Permanent),
            worker("beta", Behavior::Counting(vec![]), RestartType::Permanent),
            worker("gamma", Behavior::Counting(vec![]), RestartType::Permanent),
        ],
    );
    sim.run();
    assert!(["alpha", "beta", "gamma"].iter().all(|id| sim.count(id) >= 2));
    assert!(sim.exit_reason.is_none());
}

#[test]
fn supervisor_integration_rest_for_one_restarts_only_later_children() {
    let mut sim = Sim::start(
        SupervisorStrategy::RestForOne,
        intensity(5, 10),
        vec![
            worker("first", Behavior::Counting(vec![]), RestartType::Permanent),
            worker("middle", Behavior::Counting(vec![0]), RestartType::Permanent),
            worker("last", Behavior::Counting(vec![]), RestartType::Permanent),
        ],
    );
    sim.run();
    assert!(sim.count("middle") >= 2);
    assert!(sim.count("last") >= 2);
    assert_eq!(sim.count("first"), 1, "first must not restart");
    assert!(sim.exit_reason.is_none());
}

#[test]
fn supervisor_integration_meltdown_stops_supervisor_when_intensity_exceeded() {
    let mut sim = Sim::start(
        SupervisorStrategy::OneForOne,
        intensity(2, 10),
        vec![worker("crash-loop", Behavior::AlwaysPanic, RestartType::Permanent)],
    );
    sim.run();
    // Initial start + 2 restarts before meltdown on the third crash.
    assert!(sim.count("crash-loop") >= 3, "starts={}", sim.count("crash-loop"));
    assert!(sim.exit_reason.is_some(), "supervisor should stop after meltdown");
    assert_eq!(sim.recorder.meltdowns, 1);
}

#[test]
fn supervisor_integration_transient_does_not_restart_after_normal_exit() {
    let mut sim = Sim::start(
        SupervisorStrategy::OneForOne,
        RestartIntensity::default(),
        vec![worker("transient", Behavior::CrashOnceThenStop, RestartType::Transient)],
    );
    sim.run();
    assert_eq!(sim.count("transient"), 2, "transient child must not restart again after normal exit");
    assert!(sim.exit_reason.is_none());
}

#[test]
fn one_for_one_restart_increments_supervision_recorder() {
    let mut sim = Sim::start(
        SupervisorStrategy::OneForOne,
        RestartIntensity::default(),
        vec![worker("recorder_worker", Behavior::Counting(vec![0]), RestartType::Permanent)],
    );
    sim.run();
    assert!(sim.count("recorder_worker") >= 2, "worker should restart after panic");
    assert!(sim.recorder.restarts >= 1, "supervision recorder should count restart");
}

#[test]
fn supervisor_integration_temporary_never_restarts_after_crash() {
    let mut sim = Sim::start(
        SupervisorStrategy::OneForOne,
        RestartIntensity::default(),
        vec![worker("temporary", Behavior::Counting(vec![0]), RestartType::Temporary)],
    );
    sim.run();
    assert_eq!(sim.count("temporary"), 1);
    assert!(sim.exit_reason.is_none());
}

#[test]
fn child_handle_shutdown_and_kill_exit_reasons() {
    // An idle actor exits with the reason of the request it was sent.
    let sent: RefCell<Option<ShutdownCommand>> = RefCell::new(None);
    let exit_of = |_: &u64, w: ShutdownWait| -> Option<ExitReason> {
        let _ = w;
        match *sent.borrow() {
            Some(ShutdownCommand::Shutdown) => Some(ExitReason::Shutdown),
            Some(ShutdownCommand::Kill) => Some(ExitReason::Kill),
            None => None,
        }
    };
    let reason = shutdown_child_blocking(&1u64, ShutdownType::Infinity, &|_: &u64| None, &|_: &u64, c: ShutdownCommand| {
        *sent.borrow_mut() = Some(c)
    }, &exit_of);
    assert_eq!(reason, ExitReason::Shutdown);

    *sent.borrow_mut() = None;
    let reason = shutdown_child_blocking(&2u64, ShutdownType::BrutalKill, &|_: &u64| None, &|_: &u64, c: ShutdownCommand| {
        *sent.borrow_mut() = Some(c)
    }, &exit_of);
    assert_eq!(reason, ExitReason::Kill);
}

#[test]
fn supervisor_integration_worker_child_spec_defaults_to_otp_shutdown_timeout() {
    let spec = ChildSpec::worker("w".to_string(), (), RestartType::Permanent);
    assert_eq!(spec.shutdown, ShutdownType::Timeout(Duration::from_secs(5)));
}

#[test]
fn supervisor_integration_shutdown_timeout_allows_fast_child_to_shutdown_gracefully() {
    let (fast, _) = worker("fast", Behavior::SlowStopper(10), RestartType::Permanent)
        .with_shutdown(ShutdownType::Timeout(Duration::from_secs(1)));
    let mut sim = Sim::start(SupervisorStrategy::OneForOne, RestartIntensity::default(), vec![fast]);
    sim.run();
    let reasons = sim.stop();
    assert_eq!(reasons, vec![("fast".to_string(), ExitReason::Shutdown)]);
    assert!(sim.stopped_ran.contains("fast"));
}

#[test]
fn supervisor_integration_shutdown_timeout_escalates_stuck_handler_to_kill() {
    let (stuck, _) = worker("stuck", Behavior::Stuck(5000), RestartType::Permanent)
        .with_shutdown(ShutdownType::Timeout(Duration::from_millis(50)));
    let mut sim = Sim::start(SupervisorStrategy::OneForOne, RestartIntensity::default(), vec![stuck]);
    let reason = sim.shut_down("stuck", ShutdownType::Timeout(Duration::from_millis(50)));
    assert_eq!(reason, ExitReason::Kill);
}

#[test]
fn supervisor_integration_supervisor_shutdown_escalates_stuck_child_to_kill() {
    let (stuck, _) = worker("stuck", Behavior::Stuck(5000), RestartType::Permanent)
        .with_shutdown(ShutdownType::Timeout(Duration::from_millis(50)));
    let mut sim = Sim::start(SupervisorStrategy::OneForOne, RestartIntensity::default(), vec![stuck]);
    let reasons = sim.stop();
    assert_eq!(reasons, vec![("stuck".to_string(), ExitReason::Kill)]);
}

#[test]
fn supervisor_integration_one_for_all_batch_terminate_escalates_stuck_child() {
    let (fast, _) = worker("fast", Behavior::Counting(vec![0]), RestartType::Permanent).with_shutdown(ShutdownType::BrutalKill);
    let (stuck, _) = worker("stuck", Behavior::Stuck(150), RestartType::Permanent)
        .with_shutdown(ShutdownType::Timeout(Duration::from_millis(50)));
    let mut sim = Sim::start(SupervisorStrategy::OneForAll, intensity(5, 10), vec![fast, stuck]);
    sim.run();
    assert!(sim.count("fast") >= 2 && sim.count("stuck") >= 2, "fast={}, stuck={}", sim.count("fast"), sim.count("stuck"));
}

#[test]
fn one_for_all_batch_terminate_restarts_all_children() {
    let fast = worker("fast", Behavior::Counting(vec![0]), RestartType::Permanent);
    let (slow, _) = worker("slow", Behavior::SlowStopper(10), RestartType::Permanent).with_shutdown(ShutdownType::BrutalKill);
    let mut sim = Sim::start(SupervisorStrategy::OneForAll, intensity(5, 10), vec![fast, slow]);
    sim.run();
    assert!(sim.count("fast") >= 2 && sim.count("slow") >= 2, "fast={}, slow={}", sim.count("fast"), sim.count("slow"));
}

/// Sends to a worker whose handler blocks on its first message: that one
/// leaves the queue, one more fits, the next is refused.
fn gated_sends(config: MailboxConfig) -> (Result<(), ActorError>, Result<(), ActorError>, Result<(), ActorError>) {
    let mut limits = MailboxLimits::new(config, MailboxRuntime::Tasks);
    let first = limits.try_acquire();
    limits.on_message_dequeued();
    let second = limits.try_acquire();
    let third = limits.try_acquire();
    (first, second, third)
}

#[test]
fn supervisor_integration_supervised_child_honors_child_spec_mailbox() {
    let spec = worker("gated", Behavior::Counting(vec![]), RestartType::Permanent).with_mailbox(MailboxConfig::bounded(1));
    let sim = Sim::start(SupervisorStrategy::OneForOne, RestartIntensity::default(), vec![spec]);
    let (first, second, third) = gated_sends(sim.sup.specs()[0].mailbox);
    assert!(first.is_ok());
    assert!(second.is_ok());
    assert!(matches!(third, Err(ActorError::MailboxFull)));
}

#[test]
fn supervisor_integration_supervised_child_restart_preserves_mailbox() {
    let spec = worker("gated", Behavior::Counting(vec![]), RestartType::Permanent).with_mailbox(MailboxConfig::bounded(1));
    let mut sim = Sim::start(SupervisorStrategy::OneForOne, RestartIntensity::default(), vec![spec]);
    // The worker panics in a handler and is restarted.
    let actor = sim.current["gated"];
    sim.alive.remove(&actor);
    sim.exits.push_back((ActorId::from_raw(actor), ExitReason::Panic("supervised worker panic".into())));
    sim.run();
    assert_eq!(sim.count("gated"), 2);
    let (first, second, third) = gated_sends(sim.sup.specs()[0].mailbox);
    assert!(first.is_ok());
    assert!(second.is_ok());
    assert!(matches!(third, Err(ActorError::MailboxFull)));
}

#[test]
fn supervisor_one_for_one_restarts_panicked_child() {
    let mut sim = Sim::start(
        SupervisorStrategy::OneForOne,
        intensity(5, 5),
        vec![worker("worker", Behavior::Counting(vec![0]), RestartType::Permanent)],
    );
    sim.run();
    assert_eq!(sim.count("worker"), 2);
    assert!(sim.exit_reason.is_none());
    assert!(sim.sup.logic().child_id_by_actor(ActorId::from_raw(sim.current["worker"])).is_some());
}

#[test]
fn restart_backoff_delays_restarts() {
    let spec = worker("worker", Behavior::Counting(vec![0]), RestartType::Permanent)
        .with_backoff(RestartBackoff::Fixed(Duration::from_millis(80)));
    let mut sim = Sim::start(SupervisorStrategy::OneForOne, RestartIntensity::default(), vec![spec]);
    sim.run();
    let stamps = sim.start_times["worker"].clone();
    assert_eq!(stamps.len(), 2);
    assert!(stamps[1] - stamps[0] >= 75 * MS);
}

#[test]
fn supervisor_supervisor_shutdown_does_not_restart_permanent_child() {
    let mut sim = Sim::start(
        SupervisorStrategy::OneForOne,
        RestartIntensity::default(),
        vec![worker("worker", Behavior::Counting(vec![]), RestartType::Permanent)],
    );
    sim.run();
    assert_eq!(sim.count("worker"), 1);
    let reasons = sim.stop();
    // The child's exit reaches a stopping supervisor, which restarts nothing.
    let actor = sim.current["worker"];
    let step = sim.sup.on_exit(ActorId::from_raw(actor), &reasons[0].1, Instant::from_nanos(sim.clock));
    assert_eq!(step, SupervisorStep::Nothing);
    assert_eq!(sim.exit_reason, Some(ExitReason::Normal));
    assert_eq!(sim.count("worker"), 1);
}

#[test]
fn shutdown_child_reports_shutdown_reason() {
    let mut sim = Sim::start(
        SupervisorStrategy::OneForOne,
        RestartIntensity::default(),
        vec![worker("worker", Behavior::Counting(vec![]), RestartType::Permanent)],
    );
    let reasons = sim.stop();
    assert_eq!(reasons, vec![("worker".to_string(), ExitReason::Shutdown)]);
}
