use vstd::prelude::*;
use vstd::arithmetic::power2::{pow2, lemma2_to64, lemma_pow2_pos, lemma_pow2_strictly_increases, lemma_pow2_unfold};
use crate::error::{ExitReason, spec_is_abnormal};
use crate::mailbox::MailboxConfig;
use crate::time::{Duration, MAX_NANOS, max_nanos};

verus! {

/// Seconds of the default shutdown timeout for worker children (OTP's default).
pub const DEFAULT_WORKER_SHUTDOWN_SECS: u64 = 5;

/// How a supervised child is restarted when it exits.
#[derive(Debug, Clone, Copy, PartialEq, Eq, Structural)]
pub enum RestartType {
    /// Restart on any exit except a supervisor-initiated shutdown.
    Permanent,
    /// Restart only on abnormal exit.
    Transient,
    /// Never restart.
    Temporary,
}

/// How a supervisor stops a child during shutdown.
#[derive(Debug, Clone, Copy, PartialEq, Eq, Structural)]
pub enum ShutdownType {
    /// Wait indefinitely for `stopped()` to complete.
    Infinity,
    /// Wait up to the given duration, then escalate to kill.
    Timeout(Duration),
    /// Immediate kill, without the `stopped()` callback.
    BrutalKill,
}

/// The shutdown policy of worker children: a five second timeout.
pub fn default_worker_shutdown() -> (s: ShutdownType)
    ensures
        s matches ShutdownType::Timeout(d) && d@ == DEFAULT_WORKER_SHUTDOWN_SECS * 1000000000,
{
    ShutdownType::Timeout(Duration::from_secs(DEFAULT_WORKER_SHUTDOWN_SECS))
}

/// Whether a supervised child is a worker or a nested supervisor.
#[derive(Debug, Clone, Copy, PartialEq, Eq, Structural)]
pub enum ChildType {
    Worker,
    Supervisor,
}

/// Whether a child of this type with this shutdown policy risks having its
/// subtree terminated before nested children finish (a nested supervisor with
/// a finite timeout); callers log a warning when it does.
pub fn warn_supervisor_timeout(child_type: ChildType, shutdown: ShutdownType) -> (warn: bool)
    ensures
        warn == (child_type is Supervisor && shutdown is Timeout),
{
    match (child_type, shutdown) {
        (ChildType::Supervisor, ShutdownType::Timeout(_)) => true,
        _ => false,
    }
}

/// Restart intensity limits: at most `max_restarts` restarts within `within`.
#[derive(Debug, Clone, Copy, PartialEq, Eq, Structural)]
pub struct RestartIntensity {
    pub max_restarts: u32,
    pub within: Duration,
}

impl Default for RestartIntensity {
    /// Three restarts within five seconds.
    fn default() -> (r: Self)
        ensures
            r.max_restarts == 3,
            r.within@ == 5000000000,
    {
        RestartIntensity { max_restarts: 3, within: Duration::from_secs(5) }
    }
}

/// Delay applied before restarting a child after an abnormal exit.
#[derive(Debug, Clone, Copy, PartialEq, Eq, Structural)]
pub enum RestartBackoff {
    /// Restart immediately (the default).
    NoDelay,
    /// Wait a fixed duration before each restart attempt.
    Fixed(Duration),
    /// Exponential delay `base * 2^(attempt - 1)`, capped at `max`.
    Exponential { base: Duration, max: Duration },
}

impl Default for RestartBackoff {
    fn default() -> (r: Self)
        ensures
            r is NoDelay,
    {
        RestartBackoff::NoDelay
    }
}

/// `v`, saturated at the largest representable duration.
pub open spec fn saturate(v: nat) -> nat {
    if v <= max_nanos() { v } else { max_nanos() }
}

/// The smaller of two naturals.
pub open spec fn min_nat(a: nat, b: nat) -> nat {
    if a <= b { a } else { b }
}

/// The doubling exponent used for attempt `attempt`: `attempt - 1`, at least
/// zero and at most `cap`.
pub open spec fn doubling_exponent(attempt: u32, cap: nat) -> nat {
    let e: nat = if attempt >= 1 { (attempt - 1) as nat } else { 0 };
    min_nat(e, cap)
}

/// Nanoseconds to wait before restart attempt `attempt` (1-based).
pub open spec fn backoff_delay(backoff: RestartBackoff, attempt: u32) -> nat {
    match backoff {
        RestartBackoff::NoDelay => 0,
        RestartBackoff::Fixed(d) => d@,
        RestartBackoff::Exponential { base, max } =>
            min_nat(saturate(base@ * pow2(attempt_exponent(attempt))), max@),
    }
}

/// The doubling exponent of restart attempt `attempt`: `attempt - 1`, and 0
/// for attempt 0.
pub open spec fn attempt_exponent(attempt: u32) -> nat {
    if attempt >= 1 { (attempt - 1) as nat } else { 0 }
}

/// Doubling a saturated value and saturating again is saturating the
/// doubled value, one step further in the powers of two.
proof fn lemma_saturated_doubling(b: nat, k: nat)
    ensures
        saturate(saturate(b * pow2(k)) * 2) == saturate(b * pow2(k + 1)),
{
    lemma_pow2_unfold(k + 1);
    assert(b * pow2(k + 1) == (b * pow2(k)) * 2) by (nonlinear_arith)
        requires pow2(k + 1) == 2 * pow2(k);
}

/// Once a doubled value is 0 or saturated, further doublings leave it so.
proof fn lemma_doubling_settled(b: nat, k: nat, e: nat)
    requires
        k <= e,
        saturate(b * pow2(k)) == 0 || saturate(b * pow2(k)) == max_nanos(),
    ensures
        saturate(b * pow2(e)) == saturate(b * pow2(k)),
{
    lemma_pow2_pos(k);
    lemma_pow2_pos(e);
    if k < e {
        lemma_pow2_strictly_increases(k, e);
    }
    assert(b * pow2(k) <= b * pow2(e)) by (nonlinear_arith)
        requires pow2(k) <= pow2(e);
    if saturate(b * pow2(k)) == 0 {
        assert(b == 0) by (nonlinear_arith)
            requires b * pow2(k) == 0, pow2(k) > 0;
        assert(b * pow2(e) == 0);
    }
}

/// `2^shift` as a `u32`, for shifts below 32.
pub fn pow2_u32(shift: u32) -> (p: u32)
    requires
        shift < 32,
    ensures
        p == pow2(shift as nat),
{
    proof {
        vstd::bits::lemma_u32_pow2_no_overflow(shift as nat);
        vstd::bits::lemma_u32_shl_is_mul(1, shift);
    }
    1u32 << shift
}

impl RestartBackoff {
    /// Delay before restart attempt `attempt` (1-based).
    pub fn delay_for_attempt(self, attempt: u32) -> (d: Duration)
        ensures
            d@ == backoff_delay(self, attempt),
    {
        match self {
            RestartBackoff::NoDelay => Duration::zero(),
            RestartBackoff::Fixed(delay) => delay,
            RestartBackoff::Exponential { base, max } => {
                let e: u32 = if attempt >= 1 { attempt - 1 } else { 0 };
                let mut d = base.saturating_mul(1);
                let mut k: u32 = 0;
                assert(base@ * pow2(0) == base@ * 1) by {
                    lemma2_to64();
                }
                while k < e
                    invariant_except_break
                        k <= e,
                        d@ == saturate(base@ * pow2(k as nat)),
                    ensures
                        d@ == saturate(base@ * pow2(e as nat)),
                    decreases e - k,
                {
                    if d.as_nanos() == 0 || d.as_nanos() == MAX_NANOS {
                        proof {
                            lemma_doubling_settled(base@, k as nat, e as nat);
                        }
                        break;
                    }
                    proof {
                        lemma_saturated_doubling(base@, k as nat);
                    }
                    d = d.saturating_mul(2);
                    k = k + 1;
                }
                assert(e as nat == attempt_exponent(attempt));
                d.shorter(max)
            },
        }
    }
}

/// Whether a child with `restart` policy is restarted after exiting with `reason`.
pub open spec fn spec_should_restart(restart: RestartType, reason: ExitReason) -> bool {
    match restart {
        RestartType::Permanent => !(reason is Shutdown),
        RestartType::Transient => spec_is_abnormal(reason),
        RestartType::Temporary => false,
    }
}

/// Returns `true` if a child with `restart` policy should be restarted after `reason`.
pub fn should_restart(restart: RestartType, reason: &ExitReason) -> (b: bool)
    ensures
        b == spec_should_restart(restart, *reason),
{
    match restart {
        RestartType::Permanent => match reason {
            ExitReason::Shutdown => false,
            _ => true,
        },
        RestartType::Transient => reason.is_abnormal(),
        RestartType::Temporary => false,
    }
}

/// A child that is never restarted after a shutdown it was asked for, and a
/// temporary child that is never restarted at all.
pub proof fn lemma_shutdown_never_restarts(restart: RestartType)
    ensures
        !spec_should_restart(restart, ExitReason::Shutdown),
        !spec_should_restart(RestartType::Temporary, ExitReason::Kill),
{
}

/// Every transient restart is also a permanent restart.
pub proof fn lemma_transient_implies_permanent(reason: ExitReason)
    ensures
        spec_should_restart(RestartType::Transient, reason)
            ==> spec_should_restart(RestartType::Permanent, reason),
{
}

/// Process group to join when a supervised child starts.
#[derive(Debug, Clone, PartialEq, Eq)]
pub struct PgMembership {
    pub scope: String,
    pub group: String,
}

/// Name of the default process group scope.
pub open spec fn default_scope() -> Seq<char> {
    seq!['d', 'e', 'f', 'a', 'u', 'l', 't']
}

/// The default process group scope name, `"default"`.
pub fn default_scope_name() -> (s: String)
    ensures
        s@ == default_scope(),
{
    let lit = "default";
    proof {
        reveal_strlit("default");
    }
    lit.to_owned()
}

/// Specification for a supervised child; `start` is whatever the runtime
/// uses to start the child.
#[derive(Debug, Clone)]
pub struct ChildSpec<S> {
    pub id: String,
    pub restart: RestartType,
    pub shutdown: ShutdownType,
    pub child_type: ChildType,
    pub mailbox: MailboxConfig,
    pub backoff: RestartBackoff,
    pub pg_membership: Option<PgMembership>,
    pub start: S,
}

impl<S> ChildSpec<S> {
    /// A worker child started with `start`: shut down after the default
    /// worker timeout, with an unbounded mailbox, no restart delay and no
    /// process group.
    pub fn worker(id: String, start: S, restart: RestartType) -> (c: Self)
        ensures
            c.id == id,
            c.start == start,
            c.restart == restart,
            c.shutdown matches ShutdownType::Timeout(d) && d@ == DEFAULT_WORKER_SHUTDOWN_SECS * 1000000000,
            c.child_type is Worker,
            c.mailbox.spec_capacity() is None && c.mailbox.spec_mode() is FailFast,
            c.backoff is NoDelay,
            c.pg_membership is None,
    {
        ChildSpec {
            id,
            restart,
            shutdown: default_worker_shutdown(),
            child_type: ChildType::Worker,
            mailbox: MailboxConfig::unbounded(),
            backoff: RestartBackoff::NoDelay,
            pg_membership: None,
            start,
        }
    }

    /// A nested supervisor child started with `start`: waited for without a
    /// time limit, with an unbounded mailbox, no restart delay and no process
    /// group.
    pub fn supervisor(id: String, start: S, restart: RestartType) -> (c: Self)
        ensures
            c.id == id,
            c.start == start,
            c.restart == restart,
            c.shutdown is Infinity,
            c.child_type is Supervisor,
            c.mailbox.spec_capacity() is None && c.mailbox.spec_mode() is FailFast,
            c.backoff is NoDelay,
            c.pg_membership is None,
    {
        ChildSpec {
            id,
            restart,
            shutdown: ShutdownType::Infinity,
            child_type: ChildType::Supervisor,
            mailbox: MailboxConfig::unbounded(),
            backoff: RestartBackoff::NoDelay,
            pg_membership: None,
            start,
        }
    }
}

impl<S> ChildSpec<S> {
    /// Join the child to this process group in the default scope when it starts.
    pub fn with_pg_group(self, group: String) -> (r: Self)
        ensures
            r.pg_membership matches Some(m) && m.scope@ == default_scope() && m.group@ == group@,
            r.id == self.id,
            r.restart == self.restart,
            r.shutdown == self.shutdown,
            r.child_type == self.child_type,
            r.mailbox == self.mailbox,
            r.backoff == self.backoff,
            r.start == self.start,
    {
        let scope = default_scope_name();
        self.with_pg_group_scoped(scope, group)
    }

    /// Join the child to a scoped process group when it starts.
    pub fn with_pg_group_scoped(self, scope: String, group: String) -> (r: Self)
        ensures
            r.pg_membership == Some(PgMembership { scope, group }),
            r.id == self.id,
            r.restart == self.restart,
            r.shutdown == self.shutdown,
            r.child_type == self.child_type,
            r.mailbox == self.mailbox,
            r.backoff == self.backoff,
            r.start == self.start,
    {
        let mut s = self;
        s.pg_membership = Some(PgMembership { scope, group });
        s
    }

    /// Whether the child joins a process group when it starts.
    pub fn has_pg_membership(&self) -> (b: bool)
        ensures
            b == (self.pg_membership is Some),
    {
        self.pg_membership.is_some()
    }

    /// Use this shutdown policy; the flag says whether the combination
    /// deserves the nested-supervisor timeout warning.
    pub fn with_shutdown(self, shutdown: ShutdownType) -> (r: (Self, bool))
        ensures
            r.0.shutdown == shutdown,
            r.1 == warn_supervisor_timeout_spec(self.child_type, shutdown),
            r.0.id == self.id,
            r.0.restart == self.restart,
            r.0.child_type == self.child_type,
            r.0.mailbox == self.mailbox,
            r.0.backoff == self.backoff,
            r.0.pg_membership == self.pg_membership,
            r.0.start == self.start,
    {
        let warn = warn_supervisor_timeout(self.child_type, shutdown);
        let mut s = self;
        s.shutdown = shutdown;
        (s, warn)
    }

    /// Use this mailbox policy.
    pub fn with_mailbox(self, mailbox: MailboxConfig) -> (r: Self)
        ensures
            r.mailbox == mailbox,
            r.id == self.id,
            r.restart == self.restart,
            r.shutdown == self.shutdown,
            r.child_type == self.child_type,
            r.backoff == self.backoff,
            r.pg_membership == self.pg_membership,
            r.start == self.start,
    {
        let mut s = self;
        s.mailbox = mailbox;
        s
    }

    /// Use this restart backoff.
    pub fn with_backoff(self, backoff: RestartBackoff) -> (r: Self)
        ensures
            r.backoff == backoff,
            r.id == self.id,
            r.restart == self.restart,
            r.shutdown == self.shutdown,
            r.child_type == self.child_type,
            r.mailbox == self.mailbox,
            r.pg_membership == self.pg_membership,
            r.start == self.start,
    {
        let mut s = self;
        s.backoff = backoff;
        s
    }
}

/// Whether a nested supervisor with a finite timeout is configured.
pub open spec fn warn_supervisor_timeout_spec(child_type: ChildType, shutdown: ShutdownType) -> bool {
    child_type is Supervisor && shutdown is Timeout
}


/// A stop request a supervisor sends to a child.
#[derive(Debug, Clone, Copy, PartialEq, Eq, Structural)]
pub enum ShutdownCommand {
    /// Stop at once, without the `stopped()` callback.
    Kill,
    /// Stop gracefully, running `stopped()`.
    Shutdown,
}

/// How long a supervisor waits for a child's exit.
#[derive(Debug, Clone, Copy, PartialEq, Eq, Structural)]
pub enum ShutdownWait {
    /// Until the child exits.
    Unbounded,
    /// At most this long.
    Bounded(Duration),
}

/// The first request and wait of a shutdown policy: a brutal kill kills and
/// waits; the others ask for a shutdown and wait unbounded time, or the
/// policy's timeout.
pub open spec fn shutdown_start(shutdown: ShutdownType) -> (ShutdownCommand, ShutdownWait) {
    match shutdown {
        ShutdownType::BrutalKill => (ShutdownCommand::Kill, ShutdownWait::Unbounded),
        ShutdownType::Infinity => (ShutdownCommand::Shutdown, ShutdownWait::Unbounded),
        ShutdownType::Timeout(d) => (ShutdownCommand::Shutdown, ShutdownWait::Bounded(d)),
    }
}

/// The first request and wait of a shutdown policy.
pub fn shutdown_plan(shutdown: ShutdownType) -> (r: (ShutdownCommand, ShutdownWait))
    ensures
        r == shutdown_start(shutdown),
{
    match shutdown {
        ShutdownType::BrutalKill => (ShutdownCommand::Kill, ShutdownWait::Unbounded),
        ShutdownType::Infinity => (ShutdownCommand::Shutdown, ShutdownWait::Unbounded),
        ShutdownType::Timeout(d) => (ShutdownCommand::Shutdown, ShutdownWait::Bounded(d)),
    }
}

/// What a runtime does next while shutting a child down.
#[derive(Debug, PartialEq, Eq)]
pub enum ChildShutdownStep {
    /// The child has exited with this reason: nothing more is sent.
    Exited(ExitReason),
    /// Send this request, then wait for the exit.
    Request(ShutdownCommand, ShutdownWait),
}

/// First step of shutting a child down: a child that has already exited
/// (`exited`) is left alone and no request is sent; otherwise the policy's
/// first request and wait.
pub fn begin_child_shutdown(exited: Option<ExitReason>, shutdown: ShutdownType) -> (step: ChildShutdownStep)
    ensures
        match exited {
            Some(r) => step == ChildShutdownStep::Exited(r),
            None => step == ChildShutdownStep::Request(shutdown_start(shutdown).0, shutdown_start(shutdown).1),
        },
{
    match exited {
        Some(r) => ChildShutdownStep::Exited(r),
        None => {
            let (command, wait) = shutdown_plan(shutdown);
            ChildShutdownStep::Request(command, wait)
        },
    }
}

/// Step after the first wait of a shutdown: a wait that saw the exit ends
/// it; a wait that ran out escalates to a kill and an unbounded wait.
pub fn after_child_wait(waited: Option<ExitReason>) -> (step: ChildShutdownStep)
    ensures
        match waited {
            Some(r) => step == ChildShutdownStep::Exited(r),
            None => step == ChildShutdownStep::Request(ShutdownCommand::Kill, ShutdownWait::Unbounded),
        },
{
    match waited {
        Some(r) => ChildShutdownStep::Exited(r),
        None => ChildShutdownStep::Request(ShutdownCommand::Kill, ShutdownWait::Unbounded),
    }
}

} // verus!
