use vstd::prelude::*;
use vstd::arithmetic::power2::pow2;
use std::collections::HashMap;
use crate::child_spec::{ChildSpec, PgMembership, ShutdownType, min_nat, saturate, doubling_exponent, pow2_u32};
use crate::ids::{ActorAddress, NodeId};
use crate::supervision::{RemoteSpawnSpec, RemoteSpecOverrides, SupervisionEnvelope, SupervisionEvent, SupervisionSignal};
use crate::time::Duration;
use crate::seq_util::{is_first, first_index, lemma_first_index};

verus! {

broadcast use vstd::std_specs::hash::group_hash_axioms;

/// Where a supervised child should run.
#[derive(Debug, Clone, PartialEq, Eq)]
pub enum Placement {
    Local,
    Remote(NodeId),
}

/// Errors from remote spawn requests and registrations.
#[derive(Debug, Clone, PartialEq, Eq)]
pub enum RemoteSpawnError {
    /// The supervision transport failed.
    Transport(String),
    /// The placement node could not start the child.
    SpawnFailed(String),
    /// The reply did not answer the request.
    InvalidReply,
    /// No supervision publish hook is installed.
    PublishNotInstalled,
    /// No supervision request hook is installed.
    RequestNotInstalled,
}

/// Text of a remote spawn error.
pub open spec fn spawn_error_text(e: RemoteSpawnError) -> Seq<char> {
    match e {
        RemoteSpawnError::Transport(m) => "supervision transport error: "@ + m@,
        RemoteSpawnError::SpawnFailed(m) => "remote spawn failed: "@ + m@,
        RemoteSpawnError::InvalidReply => "invalid spawn reply"@,
        RemoteSpawnError::PublishNotInstalled => "supervision publish not installed"@,
        RemoteSpawnError::RequestNotInstalled => "supervision request not installed"@,
    }
}

impl RemoteSpawnError {
    /// The human-readable text of this error.
    pub fn message(&self) -> (s: String)
        ensures
            s@ == spawn_error_text(*self),
    {
        match self {
            RemoteSpawnError::Transport(m) => "supervision transport error: ".to_owned().concat(m.as_str()),
            RemoteSpawnError::SpawnFailed(m) => "remote spawn failed: ".to_owned().concat(m.as_str()),
            RemoteSpawnError::InvalidReply => "invalid spawn reply".to_owned(),
            RemoteSpawnError::PublishNotInstalled => "supervision publish not installed".to_owned(),
            RemoteSpawnError::RequestNotInstalled => "supervision request not installed".to_owned(),
        }
    }
}

/// Errors from waiting for a remote child to shut down.
#[derive(Debug, Clone, PartialEq, Eq)]
pub enum RemoteShutdownError {
    /// The shutdown signal could not be sent.
    Signal(String),
    /// The child did not exit in time.
    Timeout,
    /// The wait was interrupted.
    Interrupted,
}

/// Text of a remote shutdown error.
pub open spec fn shutdown_error_text(e: RemoteShutdownError) -> Seq<char> {
    match e {
        RemoteShutdownError::Signal(m) => "remote shutdown signal failed: "@ + m@,
        RemoteShutdownError::Timeout => "remote shutdown timed out"@,
        RemoteShutdownError::Interrupted => "remote shutdown wait interrupted"@,
    }
}

impl RemoteShutdownError {
    /// The human-readable text of this error.
    pub fn message(&self) -> (s: String)
        ensures
            s@ == shutdown_error_text(*self),
    {
        match self {
            RemoteShutdownError::Signal(m) => "remote shutdown signal failed: ".to_owned().concat(m.as_str()),
            RemoteShutdownError::Timeout => "remote shutdown timed out".to_owned(),
            RemoteShutdownError::Interrupted => "remote shutdown wait interrupted".to_owned(),
        }
    }
}

/// The shutdown error for a signal that could not be sent.
pub fn signal_error(err: &RemoteSpawnError) -> (e: RemoteShutdownError)
    ensures
        e matches RemoteShutdownError::Signal(m) && m@ == spawn_error_text(*err),
{
    RemoteShutdownError::Signal(err.message())
}

/// Retry policy for transient transport errors during remote spawn.
#[derive(Debug, Clone, Copy, PartialEq, Eq, Structural)]
pub struct RemoteSpawnRetryPolicy {
    pub max_attempts: u32,
    pub base_delay: Duration,
    pub max_delay: Duration,
}

impl Default for RemoteSpawnRetryPolicy {
    /// Three attempts, starting at 50 ms and never waiting more than 2 s.
    fn default() -> (p: Self)
        ensures
            p.max_attempts == 3,
            p.base_delay@ == 50000000,
            p.max_delay@ == 2000000000,
    {
        RemoteSpawnRetryPolicy {
            max_attempts: 3,
            base_delay: Duration::from_millis(50),
            max_delay: Duration::from_secs(2),
        }
    }
}

/// Milliseconds a killed remote child is given to report its exit.
pub const KILL_GRACE_MILLIS: u64 = 100;

/// Nanoseconds to wait before retry `attempt` (1-based) of a remote spawn:
/// the base delay doubled `attempt - 1` times (at most 16 times), saturating,
/// and never more than the policy's maximum.
pub open spec fn retry_delay(attempt: u32, policy: RemoteSpawnRetryPolicy) -> nat {
    min_nat(saturate(policy.base_delay@ * pow2(doubling_exponent(attempt, 16))), policy.max_delay@)
}

/// Delay before retrying a remote spawn after transport failure `attempt`.
pub fn transport_retry_delay(attempt: u32, policy: RemoteSpawnRetryPolicy) -> (d: Duration)
    ensures
        d@ == retry_delay(attempt, policy),
{
    let e = if attempt >= 1 { attempt - 1 } else { 0 };
    let exp = if e < 16 { e } else { 16 };
    policy.base_delay.saturating_mul(pow2_u32(exp)).shorter(policy.max_delay)
}

/// Whether a remote spawn failed in the transport (and may be retried).
pub fn is_transport_error(err: &RemoteSpawnError) -> (b: bool)
    ensures
        b == (*err is Transport),
{
    match err {
        RemoteSpawnError::Transport(_) => true,
        _ => false,
    }
}

/// What a retrying remote spawn does after an attempt.
#[derive(Debug)]
pub enum SpawnRetryStep {
    /// Stop: this is the outcome.
    Finish(Result<ActorAddress, RemoteSpawnError>),
    /// Record a retry of attempt `attempt`, sleep `delay`, and try again.
    Retry { attempt: u32, delay: Duration },
}

/// Progress of a remote spawn with transport retries.
pub struct SpawnRetry {
    policy: RemoteSpawnRetryPolicy,
    attempt: u32,
}

impl SpawnRetry {
    /// Number of attempts made so far, in specifications.
    pub closed spec fn spec_attempt(&self) -> u32 {
        self.attempt
    }

    /// The policy, in specifications.
    pub closed spec fn spec_policy(&self) -> RemoteSpawnRetryPolicy {
        self.policy
    }

    /// A retrying spawn that has not made any attempt yet.
    pub fn new(policy: RemoteSpawnRetryPolicy) -> (s: Self)
        ensures
            s.spec_attempt() == 0,
            s.spec_policy() == policy,
    {
        SpawnRetry { policy, attempt: 0 }
    }

    /// Count the attempt about to be made.
    pub fn begin_attempt(&mut self)
        requires
            old(self).spec_attempt() == 0 || old(self).spec_attempt() < old(self).spec_policy().max_attempts,
        ensures
            final(self).spec_attempt() == old(self).spec_attempt() + 1,
            final(self).spec_policy() == old(self).spec_policy(),
    {
        self.attempt = self.attempt + 1;
    }

    /// Decide after an attempt: a transport failure before the last allowed
    /// attempt is retried after the policy's delay; anything else is the
    /// outcome.
    pub fn on_outcome(&self, outcome: Result<ActorAddress, RemoteSpawnError>) -> (step: SpawnRetryStep)
        ensures
            match outcome {
                Err(RemoteSpawnError::Transport(_)) if self.spec_attempt() < self.spec_policy().max_attempts =>
                    step matches SpawnRetryStep::Retry { attempt, delay }
                        && attempt == self.spec_attempt() && delay@ == retry_delay(self.spec_attempt(), self.spec_policy()),
                _ => step == SpawnRetryStep::Finish(outcome),
            },
    {
        match outcome {
            Err(RemoteSpawnError::Transport(m)) => {
                if self.attempt < self.policy.max_attempts {
                    SpawnRetryStep::Retry { attempt: self.attempt, delay: transport_retry_delay(self.attempt, self.policy) }
                } else {
                    SpawnRetryStep::Finish(Err(RemoteSpawnError::Transport(m)))
                }
            },
            other => SpawnRetryStep::Finish(other),
        }
    }
}


/// The outcome of a spawn request from the reply to request `correlation_id`:
/// the child's address, the placement node's refusal, or `InvalidReply` when
/// the reply answers another request or is not a spawn reply.
pub fn spawn_reply_outcome(correlation_id: u64, reply: SupervisionEnvelope) -> (r: Result<ActorAddress, RemoteSpawnError>)
    ensures
        reply.correlation_id != correlation_id ==> r == Err::<ActorAddress, RemoteSpawnError>(RemoteSpawnError::InvalidReply),
        reply.correlation_id == correlation_id ==> match reply.event {
            SupervisionEvent::SpawnOk { child } => r == Ok::<ActorAddress, RemoteSpawnError>(child),
            SupervisionEvent::SpawnErr { error } => r == Err::<ActorAddress, RemoteSpawnError>(RemoteSpawnError::SpawnFailed(error)),
            _ => r == Err::<ActorAddress, RemoteSpawnError>(RemoteSpawnError::InvalidReply),
        },
{
    if reply.correlation_id != correlation_id {
        return Err(RemoteSpawnError::InvalidReply);
    }
    match reply.event {
        SupervisionEvent::SpawnOk { child } => Ok(child),
        SupervisionEvent::SpawnErr { error } => Err(RemoteSpawnError::SpawnFailed(error)),
        _ => Err(RemoteSpawnError::InvalidReply),
    }
}

/// A supervised child running on another node.
#[derive(Debug, Clone)]
pub struct RemoteChildHandle {
    address: ActorAddress,
    parent: ActorAddress,
}

impl RemoteChildHandle {
    /// The child's address, in specifications.
    pub closed spec fn spec_address(&self) -> ActorAddress {
        self.address
    }

    /// The parent's address, in specifications.
    pub closed spec fn spec_parent(&self) -> ActorAddress {
        self.parent
    }

    /// A handle of the remote child at `address` supervised by `parent`.
    pub fn new(address: ActorAddress, parent: ActorAddress) -> (h: Self)
        ensures
            h.spec_address() == address,
            h.spec_parent() == parent,
    {
        RemoteChildHandle { address, parent }
    }

    /// The child's address.
    pub fn address(&self) -> (a: &ActorAddress)
        ensures
            *a == self.spec_address(),
    {
        &self.address
    }

    /// The parent's address.
    pub fn parent(&self) -> (a: &ActorAddress)
        ensures
            *a == self.spec_parent(),
    {
        &self.parent
    }

    /// The envelope that delivers `signal` to the child.
    pub fn signal(&self, signal: SupervisionSignal) -> (e: SupervisionEnvelope)
        ensures
            e.correlation_id == 0,
            e.event == (SupervisionEvent::Signal { target: self.spec_address(), signal }),
    {
        SupervisionEnvelope { correlation_id: 0, event: SupervisionEvent::Signal { target: self.address.duplicate(), signal } }
    }

    /// The envelope that asks the child to stop.
    pub fn stop(&self) -> (e: SupervisionEnvelope)
        ensures
            e.correlation_id == 0,
            e.event == (SupervisionEvent::Signal { target: self.spec_address(), signal: SupervisionSignal::Stop }),
    {
        self.signal(SupervisionSignal::Stop)
    }

    /// The envelope that asks the child to shut down.
    pub fn shutdown(&self) -> (e: SupervisionEnvelope)
        ensures
            e.correlation_id == 0,
            e.event == (SupervisionEvent::Signal { target: self.spec_address(), signal: SupervisionSignal::Shutdown }),
    {
        self.signal(SupervisionSignal::Shutdown)
    }

    /// The envelope that kills the child.
    pub fn kill(&self) -> (e: SupervisionEnvelope)
        ensures
            e.correlation_id == 0,
            e.event == (SupervisionEvent::Signal { target: self.spec_address(), signal: SupervisionSignal::Kill }),
    {
        self.signal(SupervisionSignal::Kill)
    }
}

/// The signal that applies a shutdown policy to a child: a kill for a brutal
/// kill, a shutdown request otherwise.
pub open spec fn policy_signal(shutdown: ShutdownType) -> SupervisionSignal {
    match shutdown {
        ShutdownType::BrutalKill => SupervisionSignal::Kill,
        _ => SupervisionSignal::Shutdown,
    }
}

/// Apply a shutdown policy to a remote child without waiting: the envelope
/// to publish.
pub fn shutdown_remote(remote: &RemoteChildHandle, shutdown: ShutdownType) -> (e: SupervisionEnvelope)
    ensures
        e.correlation_id == 0,
        e.event == (SupervisionEvent::Signal { target: remote.spec_address(), signal: policy_signal(shutdown) }),
{
    match shutdown {
        ShutdownType::BrutalKill => remote.kill(),
        _ => remote.shutdown(),
    }
}

/// The first wait of a remote shutdown, in nanoseconds (`None`: unbounded):
/// a killed child gets the kill grace, a child asked to shut down gets the
/// policy's timeout, or unbounded time.
pub open spec fn first_remote_wait(shutdown: ShutdownType) -> Option<nat> {
    match shutdown {
        ShutdownType::BrutalKill => Some((KILL_GRACE_MILLIS * 1000000) as nat),
        ShutdownType::Infinity => None,
        ShutdownType::Timeout(d) => Some(d@),
    }
}

/// The signal and the first wait of a remote shutdown.
pub fn remote_shutdown_plan(shutdown: ShutdownType) -> (r: (SupervisionSignal, Option<Duration>))
    ensures
        r.0 == policy_signal(shutdown),
        match first_remote_wait(shutdown) {
            None => r.1 is None,
            Some(n) => r.1 matches Some(d) && d@ == n,
        },
{
    match shutdown {
        ShutdownType::BrutalKill => (SupervisionSignal::Kill, Some(Duration::from_millis(KILL_GRACE_MILLIS))),
        ShutdownType::Infinity => (SupervisionSignal::Shutdown, None),
        ShutdownType::Timeout(d) => (SupervisionSignal::Shutdown, Some(d)),
    }
}

/// Whether a remote shutdown escalates to a kill after its first wait: only a
/// timeout policy does, when the wait failed (blocking waiters escalate on
/// any failure, async ones only on a timeout).
pub open spec fn escalates(shutdown: ShutdownType, waited: Result<(), RemoteShutdownError>, blocking: bool) -> bool {
    &&& shutdown is Timeout
    &&& waited is Err
    &&& (blocking || waited == Err::<(), RemoteShutdownError>(RemoteShutdownError::Timeout))
}

/// Decide whether a remote shutdown escalates to a kill after its first wait.
pub fn remote_shutdown_escalates(shutdown: ShutdownType, waited: &Result<(), RemoteShutdownError>, blocking: bool) -> (b: bool)
    ensures
        b == escalates(shutdown, *waited, blocking),
{
    match shutdown {
        ShutdownType::Timeout(_) => match waited {
            Ok(()) => false,
            Err(RemoteShutdownError::Timeout) => true,
            Err(_) => blocking,
        },
        _ => false,
    }
}

/// Pending remote shutdown waits: the completion of each remote child whose
/// exit is awaited, by actor id.
pub struct ShutdownWaits<T> {
    waits: HashMap<u64, T>,
}

impl<T> View for ShutdownWaits<T> {
    type V = Map<u64, T>;

    closed spec fn view(&self) -> Map<u64, T> {
        self.waits@
    }
}

impl<T> ShutdownWaits<T> {
    /// No pending waits.
    pub fn new() -> (w: Self)
        ensures
            w@ == Map::<u64, T>::empty(),
    {
        ShutdownWaits { waits: HashMap::new() }
    }

    /// Await the exit of remote child `actor_id` through `completion`,
    /// replacing an earlier wait for it.
    pub fn register_shutdown_wait(&mut self, actor_id: u64, completion: T)
        ensures
            final(self)@ == old(self)@.insert(actor_id, completion),
    {
        self.waits.insert(actor_id, completion);
    }

    /// Stop awaiting remote child `actor_id`.
    pub fn clear_shutdown_wait(&mut self, actor_id: u64)
        ensures
            final(self)@ == old(self)@.remove(actor_id),
    {
        self.waits.remove(&actor_id);
    }

    /// The exit of remote child `actor_id` arrived: its pending wait, if any,
    /// is taken out to be completed.
    pub fn complete_remote_shutdown_wait(&mut self, actor_id: u64) -> (r: Option<T>)
        ensures
            final(self)@ == old(self)@.remove(actor_id),
            match r {
                Some(c) => old(self)@.contains_key(actor_id) && c == old(self)@[actor_id],
                None => !old(self)@.contains_key(actor_id),
            },
    {
        self.waits.remove(&actor_id)
    }
}

/// Completing a wait answers the registration: a registered wait is
/// completed with the completion it was registered with, once.
pub proof fn lemma_complete_answers_register<T>(waits: Map<u64, T>, actor_id: u64, completion: T)
    ensures
        waits.insert(actor_id, completion).contains_key(actor_id),
        waits.insert(actor_id, completion)[actor_id] == completion,
        !waits.insert(actor_id, completion).remove(actor_id).contains_key(actor_id),
{
}

/// Overrides that carry a child spec's restart policy and process group to
/// the placement node.
pub fn overrides_from_spec<S>(spec: &ChildSpec<S>) -> (o: RemoteSpecOverrides)
    ensures
        o.restart == Some(spec.restart),
        match spec.pg_membership {
            Some(pg) => o.pg_scope == Some(pg.scope) && o.pg_group == Some(pg.group),
            None => o.pg_scope is None && o.pg_group is None,
        },
{
    let (pg_scope, pg_group) = match &spec.pg_membership {
        Some(pg) => (Some(pg.scope.clone()), Some(pg.group.clone())),
        None => (None, None),
    };
    RemoteSpecOverrides { restart: Some(spec.restart), pg_scope, pg_group }
}

/// Apply overrides to a named spec before it starts: a restart override
/// replaces the policy; a scope and group together replace the process group.
pub fn apply_overrides<S>(spec: &mut ChildSpec<S>, overrides: &RemoteSpecOverrides)
    ensures
        final(spec).restart == match overrides.restart {
            Some(r) => r,
            None => old(spec).restart,
        },
        final(spec).pg_membership == match (overrides.pg_scope, overrides.pg_group) {
            (Some(scope), Some(group)) => Some(PgMembership { scope, group }),
            _ => old(spec).pg_membership,
        },
        final(spec).id == old(spec).id,
        final(spec).shutdown == old(spec).shutdown,
        final(spec).child_type == old(spec).child_type,
        final(spec).mailbox == old(spec).mailbox,
        final(spec).backoff == old(spec).backoff,
        final(spec).start == old(spec).start,
{
    if let Some(restart) = overrides.restart {
        spec.restart = restart;
    }
    match (&overrides.pg_scope, &overrides.pg_group) {
        (Some(scope), Some(group)) => {
            spec.pg_membership = Some(PgMembership { scope: scope.clone(), group: group.clone() });
        },
        _ => {},
    }
}


/// Whether a wait argument is the wait a plan calls for (`None`: unbounded).
pub open spec fn wait_is(w: Option<Duration>, n: Option<nat>) -> bool {
    match (w, n) {
        (None, None) => true,
        (Some(d), Some(m)) => d@ == m,
        _ => false,
    }
}

/// What a remote shutdown does after its first wait.
#[derive(Debug)]
pub enum RemoteShutdownStep {
    /// The shutdown is over with this outcome.
    Done(Result<(), RemoteShutdownError>),
    /// Publish this kill envelope, then wait `grace`; that wait's outcome is
    /// the shutdown's outcome.
    Escalate { kill: SupervisionEnvelope, grace: Duration },
}

/// First step of a remote shutdown of `remote` under `shutdown`: the
/// envelope to publish and the first wait (`None`: unbounded). The caller
/// registers the wait for the child before publishing.
pub fn begin_remote_shutdown(remote: &RemoteChildHandle, shutdown: ShutdownType) -> (r: (SupervisionEnvelope, Option<Duration>))
    ensures
        r.0 == (SupervisionEnvelope {
            correlation_id: 0,
            event: SupervisionEvent::Signal { target: remote.spec_address(), signal: policy_signal(shutdown) },
        }),
        wait_is(r.1, first_remote_wait(shutdown)),
{
    let (signal, first_wait) = remote_shutdown_plan(shutdown);
    (remote.signal(signal), first_wait)
}

/// Second step of a remote shutdown: after the first wait gave `waited`,
/// either it is over, or a timeout policy escalates to a kill followed by the
/// kill grace (`blocking` selects the escalation rule of blocking waiters).
pub fn after_remote_wait(
    remote: &RemoteChildHandle,
    shutdown: ShutdownType,
    waited: Result<(), RemoteShutdownError>,
    blocking: bool,
) -> (step: RemoteShutdownStep)
    ensures
        escalates(shutdown, waited, blocking) ==> (step matches RemoteShutdownStep::Escalate { kill, grace }
            && kill == (SupervisionEnvelope {
                correlation_id: 0,
                event: SupervisionEvent::Signal { target: remote.spec_address(), signal: SupervisionSignal::Kill },
            })
            && grace@ == (KILL_GRACE_MILLIS * 1000000) as nat),
        !escalates(shutdown, waited, blocking) ==> step == RemoteShutdownStep::Done(waited),
{
    if remote_shutdown_escalates(shutdown, &waited, blocking) {
        RemoteShutdownStep::Escalate { kill: remote.kill(), grace: Duration::from_millis(KILL_GRACE_MILLIS) }
    } else {
        RemoteShutdownStep::Done(waited)
    }
}

/// Which actor runtime a registration belongs to.
#[derive(Debug, Clone, Copy, PartialEq, Eq, Structural)]
pub enum SpawnRuntime {
    Tasks,
    Threads,
}

/// Entries registered under name `n`.
pub open spec fn named<V>(n: Seq<char>) -> spec_fn((String, V)) -> bool {
    |e: (String, V)| e.0@ == n
}

/// What is registered under name `n`, the first registration winning.
pub open spec fn registered_as<V>(s: Seq<(String, V)>, n: Seq<char>) -> Option<V> {
    let i = first_index(s, named::<V>(n));
    if 0 <= i < s.len() {
        Some(s[i].1)
    } else {
        None
    }
}

/// First position of an entry named `n`.
fn find_named<V>(v: &Vec<(String, V)>, n: &String) -> (r: Option<usize>)
    ensures
        match r {
            Some(i) => is_first(v@, named::<V>(n@), i as int),
            None => forall|i: int| 0 <= i < v.len() ==> !named::<V>(n@)(#[trigger] v@[i]),
        },
{
    let mut i: usize = 0;
    while i < v.len()
        invariant
            i <= v.len(),
            forall|j: int| 0 <= j < i ==> !named::<V>(n@)(#[trigger] v@[j]),
        decreases v.len() - i,
    {
        if v[i].0 == *n {
            return Some(i);
        }
        i = i + 1;
    }
    None
}

/// Lookup of name `n` by the first position that matches it.
proof fn lemma_registered_at<V>(s: Seq<(String, V)>, n: Seq<char>, r: Option<usize>)
    requires
        match r {
            Some(i) => is_first(s, named::<V>(n), i as int),
            None => forall|i: int| 0 <= i < s.len() ==> !named::<V>(n)(#[trigger] s[i]),
        },
    ensures
        match r {
            Some(i) => registered_as(s, n) == Some(s[i as int].1),
            None => registered_as(s, n) is None,
        },
{
    lemma_first_index(s, named::<V>(n));
}

/// The workers and named specs a runtime can start for remote requests.
pub struct RuntimeRegistry<W, N> {
    workers: Vec<(String, W)>,
    named_specs: Vec<(String, N)>,
}

/// Worker types and named specs registered for remote spawn, per runtime.
pub struct RemoteSpawnStore<W, N> {
    tasks: RuntimeRegistry<W, N>,
    threads: RuntimeRegistry<W, N>,
}

/// Abstract value of the remote spawn registrations.
pub struct SpawnStoreView<W, N> {
    pub tasks_workers: Seq<(String, W)>,
    pub tasks_specs: Seq<(String, N)>,
    pub threads_workers: Seq<(String, W)>,
    pub threads_specs: Seq<(String, N)>,
}

impl<W, N> View for RemoteSpawnStore<W, N> {
    type V = SpawnStoreView<W, N>;

    closed spec fn view(&self) -> SpawnStoreView<W, N> {
        SpawnStoreView {
            tasks_workers: self.tasks.workers@,
            tasks_specs: self.tasks.named_specs@,
            threads_workers: self.threads.workers@,
            threads_specs: self.threads.named_specs@,
        }
    }
}

/// Text of a refused duplicate worker registration.
pub open spec fn duplicate_worker_text(t: Seq<char>) -> Seq<char> {
    "worker type already registered: "@ + t
}

/// Text of a refused duplicate named spec registration.
pub open spec fn duplicate_spec_text(n: Seq<char>) -> Seq<char> {
    "named spec already registered: "@ + n
}

/// Text of a spawn request for an unknown worker type.
pub open spec fn unknown_worker_text(t: Seq<char>) -> Seq<char> {
    "unknown worker type: "@ + t
}

/// Text of a spawn request for an unknown named spec.
pub open spec fn unknown_spec_text(n: Seq<char>) -> Seq<char> {
    "unknown named spec: "@ + n
}

/// The worker a spawn request for `t` starts: tasks workers first.
pub open spec fn worker_for<W, N>(v: SpawnStoreView<W, N>, t: Seq<char>) -> Option<W> {
    match registered_as(v.tasks_workers, t) {
        Some(w) => Some(w),
        None => registered_as(v.threads_workers, t),
    }
}

/// The named spec factory a spawn request for `n` uses: tasks specs first.
pub open spec fn spec_for<W, N>(v: SpawnStoreView<W, N>, n: Seq<char>) -> Option<N> {
    match registered_as(v.tasks_specs, n) {
        Some(f) => Some(f),
        None => registered_as(v.threads_specs, n),
    }
}

impl<W, N> RemoteSpawnStore<W, N> {
    /// No registrations.
    pub fn new() -> (s: Self)
        ensures
            s@.tasks_workers.len() == 0,
            s@.tasks_specs.len() == 0,
            s@.threads_workers.len() == 0,
            s@.threads_specs.len() == 0,
    {
        RemoteSpawnStore {
            tasks: RuntimeRegistry { workers: Vec::new(), named_specs: Vec::new() },
            threads: RuntimeRegistry { workers: Vec::new(), named_specs: Vec::new() },
        }
    }

    /// Register a worker type for inbound remote spawn on `runtime`; refused
    /// when the type is already registered there.
    pub fn register_worker(&mut self, runtime: SpawnRuntime, worker_type: String, spawn: W) -> (r: Result<(), RemoteSpawnError>)
        ensures
            runtime is Tasks ==> {
                &&& final(self)@.tasks_specs == old(self)@.tasks_specs
                &&& final(self)@.threads_workers == old(self)@.threads_workers
                &&& final(self)@.threads_specs == old(self)@.threads_specs
                &&& if registered_as(old(self)@.tasks_workers, worker_type@) is Some {
                    (r matches Err(RemoteSpawnError::SpawnFailed(m)) && m@ == duplicate_worker_text(worker_type@))
                        && final(self)@.tasks_workers == old(self)@.tasks_workers
                } else {
                    r is Ok && final(self)@.tasks_workers == old(self)@.tasks_workers.push((worker_type, spawn))
                }
            },
            runtime is Threads ==> {
                &&& final(self)@.tasks_workers == old(self)@.tasks_workers
                &&& final(self)@.tasks_specs == old(self)@.tasks_specs
                &&& final(self)@.threads_specs == old(self)@.threads_specs
                &&& if registered_as(old(self)@.threads_workers, worker_type@) is Some {
                    (r matches Err(RemoteSpawnError::SpawnFailed(m)) && m@ == duplicate_worker_text(worker_type@))
                        && final(self)@.threads_workers == old(self)@.threads_workers
                } else {
                    r is Ok && final(self)@.threads_workers == old(self)@.threads_workers.push((worker_type, spawn))
                }
            },
    {
        let reg = match runtime {
            SpawnRuntime::Tasks => &mut self.tasks,
            SpawnRuntime::Threads => &mut self.threads,
        };
        let found = find_named(&reg.workers, &worker_type);
        proof {
            lemma_registered_at(reg.workers@, worker_type@, found);
        }
        if found.is_some() {
            return Err(RemoteSpawnError::SpawnFailed("worker type already registered: ".to_owned().concat(worker_type.as_str())));
        }
        reg.workers.push((worker_type, spawn));
        Ok(())
    }

    /// Register a named child spec factory for inbound remote spawn on
    /// `runtime`; refused when the name is already registered there.
    pub fn register_named_spec(&mut self, runtime: SpawnRuntime, name: String, factory: N) -> (r: Result<(), RemoteSpawnError>)
        ensures
            runtime is Tasks ==> {
                &&& final(self)@.tasks_workers == old(self)@.tasks_workers
                &&& final(self)@.threads_workers == old(self)@.threads_workers
                &&& final(self)@.threads_specs == old(self)@.threads_specs
                &&& if registered_as(old(self)@.tasks_specs, name@) is Some {
                    (r matches Err(RemoteSpawnError::SpawnFailed(m)) && m@ == duplicate_spec_text(name@))
                        && final(self)@.tasks_specs == old(self)@.tasks_specs
                } else {
                    r is Ok && final(self)@.tasks_specs == old(self)@.tasks_specs.push((name, factory))
                }
            },
            runtime is Threads ==> {
                &&& final(self)@.tasks_workers == old(self)@.tasks_workers
                &&& final(self)@.tasks_specs == old(self)@.tasks_specs
                &&& final(self)@.threads_workers == old(self)@.threads_workers
                &&& if registered_as(old(self)@.threads_specs, name@) is Some {
                    (r matches Err(RemoteSpawnError::SpawnFailed(m)) && m@ == duplicate_spec_text(name@))
                        && final(self)@.threads_specs == old(self)@.threads_specs
                } else {
                    r is Ok && final(self)@.threads_specs == old(self)@.threads_specs.push((name, factory))
                }
            },
    {
        let reg = match runtime {
            SpawnRuntime::Tasks => &mut self.tasks,
            SpawnRuntime::Threads => &mut self.threads,
        };
        let found = find_named(&reg.named_specs, &name);
        proof {
            lemma_registered_at(reg.named_specs@, name@, found);
        }
        if found.is_some() {
            return Err(RemoteSpawnError::SpawnFailed("named spec already registered: ".to_owned().concat(name.as_str())));
        }
        reg.named_specs.push((name, factory));
        Ok(())
    }

    /// The worker that starts a remote spawn of `worker_type`: a tasks
    /// registration first, then a threads one, else the refusal text.
    pub fn resolve_worker(&self, worker_type: &str) -> (r: Result<&W, String>)
        ensures
            match worker_for(self@, worker_type@) {
                Some(w) => r matches Ok(x) && *x == w,
                None => r matches Err(m) && m@ == unknown_worker_text(worker_type@),
            },
    {
        let key = worker_type.to_owned();
        let t = find_named(&self.tasks.workers, &key);
        proof {
            lemma_registered_at(self.tasks.workers@, worker_type@, t);
        }
        if let Some(i) = t {
            return Ok(&self.tasks.workers[i].1);
        }
        let h = find_named(&self.threads.workers, &key);
        proof {
            lemma_registered_at(self.threads.workers@, worker_type@, h);
        }
        if let Some(i) = h {
            return Ok(&self.threads.workers[i].1);
        }
        Err("unknown worker type: ".to_owned().concat(worker_type))
    }

    /// The factory of named spec `name`: a tasks registration first, then a
    /// threads one, else the refusal text.
    pub fn resolve_named_spec(&self, name: &str) -> (r: Result<&N, String>)
        ensures
            match spec_for(self@, name@) {
                Some(f) => r matches Ok(x) && *x == f,
                None => r matches Err(m) && m@ == unknown_spec_text(name@),
            },
    {
        let key = name.to_owned();
        let t = find_named(&self.tasks.named_specs, &key);
        proof {
            lemma_registered_at(self.tasks.named_specs@, name@, t);
        }
        if let Some(i) = t {
            return Ok(&self.tasks.named_specs[i].1);
        }
        let h = find_named(&self.threads.named_specs, &key);
        proof {
            lemma_registered_at(self.threads.named_specs@, name@, h);
        }
        if let Some(i) = h {
            return Ok(&self.threads.named_specs[i].1);
        }
        Err("unknown named spec: ".to_owned().concat(name))
    }
}

/// A named spec after the overrides of a spawn request: a restart override
/// replaces the policy; a scope and group together replace the process group.
pub open spec fn overridden<S>(spec: ChildSpec<S>, o: RemoteSpecOverrides) -> ChildSpec<S> {
    ChildSpec {
        restart: match o.restart {
            Some(r) => r,
            None => spec.restart,
        },
        pg_membership: match (o.pg_scope, o.pg_group) {
            (Some(scope), Some(group)) => Some(PgMembership { scope, group }),
            _ => spec.pg_membership,
        },
        ..spec
    }
}

/// The parent a worker is started under: only a linked spawn hands it on.
pub open spec fn link_parent<P>(link: bool, parent: Option<&P>) -> Option<&P> {
    if link { parent } else { None }
}

/// The parent a worker is started under: only a linked spawn hands it on.
pub fn worker_parent<'a, P>(link: bool, parent: Option<&'a P>) -> (r: Option<&'a P>)
    ensures
        r == link_parent(link, parent),
{
    if link { parent } else { None }
}

/// What preparing named spec `name` gives: refused without a parent or a
/// link, or for an unknown name; else the registered factory's spec with
/// the request's overrides, to be started under the parent.
pub open spec fn named_prepared<W, N, S>(
    v: SpawnStoreView<W, N>,
    name: Seq<char>,
    overrides: RemoteSpecOverrides,
    link: bool,
    has_parent: bool,
    r: Result<ChildSpec<S>, String>,
) -> bool
    where N: Fn() -> ChildSpec<S>,
{
    if !has_parent {
        r matches Err(m) && m@ == named_needs_parent_text()
    } else if !link {
        r matches Err(m) && m@ == named_needs_link_text()
    } else {
        match spec_for(v, name) {
            None => r matches Err(m) && m@ == unknown_spec_text(name),
            Some(f) => exists|made: ChildSpec<S>| #[trigger] call_ensures(f, (), made)
                && r == Ok::<ChildSpec<S>, String>(overridden(made, overrides)),
        }
    }
}

impl<W, N> RemoteSpawnStore<W, N> {
    /// The spec a named remote spawn starts under its parent: the registered
    /// factory's, with the request's overrides applied; it needs a parent
    /// handle (`has_parent`) and a link.
    pub fn prepare_named_spec<S>(
        &self,
        name: &str,
        overrides: &RemoteSpecOverrides,
        link: bool,
        has_parent: bool,
    ) -> (r: Result<ChildSpec<S>, String>)
        where N: Fn() -> ChildSpec<S>,
        requires
            spec_for(self@, name@) matches Some(f) ==> f.requires(()),
        ensures
            named_prepared(self@, name@, *overrides, link, has_parent, r),
    {
        if !has_parent {
            return Err("named remote spec requires link=true (parent handle)".to_owned());
        }
        if !link {
            return Err("named remote spec requires link=true".to_owned());
        }
        let factory = match self.resolve_named_spec(name) {
            Ok(f) => f,
            Err(m) => return Err(m),
        };
        let mut inner = factory();
        let ghost made = inner;
        apply_overrides(&mut inner, overrides);
        assert(inner == overridden(made, *overrides));
        Ok(inner)
    }
}

/// Register a named child spec template for remote spawn on `runtime`.
pub fn register_remote_spec<W, N>(store: &mut RemoteSpawnStore<W, N>, runtime: SpawnRuntime, name: String, factory: N) -> (r: Result<(), RemoteSpawnError>)
    ensures
        runtime is Tasks ==> {
            &&& final(store)@.tasks_workers == old(store)@.tasks_workers
            &&& final(store)@.threads_workers == old(store)@.threads_workers
            &&& final(store)@.threads_specs == old(store)@.threads_specs
            &&& if registered_as(old(store)@.tasks_specs, name@) is Some {
                (r matches Err(RemoteSpawnError::SpawnFailed(m)) && m@ == duplicate_spec_text(name@))
                    && final(store)@.tasks_specs == old(store)@.tasks_specs
            } else {
                r is Ok && final(store)@.tasks_specs == old(store)@.tasks_specs.push((name, factory))
            }
        },
        runtime is Threads ==> {
            &&& final(store)@.tasks_workers == old(store)@.tasks_workers
            &&& final(store)@.tasks_specs == old(store)@.tasks_specs
            &&& final(store)@.threads_workers == old(store)@.threads_workers
            &&& if registered_as(old(store)@.threads_specs, name@) is Some {
                (r matches Err(RemoteSpawnError::SpawnFailed(m)) && m@ == duplicate_spec_text(name@))
                    && final(store)@.threads_specs == old(store)@.threads_specs
            } else {
                r is Ok && final(store)@.threads_specs == old(store)@.threads_specs.push((name, factory))
            }
        },
{
    store.register_named_spec(runtime, name, factory)
}

/// Text of a named spawn refused without a parent handle.
pub open spec fn named_needs_parent_text() -> Seq<char> {
    "named remote spec requires link=true (parent handle)"@
}

/// Text of a named spawn refused without a link.
pub open spec fn named_needs_link_text() -> Seq<char> {
    "named remote spec requires link=true"@
}

/// Whether a named remote spec may start: it needs the broker's parent
/// handle and a link to it.
pub fn check_named_spawn(link: bool, has_parent: bool) -> (r: Result<(), String>)
    ensures
        !has_parent ==> (r matches Err(m) && m@ == named_needs_parent_text()),
        has_parent && !link ==> (r matches Err(m) && m@ == named_needs_link_text()),
        has_parent && link ==> r is Ok,
{
    if !has_parent {
        return Err("named remote spec requires link=true (parent handle)".to_owned());
    }
    if !link {
        return Err("named remote spec requires link=true".to_owned());
    }
    Ok(())
}


/// A registration is what a later lookup finds: after `w` is registered
/// under a name that was free, looking the name up gives `w`.
pub proof fn lemma_lookup_after_registration<V>(s: Seq<(String, V)>, name: String, w: V)
    requires
        registered_as(s, name@) is None,
    ensures
        registered_as(s.push((name, w)), name@) == Some(w),
{
    let p = named::<V>(name@);
    lemma_first_index(s, p);
    if exists|i: int| 0 <= i < s.len() && p(s[i]) {
        assert(is_first(s, p, first_index(s, p)));
    }
    let t = s.push((name, w));
    assert forall|j: int| 0 <= j < s.len() implies !p(#[trigger] t[j]) by {
        assert(t[j] == s[j]);
    }
    assert(is_first(t, p, s.len() as int));
    lemma_first_index(t, p);
}


/// Stable wire id of a remote actor or message type named `kind_name`.
pub open spec fn remote_id_text(kind_name: Seq<char>) -> Seq<char> {
    "spawned."@ + kind_name + "/v1"@
}

/// The stable wire id a remote actor or message type is registered under:
/// `spawned.<TypeName>/v1`.
pub fn remote_id(kind_name: &str) -> (s: String)
    ensures
        s@ == remote_id_text(kind_name@),
{
    let mut s = "spawned.".to_owned();
    s.append(kind_name);
    s.append("/v1");
    s
}

} // verus!
