use vstd::prelude::*;
use crate::ids::{ActorId, NodeId};
use crate::time::Duration;

verus! {

/// A supervision measurement to hand to the installed recorder.
#[derive(Debug)]
pub enum RecorderEvent {
    /// A child restart was scheduled.
    Restart { supervisor: ActorId, child_id: String, remote: bool },
    /// A supervisor exceeded its restart intensity.
    Meltdown { supervisor: ActorId },
    /// A remote spawn finished, successfully or not, after `duration`.
    RemoteSpawn { placement: NodeId, duration: Duration, ok: bool },
    /// A remote spawn is retried.
    RemoteSpawnRetry { placement: NodeId },
}

/// Hook for supervision counters and latencies, implemented by users.
///
/// Each implementation says, with the `with_*` spec functions, what its
/// state becomes once a hook has taken in a measurement; its hooks are held
/// to that.
pub trait SupervisionRecorder: Sized {
    /// The recorder once it has counted a restart.
    spec fn with_restart(self, supervisor: ActorId, child_id: Seq<char>, remote: bool) -> Self;

    /// The recorder once it has counted a meltdown.
    spec fn with_meltdown(self, supervisor: ActorId) -> Self;

    /// The recorder once it has recorded a finished remote spawn.
    spec fn with_remote_spawn(self, placement: NodeId, duration: Duration, ok: bool) -> Self;

    /// The recorder once it has counted a remote spawn retry.
    spec fn with_remote_spawn_retry(self, placement: NodeId) -> Self;

    fn inc_restart(&mut self, supervisor: ActorId, child_id: &str, remote: bool)
        ensures
            *final(self) == old(self).with_restart(supervisor, child_id@, remote);

    fn inc_meltdown(&mut self, supervisor: ActorId)
        ensures
            *final(self) == old(self).with_meltdown(supervisor);

    fn record_remote_spawn(&mut self, placement: &NodeId, duration: Duration, ok: bool)
        ensures
            *final(self) == old(self).with_remote_spawn(*placement, duration, ok);

    fn inc_remote_spawn_retry(&mut self, placement: &NodeId)
        ensures
            *final(self) == old(self).with_remote_spawn_retry(*placement);
}

/// Hand an event to a recorder: each event calls its own hook once, and the
/// recorder ends as that hook leaves it.
pub fn record<R: SupervisionRecorder>(recorder: &mut R, event: RecorderEvent)
    ensures
        match event {
            RecorderEvent::Restart { supervisor, child_id, remote } =>
                *final(recorder) == old(recorder).with_restart(supervisor, child_id@, remote),
            RecorderEvent::Meltdown { supervisor } => *final(recorder) == old(recorder).with_meltdown(supervisor),
            RecorderEvent::RemoteSpawn { placement, duration, ok } =>
                *final(recorder) == old(recorder).with_remote_spawn(placement, duration, ok),
            RecorderEvent::RemoteSpawnRetry { placement } =>
                *final(recorder) == old(recorder).with_remote_spawn_retry(placement),
        },
{
    match event {
        RecorderEvent::Restart { supervisor, child_id, remote } => recorder.inc_restart(supervisor, child_id.as_str(), remote),
        RecorderEvent::Meltdown { supervisor } => recorder.inc_meltdown(supervisor),
        RecorderEvent::RemoteSpawn { placement, duration, ok } => recorder.record_remote_spawn(&placement, duration, ok),
        RecorderEvent::RemoteSpawnRetry { placement } => recorder.inc_remote_spawn_retry(&placement),
    }
}

/// A restart of `child_id` was scheduled after `backoff`: counted as a restart.
pub fn restart_scheduled(supervisor: ActorId, child_id: &str, backoff: Duration, remote: bool) -> (e: RecorderEvent)
    ensures
        e matches RecorderEvent::Restart { supervisor: s, child_id: c, remote: r }
            && s == supervisor && c@ == child_id@ && r == remote,
{
    RecorderEvent::Restart { supervisor, child_id: child_id.to_owned(), remote }
}

/// A supervisor melted down: counted as a meltdown.
pub fn meltdown(supervisor: ActorId) -> (e: RecorderEvent)
    ensures
        e == (RecorderEvent::Meltdown { supervisor }),
{
    RecorderEvent::Meltdown { supervisor }
}

/// A remote spawn of `child_id` on `placement` finished after `duration`;
/// the child's id only names it in traces.
pub fn remote_spawn(placement: &NodeId, child_id: &str, duration: Duration, ok: bool) -> (e: RecorderEvent)
    ensures
        e matches RecorderEvent::RemoteSpawn { placement: p, duration: d, ok: o }
            && p == *placement && d == duration && o == ok,
{
    RecorderEvent::RemoteSpawn { placement: placement.duplicate(), duration, ok }
}

/// Attempt `attempt` of `max_attempts` of a remote spawn on `placement` is
/// retried; the attempt numbers only appear in traces.
pub fn remote_spawn_retry(placement: &NodeId, attempt: u32, max_attempts: u32) -> (e: RecorderEvent)
    ensures
        e == (RecorderEvent::RemoteSpawnRetry { placement: *placement }),
{
    RecorderEvent::RemoteSpawnRetry { placement: placement.duplicate() }
}

/// A recorder that counts what it is told, for tests.
#[derive(Debug)]
pub struct TestRecorder {
    pub restarts: u32,
    pub meltdowns: u32,
    pub remote_spawns: u32,
    pub remote_spawn_retries: u32,
}

impl TestRecorder {
    /// A recorder with every count at zero.
    pub fn new() -> (r: Self)
        ensures
            r.restarts == 0,
            r.meltdowns == 0,
            r.remote_spawns == 0,
            r.remote_spawn_retries == 0,
    {
        TestRecorder { restarts: 0, meltdowns: 0, remote_spawns: 0, remote_spawn_retries: 0 }
    }
}

impl SupervisionRecorder for TestRecorder {
    open spec fn with_restart(self, supervisor: ActorId, child_id: Seq<char>, remote: bool) -> Self {
        TestRecorder { restarts: self.restarts.wrapping_add(1), ..self }
    }

    open spec fn with_meltdown(self, supervisor: ActorId) -> Self {
        TestRecorder { meltdowns: self.meltdowns.wrapping_add(1), ..self }
    }

    open spec fn with_remote_spawn(self, placement: NodeId, duration: Duration, ok: bool) -> Self {
        TestRecorder { remote_spawns: self.remote_spawns.wrapping_add(1), ..self }
    }

    open spec fn with_remote_spawn_retry(self, placement: NodeId) -> Self {
        TestRecorder { remote_spawn_retries: self.remote_spawn_retries.wrapping_add(1), ..self }
    }

    fn inc_restart(&mut self, supervisor: ActorId, child_id: &str, remote: bool)
        ensures
            final(self).restarts == old(self).restarts.wrapping_add(1),
            final(self).meltdowns == old(self).meltdowns,
            final(self).remote_spawns == old(self).remote_spawns,
            final(self).remote_spawn_retries == old(self).remote_spawn_retries,
    {
        self.restarts = self.restarts.wrapping_add(1);
    }

    fn inc_meltdown(&mut self, supervisor: ActorId)
        ensures
            final(self).meltdowns == old(self).meltdowns.wrapping_add(1),
            final(self).restarts == old(self).restarts,
            final(self).remote_spawns == old(self).remote_spawns,
            final(self).remote_spawn_retries == old(self).remote_spawn_retries,
    {
        self.meltdowns = self.meltdowns.wrapping_add(1);
    }

    fn record_remote_spawn(&mut self, placement: &NodeId, duration: Duration, ok: bool)
        ensures
            final(self).remote_spawns == old(self).remote_spawns.wrapping_add(1),
            final(self).restarts == old(self).restarts,
            final(self).meltdowns == old(self).meltdowns,
            final(self).remote_spawn_retries == old(self).remote_spawn_retries,
    {
        self.remote_spawns = self.remote_spawns.wrapping_add(1);
    }

    fn inc_remote_spawn_retry(&mut self, placement: &NodeId)
        ensures
            final(self).remote_spawn_retries == old(self).remote_spawn_retries.wrapping_add(1),
            final(self).restarts == old(self).restarts,
            final(self).meltdowns == old(self).meltdowns,
            final(self).remote_spawns == old(self).remote_spawns,
    {
        self.remote_spawn_retries = self.remote_spawn_retries.wrapping_add(1);
    }
}

} // verus!
