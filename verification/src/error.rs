use vstd::prelude::*;

verus! {

/// Why an actor stopped.
#[derive(Debug, Clone, PartialEq, Eq)]
pub enum ExitReason {
    /// The actor finished its work and stopped on its own.
    Normal,
    /// The actor was asked to shut down by its supervisor.
    Shutdown,
    /// The actor was killed without running its `stopped()` callback.
    Kill,
    /// The actor panicked; the payload is the panic message.
    Panic(String),
}

/// An exit is abnormal unless it was a normal stop or a requested shutdown.
pub open spec fn spec_is_abnormal(reason: ExitReason) -> bool {
    !(reason is Normal || reason is Shutdown)
}

impl ExitReason {
    /// Whether this exit counts as abnormal (a kill or a panic).
    pub fn is_abnormal(&self) -> (b: bool)
        ensures
            b == spec_is_abnormal(*self),
    {
        match self {
            ExitReason::Normal => false,
            ExitReason::Shutdown => false,
            ExitReason::Kill => true,
            ExitReason::Panic(_) => true,
        }
    }
}

impl ExitReason {
    /// A copy of this exit reason.
    pub fn duplicate(&self) -> (r: ExitReason)
        ensures
            r == *self,
    {
        match self {
            ExitReason::Normal => ExitReason::Normal,
            ExitReason::Shutdown => ExitReason::Shutdown,
            ExitReason::Kill => ExitReason::Kill,
            ExitReason::Panic(m) => ExitReason::Panic(m.clone()),
        }
    }
}

/// Errors returned when sending to or calling an actor.
#[derive(Debug, Clone, Copy, PartialEq, Eq, Structural)]
pub enum ActorError {
    /// The actor has stopped and no longer accepts messages.
    ActorStopped,
    /// A bounded fail-fast mailbox was full.
    MailboxFull,
    /// The actor lives on a node that cannot be reached.
    RemoteUnreachable,
}

/// The exit reason an actor reports once it has stopped: a reason requested
/// before cancellation wins; otherwise a normal exit is replaced by the reason
/// propagated from a linked actor, if any.
pub open spec fn resolved_exit_reason(
    exit_reason: ExitReason,
    requested: Option<ExitReason>,
    linked: Option<ExitReason>,
) -> ExitReason {
    match requested {
        Some(r) => r,
        None => match linked {
            Some(l) if exit_reason is Normal => l,
            _ => exit_reason,
        },
    }
}

/// Merge the handler's exit reason with the requested and linked overrides,
/// consuming the override that was used.
pub fn resolve_exit_reason(
    exit_reason: ExitReason,
    requested: &mut Option<ExitReason>,
    linked_reason: &mut Option<ExitReason>,
) -> (r: ExitReason)
    ensures
        r == resolved_exit_reason(exit_reason, *old(requested), *old(linked_reason)),
        *final(requested) is None,
        *old(requested) is None && exit_reason is Normal ==> *final(linked_reason) is None,
        !(*old(requested) is None && exit_reason is Normal) ==> *final(linked_reason) == *old(linked_reason),
{
    if let Some(reason) = requested.take() {
        return reason;
    }
    if let ExitReason::Normal = exit_reason {
        if let Some(linked) = linked_reason.take() {
            return linked;
        }
    }
    exit_reason
}

} // verus!
