use vstd::prelude::*;
use crate::error::ActorError;

verus! {

/// Default bounded capacity for supervised worker children.
pub const DEFAULT_WORKER_CAPACITY: usize = 64;

/// How a bounded mailbox behaves when at capacity.
#[derive(Debug, Clone, Copy, PartialEq, Eq, Structural)]
pub enum BackpressureMode {
    /// Return `MailboxFull` immediately.
    FailFast,
    /// Wait until capacity is available.
    Block,
}

impl Default for BackpressureMode {
    fn default() -> (m: Self)
        ensures
            m is FailFast,
    {
        BackpressureMode::FailFast
    }
}

/// Mailbox buffering policy for an actor.
#[derive(Debug, Clone, Copy, PartialEq, Eq, Structural)]
pub struct MailboxConfig {
    capacity: Option<usize>,
    mode: BackpressureMode,
}

impl MailboxConfig {
    /// Configured capacity, in specifications.
    pub closed spec fn spec_capacity(&self) -> Option<usize> {
        self.capacity
    }

    /// Configured backpressure mode, in specifications.
    pub closed spec fn spec_mode(&self) -> BackpressureMode {
        self.mode
    }

    /// No limit on queued user messages (the default).
    pub fn unbounded() -> (c: Self)
        ensures
            c.spec_capacity() is None,
            c.spec_mode() is FailFast,
    {
        MailboxConfig { capacity: None, mode: BackpressureMode::FailFast }
    }

    /// Bounded fail-fast mailbox of the default worker capacity.
    pub fn default_worker() -> (c: Self)
        ensures
            c.spec_capacity() == Some(DEFAULT_WORKER_CAPACITY),
            c.spec_mode() is FailFast,
    {
        MailboxConfig { capacity: Some(DEFAULT_WORKER_CAPACITY), mode: BackpressureMode::FailFast }
    }

    /// Configured capacity, or `None` when unbounded.
    pub fn capacity(&self) -> (c: Option<usize>)
        ensures
            c == self.spec_capacity(),
    {
        self.capacity
    }

    /// Configured backpressure mode.
    pub fn mode(&self) -> (m: BackpressureMode)
        ensures
            m == self.spec_mode(),
    {
        self.mode
    }

    /// Fixed capacity; sends fail with `MailboxFull` when full.
    pub fn bounded(capacity: usize) -> (c: Self)
        requires
            capacity > 0,
        ensures
            c.spec_capacity() == Some(capacity),
            c.spec_mode() is FailFast,
    {
        MailboxConfig { capacity: Some(capacity), mode: BackpressureMode::FailFast }
    }

    /// Fixed capacity; senders block until space is available.
    pub fn bounded_blocking(capacity: usize) -> (c: Self)
        requires
            capacity > 0,
        ensures
            c.spec_capacity() == Some(capacity),
            c.spec_mode() is Block,
    {
        MailboxConfig { capacity: Some(capacity), mode: BackpressureMode::Block }
    }
}

impl Default for MailboxConfig {
    fn default() -> (c: Self)
        ensures
            c.spec_capacity() is None,
            c.spec_mode() is FailFast,
    {
        Self::unbounded()
    }
}

/// A mailbox configuration is its capacity and its mode: two configurations
/// that agree on both are equal. So the default configuration is the
/// unbounded fail-fast one.
pub proof fn lemma_config_equal(a: MailboxConfig, b: MailboxConfig)
    requires
        a.spec_capacity() == b.spec_capacity(),
        a.spec_mode() == b.spec_mode(),
    ensures
        a == b,
{
}


/// Which runtime an actor mailbox is bound to; it decides how blocked
/// senders wait.
#[derive(Debug, Clone, Copy, PartialEq, Eq, Structural)]
pub enum MailboxRuntime {
    Tasks,
    Threads,
}

/// What blocked senders of a mailbox wait on.
#[derive(Debug, Clone, Copy, PartialEq, Eq, Structural)]
pub enum BlockWaiter {
    /// Senders never block.
    NoWaiter,
    /// A condition variable, for thread senders.
    Condvar,
    /// An async notification, for task senders.
    Notify,
}

/// The waiter a mailbox with this configuration needs on this runtime:
/// only a bounded blocking mailbox has one.
pub open spec fn spec_block_waiter(config: MailboxConfig, runtime: MailboxRuntime) -> BlockWaiter {
    if config.spec_capacity() is Some && config.spec_mode() is Block {
        match runtime {
            MailboxRuntime::Threads => BlockWaiter::Condvar,
            MailboxRuntime::Tasks => BlockWaiter::Notify,
        }
    } else {
        BlockWaiter::NoWaiter
    }
}

/// Choose the waiter for blocked senders.
pub fn block_waiter(config: MailboxConfig, runtime: MailboxRuntime) -> (w: BlockWaiter)
    ensures
        w == spec_block_waiter(config, runtime),
{
    let needs_block = config.capacity().is_some() && config.mode() == BackpressureMode::Block;
    if needs_block {
        match runtime {
            MailboxRuntime::Threads => BlockWaiter::Condvar,
            MailboxRuntime::Tasks => BlockWaiter::Notify,
        }
    } else {
        BlockWaiter::NoWaiter
    }
}

/// Depth counter of queued user messages, with the capacity limit of the
/// mailbox it guards.
pub struct MailboxLimits {
    capacity: Option<usize>,
    mode: BackpressureMode,
    depth: usize,
    waiter: BlockWaiter,
}

/// Depth after a dequeue or a rolled-back send: one less, wrapping at zero
/// as the shared counter does.
pub open spec fn released_depth(depth: usize) -> usize {
    if depth == 0 {
        usize::MAX
    } else {
        (depth - 1) as usize
    }
}

/// Depth after a fail-fast reservation, or `None` when it is refused: an
/// unbounded mailbox needs no place; a bounded one takes a place below its
/// capacity.
pub open spec fn try_acquired(capacity: Option<usize>, depth: usize) -> Option<usize> {
    match capacity {
        None => Some(depth),
        Some(cap) => if depth >= cap {
            None
        } else {
            Some((depth + 1) as usize)
        },
    }
}

/// What a sender may do after asking for a place in the mailbox.
#[derive(Debug, Clone, Copy, PartialEq, Eq, Structural)]
pub enum SendAdmission {
    /// A place is reserved (or none is needed): enqueue the message.
    Admitted,
    /// The blocking mailbox is full: wait for a dequeue, then ask again.
    MustWait,
}

impl MailboxLimits {
    /// Configured capacity, in specifications.
    pub closed spec fn spec_capacity(&self) -> Option<usize> {
        self.capacity
    }

    /// Backpressure mode, in specifications.
    pub closed spec fn spec_mode(&self) -> BackpressureMode {
        self.mode
    }

    /// Number of queued user messages, in specifications.
    pub closed spec fn spec_depth(&self) -> usize {
        self.depth
    }

    /// Waiter of blocked senders, in specifications.
    pub closed spec fn spec_waiter(&self) -> BlockWaiter {
        self.waiter
    }

    /// Limits for a fresh mailbox with this configuration on this runtime.
    pub fn new(config: MailboxConfig, runtime: MailboxRuntime) -> (l: Self)
        ensures
            l.spec_capacity() == config.spec_capacity(),
            l.spec_mode() == config.spec_mode(),
            l.spec_depth() == 0,
            l.spec_waiter() == spec_block_waiter(config, runtime),
    {
        MailboxLimits {
            capacity: config.capacity(),
            mode: config.mode(),
            depth: 0,
            waiter: block_waiter(config, runtime),
        }
    }

    /// Current number of queued user messages.
    pub fn depth(&self) -> (d: usize)
        ensures
            d == self.spec_depth(),
    {
        self.depth
    }

    /// Configured capacity, or `None` when unbounded.
    pub fn capacity(&self) -> (c: Option<usize>)
        ensures
            c == self.spec_capacity(),
    {
        self.capacity
    }

    /// Reserve a place for one user message without waiting: refused with
    /// `MailboxFull` when a bounded mailbox is at capacity.
    pub fn try_acquire(&mut self) -> (r: Result<(), ActorError>)
        ensures
            final(self).spec_capacity() == old(self).spec_capacity(),
            final(self).spec_mode() == old(self).spec_mode(),
            final(self).spec_waiter() == old(self).spec_waiter(),
            match try_acquired(old(self).spec_capacity(), old(self).spec_depth()) {
                Some(d) => r is Ok && final(self).spec_depth() == d,
                None => r == Err::<(), ActorError>(ActorError::MailboxFull)
                    && final(self).spec_depth() == old(self).spec_depth(),
            },
    {
        match self.capacity {
            None => Ok(()),
            Some(cap) => {
                if self.depth >= cap {
                    Err(ActorError::MailboxFull)
                } else {
                    self.depth = self.depth + 1;
                    Ok(())
                }
            },
        }
    }

    /// One attempt of a blocking sender to reserve a place: true when it got
    /// one (or none is needed), false when it must wait for a dequeue.
    pub fn try_acquire_blocking(&mut self) -> (acquired: bool)
        ensures
            final(self).spec_capacity() == old(self).spec_capacity(),
            final(self).spec_mode() == old(self).spec_mode(),
            final(self).spec_waiter() == old(self).spec_waiter(),
            match old(self).spec_capacity() {
                None => acquired && final(self).spec_depth() == old(self).spec_depth(),
                Some(cap) => if old(self).spec_depth() < cap {
                    acquired && final(self).spec_depth() == old(self).spec_depth() + 1
                } else {
                    !acquired && final(self).spec_depth() == old(self).spec_depth()
                },
            },
    {
        match self.capacity {
            None => true,
            Some(cap) => {
                if self.depth < cap {
                    self.depth = self.depth + 1;
                    true
                } else {
                    false
                }
            },
        }
    }

    /// Whether releasing a place must wake blocked senders.
    pub fn notify_blockers(&self) -> (wake: bool)
        ensures
            wake == (self.spec_mode() is Block && !(self.spec_waiter() is NoWaiter)),
    {
        match self.mode {
            BackpressureMode::Block => match self.waiter {
                BlockWaiter::NoWaiter => false,
                _ => true,
            },
            BackpressureMode::FailFast => false,
        }
    }

    fn release(&mut self) -> (wake: bool)
        ensures
            final(self).spec_capacity() == old(self).spec_capacity(),
            final(self).spec_mode() == old(self).spec_mode(),
            final(self).spec_waiter() == old(self).spec_waiter(),
            old(self).spec_capacity() is None ==> !wake && final(self).spec_depth() == old(self).spec_depth(),
            old(self).spec_capacity() is Some ==> final(self).spec_depth() == released_depth(old(self).spec_depth())
                && wake == (old(self).spec_mode() is Block && !(old(self).spec_waiter() is NoWaiter)),
    {
        if self.capacity.is_none() {
            return false;
        }
        self.depth = if self.depth == 0 { usize::MAX } else { self.depth - 1 };
        self.notify_blockers()
    }

    /// Give back the place of a send that could not be delivered; true when
    /// blocked senders must be woken.
    pub fn rollback_acquire(&mut self) -> (wake: bool)
        ensures
            final(self).spec_capacity() == old(self).spec_capacity(),
            final(self).spec_mode() == old(self).spec_mode(),
            final(self).spec_waiter() == old(self).spec_waiter(),
            old(self).spec_capacity() is None ==> !wake && final(self).spec_depth() == old(self).spec_depth(),
            old(self).spec_capacity() is Some ==> final(self).spec_depth() == released_depth(old(self).spec_depth())
                && wake == (old(self).spec_mode() is Block && !(old(self).spec_waiter() is NoWaiter)),
    {
        self.release()
    }

    /// A user message was dequeued (before its handler runs); true when
    /// blocked senders must be woken.
    pub fn on_message_dequeued(&mut self) -> (wake: bool)
        ensures
            final(self).spec_capacity() == old(self).spec_capacity(),
            final(self).spec_mode() == old(self).spec_mode(),
            final(self).spec_waiter() == old(self).spec_waiter(),
            old(self).spec_capacity() is None ==> !wake && final(self).spec_depth() == old(self).spec_depth(),
            old(self).spec_capacity() is Some ==> final(self).spec_depth() == released_depth(old(self).spec_depth())
                && wake == (old(self).spec_mode() is Block && !(old(self).spec_waiter() is NoWaiter)),
    {
        self.release()
    }

    /// Ask for a place before enqueuing a user message: unbounded mailboxes
    /// admit at once; fail-fast ones reserve a place or refuse with
    /// `MailboxFull`; blocking ones reserve a place or tell the sender to wait.
    pub fn begin_user_send(&mut self) -> (r: Result<SendAdmission, ActorError>)
        ensures
            final(self).spec_capacity() == old(self).spec_capacity(),
            final(self).spec_mode() == old(self).spec_mode(),
            final(self).spec_waiter() == old(self).spec_waiter(),
            match old(self).spec_capacity() {
                None => r == Ok::<SendAdmission, ActorError>(SendAdmission::Admitted)
                    && final(self).spec_depth() == old(self).spec_depth(),
                Some(cap) => if old(self).spec_depth() < cap {
                    r == Ok::<SendAdmission, ActorError>(SendAdmission::Admitted)
                        && final(self).spec_depth() == old(self).spec_depth() + 1
                } else {
                    &&& final(self).spec_depth() == old(self).spec_depth()
                    &&& old(self).spec_mode() is FailFast ==> r == Err::<SendAdmission, ActorError>(ActorError::MailboxFull)
                    &&& old(self).spec_mode() is Block ==> r == Ok::<SendAdmission, ActorError>(SendAdmission::MustWait)
                },
            },
    {
        match (self.capacity, self.mode) {
            (None, _) => Ok(SendAdmission::Admitted),
            (Some(_), BackpressureMode::FailFast) => match self.try_acquire() {
                Ok(()) => Ok(SendAdmission::Admitted),
                Err(e) => Err(e),
            },
            (Some(_), BackpressureMode::Block) => {
                if self.try_acquire_blocking() {
                    Ok(SendAdmission::Admitted)
                } else {
                    Ok(SendAdmission::MustWait)
                }
            },
        }
    }

    /// Settle an admitted send: a delivered message keeps its place; one the
    /// channel refused gives it back and fails with `ActorStopped`. The flag
    /// says whether blocked senders must be woken.
    pub fn finish_user_send(&mut self, delivered: bool) -> (r: (Result<(), ActorError>, bool))
        ensures
            final(self).spec_capacity() == old(self).spec_capacity(),
            final(self).spec_mode() == old(self).spec_mode(),
            final(self).spec_waiter() == old(self).spec_waiter(),
            delivered ==> r.0 is Ok && !r.1 && final(self).spec_depth() == old(self).spec_depth(),
            !delivered ==> r.0 == Err::<(), ActorError>(ActorError::ActorStopped) && {
                &&& old(self).spec_capacity() is None ==> !r.1 && final(self).spec_depth() == old(self).spec_depth()
                &&& old(self).spec_capacity() is Some ==> final(self).spec_depth() == released_depth(old(self).spec_depth())
                    && r.1 == (old(self).spec_mode() is Block && !(old(self).spec_waiter() is NoWaiter))
            },
    {
        if delivered {
            (Ok(()), false)
        } else {
            let wake = self.rollback_acquire();
            (Err(ActorError::ActorStopped), wake)
        }
    }
}

/// A fail-fast mailbox never holds more than its capacity: a reservation
/// from within the limit stays within it.
pub proof fn lemma_acquire_stays_within_capacity(depth: usize, cap: usize)
    requires
        depth <= cap,
    ensures
        try_acquired(Some(cap), depth) matches Some(d) ==> d <= cap,
        depth == cap ==> try_acquired(Some(cap), depth) is None,
{
}

/// Dequeuing a message gives back the place its reservation took.
pub proof fn lemma_dequeue_undoes_acquire(capacity: Option<usize>, depth: usize)
    requires
        capacity is Some,
        try_acquired(capacity, depth) is Some,
    ensures
        released_depth(try_acquired(capacity, depth)->0) == depth,
{
}

/// State of a pending receive on a mailbox: an item channel is closed once
/// it has reported that all its senders are gone.
#[derive(Debug, Clone, Copy, PartialEq, Eq, Structural)]
pub struct MailboxReceiveState {
    pub signal_closed: bool,
    pub stop_closed: bool,
    pub supervision_closed: bool,
    pub user_closed: bool,
}

/// What a channel of the mailbox reports when polled.
#[derive(Debug, Clone, Copy, PartialEq, Eq, Structural)]
pub enum ChannelStatus {
    /// An item is waiting.
    Ready,
    /// Nothing is waiting, but senders remain.
    Empty,
    /// All senders are gone.
    Disconnected,
}

/// The four channels of a mailbox, in priority order.
#[derive(Debug, Clone, Copy, PartialEq, Eq, Structural)]
pub enum MailboxSource {
    /// OS shutdown signals.
    Signal,
    /// Stop requests.
    Stop,
    /// Supervision exits.
    Supervision,
    /// User messages.
    User,
}

/// What the receiver does next.
#[derive(Debug, Clone, Copy, PartialEq, Eq, Structural)]
pub enum RecvStep {
    /// Take the waiting item of this channel.
    Take(MailboxSource),
    /// Nothing is waiting: wait on the open channels, then poll again.
    Wait,
    /// Every channel is closed: the mailbox is finished.
    Finished,
}

/// Whether every channel is closed.
pub open spec fn all_closed(s: MailboxReceiveState) -> bool {
    s.signal_closed && s.stop_closed && s.supervision_closed && s.user_closed
}

/// One poll of the four channels in priority order: signals, then stop
/// requests, then supervision exits, then user messages. The first open
/// channel with an item is taken; channels found disconnected on the way are
/// marked closed.
pub open spec fn polled(
    s: MailboxReceiveState,
    signal: ChannelStatus,
    stop: ChannelStatus,
    supervision: ChannelStatus,
    user: ChannelStatus,
) -> (MailboxReceiveState, RecvStep) {
    if all_closed(s) {
        (s, RecvStep::Finished)
    } else if !s.signal_closed && signal is Ready {
        (s, RecvStep::Take(MailboxSource::Signal))
    } else {
        let s1 = MailboxReceiveState { signal_closed: s.signal_closed || signal is Disconnected, ..s };
        if !s1.stop_closed && stop is Ready {
            (s1, RecvStep::Take(MailboxSource::Stop))
        } else {
            let s2 = MailboxReceiveState { stop_closed: s1.stop_closed || stop is Disconnected, ..s1 };
            if !s2.supervision_closed && supervision is Ready {
                (s2, RecvStep::Take(MailboxSource::Supervision))
            } else {
                let s3 = MailboxReceiveState {
                    supervision_closed: s2.supervision_closed || supervision is Disconnected,
                    ..s2
                };
                if !s3.user_closed && user is Ready {
                    (s3, RecvStep::Take(MailboxSource::User))
                } else {
                    (MailboxReceiveState { user_closed: s3.user_closed || user is Disconnected, ..s3 }, RecvStep::Wait)
                }
            }
        }
    }
}

impl MailboxReceiveState {
    /// A receive state with every channel open.
    pub fn new() -> (s: Self)
        ensures
            !s.signal_closed && !s.stop_closed && !s.supervision_closed && !s.user_closed,
    {
        MailboxReceiveState { signal_closed: false, stop_closed: false, supervision_closed: false, user_closed: false }
    }

    /// Decide the next receive step from what each channel reports.
    pub fn poll(
        &mut self,
        signal: ChannelStatus,
        stop: ChannelStatus,
        supervision: ChannelStatus,
        user: ChannelStatus,
    ) -> (step: RecvStep)
        ensures
            (*final(self), step) == polled(*old(self), signal, stop, supervision, user),
    {
        if self.signal_closed && self.stop_closed && self.supervision_closed && self.user_closed {
            return RecvStep::Finished;
        }
        if !self.signal_closed {
            match signal {
                ChannelStatus::Ready => return RecvStep::Take(MailboxSource::Signal),
                ChannelStatus::Empty => {},
                ChannelStatus::Disconnected => self.signal_closed = true,
            }
        }
        if !self.stop_closed {
            match stop {
                ChannelStatus::Ready => return RecvStep::Take(MailboxSource::Stop),
                ChannelStatus::Empty => {},
                ChannelStatus::Disconnected => self.stop_closed = true,
            }
        }
        if !self.supervision_closed {
            match supervision {
                ChannelStatus::Ready => return RecvStep::Take(MailboxSource::Supervision),
                ChannelStatus::Empty => {},
                ChannelStatus::Disconnected => self.supervision_closed = true,
            }
        }
        if !self.user_closed {
            match user {
                ChannelStatus::Ready => return RecvStep::Take(MailboxSource::User),
                ChannelStatus::Empty => {},
                ChannelStatus::Disconnected => self.user_closed = true,
            }
        }
        RecvStep::Wait
    }

    /// A wait woke on `source` with this status: a ready item is taken; a
    /// disconnected channel is marked closed and the receiver polls again.
    pub fn on_wake(&mut self, source: MailboxSource, status: ChannelStatus) -> (taken: Option<MailboxSource>)
        ensures
            status is Ready ==> taken == Some(source) && *final(self) == *old(self),
            !(status is Ready) ==> taken is None && *final(self) == (match source {
                MailboxSource::Signal => MailboxReceiveState {
                    signal_closed: old(self).signal_closed || status is Disconnected,
                    ..*old(self)
                },
                MailboxSource::Stop => MailboxReceiveState {
                    stop_closed: old(self).stop_closed || status is Disconnected,
                    ..*old(self)
                },
                MailboxSource::Supervision => MailboxReceiveState {
                    supervision_closed: old(self).supervision_closed || status is Disconnected,
                    ..*old(self)
                },
                MailboxSource::User => MailboxReceiveState {
                    user_closed: old(self).user_closed || status is Disconnected,
                    ..*old(self)
                },
            }),
    {
        match status {
            ChannelStatus::Ready => Some(source),
            ChannelStatus::Empty => None,
            ChannelStatus::Disconnected => {
                match source {
                    MailboxSource::Signal => self.signal_closed = true,
                    MailboxSource::Stop => self.stop_closed = true,
                    MailboxSource::Supervision => self.supervision_closed = true,
                    MailboxSource::User => self.user_closed = true,
                }
                None
            },
        }
    }
}

/// Priority of the mailbox: an item waiting on an open channel is never
/// passed over for an item of a lower-priority channel.
pub proof fn lemma_receive_priority(
    s: MailboxReceiveState,
    signal: ChannelStatus,
    stop: ChannelStatus,
    supervision: ChannelStatus,
    user: ChannelStatus,
)
    requires
        !all_closed(s),
    ensures
        !s.signal_closed && signal is Ready ==> polled(s, signal, stop, supervision, user).1 == RecvStep::Take(MailboxSource::Signal),
        polled(s, signal, stop, supervision, user).1 == RecvStep::Take(MailboxSource::Stop)
            ==> !s.stop_closed && stop is Ready && (s.signal_closed || !(signal is Ready)),
        polled(s, signal, stop, supervision, user).1 == RecvStep::Take(MailboxSource::Supervision)
            ==> !s.supervision_closed && supervision is Ready
                && (s.signal_closed || !(signal is Ready)) && (s.stop_closed || !(stop is Ready)),
        polled(s, signal, stop, supervision, user).1 == RecvStep::Take(MailboxSource::User)
            ==> !s.user_closed && user is Ready && (s.signal_closed || !(signal is Ready))
                && (s.stop_closed || !(stop is Ready)) && (s.supervision_closed || !(supervision is Ready)),
        polled(s, signal, stop, supervision, user).1 != RecvStep::Finished,
{
}

} // verus!
