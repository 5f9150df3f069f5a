use concurrency::error::ActorError;
use concurrency::mailbox::{
    block_waiter, BackpressureMode, BlockWaiter, ChannelStatus, MailboxConfig, MailboxLimits, MailboxReceiveState,
    MailboxRuntime, MailboxSource, RecvStep, SendAdmission, DEFAULT_WORKER_CAPACITY,
};
use std::collections::VecDeque;

#[test]
fn mailbox_config_constructors() {
    assert!(MailboxConfig::unbounded().capacity().is_none());
    assert_eq!(MailboxConfig::default_worker().capacity(), Some(DEFAULT_WORKER_CAPACITY));
    assert_eq!(MailboxConfig::bounded(8).capacity(), Some(8));
    assert_eq!(MailboxConfig::bounded_blocking(4).mode(), BackpressureMode::Block);
}

#[test]
fn fail_fast_rejects_when_full() {
    let mut limits = MailboxLimits::new(MailboxConfig::bounded(1), MailboxRuntime::Threads);
    limits.try_acquire().unwrap();
    assert!(matches!(limits.try_acquire(), Err(ActorError::MailboxFull)));
}

#[test]
fn dequeue_frees_a_place() {
    let mut limits = MailboxLimits::new(MailboxConfig::bounded(1), MailboxRuntime::Threads);
    limits.try_acquire().unwrap();
    assert_eq!(limits.depth(), 1);
    assert!(!limits.on_message_dequeued());
    assert_eq!(limits.depth(), 0);
    assert!(limits.try_acquire().is_ok());
}

#[test]
fn unbounded_mailbox_never_counts() {
    let mut limits = MailboxLimits::new(MailboxConfig::unbounded(), MailboxRuntime::Tasks);
    for _ in 0..5 {
        assert_eq!(limits.begin_user_send(), Ok(SendAdmission::Admitted));
    }
    assert_eq!(limits.depth(), 0);
    assert_eq!(limits.capacity(), None);
}

#[test]
fn blocking_mailbox_makes_senders_wait_and_wakes_them() {
    let mut limits = MailboxLimits::new(MailboxConfig::bounded_blocking(1), MailboxRuntime::Threads);
    assert_eq!(limits.begin_user_send(), Ok(SendAdmission::Admitted));
    assert_eq!(limits.begin_user_send(), Ok(SendAdmission::MustWait));
    assert!(limits.on_message_dequeued());
    assert_eq!(limits.begin_user_send(), Ok(SendAdmission::Admitted));
}

#[test]
fn undelivered_send_is_rolled_back() {
    let mut limits = MailboxLimits::new(MailboxConfig::bounded(2), MailboxRuntime::Threads);
    assert_eq!(limits.begin_user_send(), Ok(SendAdmission::Admitted));
    let (r, wake) = limits.finish_user_send(false);
    assert_eq!(r, Err(ActorError::ActorStopped));
    assert!(!wake);
    assert_eq!(limits.depth(), 0);
}

#[test]
fn block_waiter_by_runtime() {
    assert_eq!(block_waiter(MailboxConfig::bounded_blocking(2), MailboxRuntime::Threads), BlockWaiter::Condvar);
    assert_eq!(block_waiter(MailboxConfig::bounded_blocking(2), MailboxRuntime::Tasks), BlockWaiter::Notify);
    assert_eq!(block_waiter(MailboxConfig::bounded(2), MailboxRuntime::Tasks), BlockWaiter::NoWaiter);
}

struct Queues {
    signal: VecDeque<u32>,
    stop: VecDeque<u32>,
    supervision: VecDeque<u32>,
    user: VecDeque<u32>,
}

fn status(q: &VecDeque<u32>) -> ChannelStatus {
    if q.is_empty() { ChannelStatus::Empty } else { ChannelStatus::Ready }
}

fn recv(state: &mut MailboxReceiveState, q: &mut Queues) -> Option<(MailboxSource, u32)> {
    match state.poll(status(&q.signal), status(&q.stop), status(&q.supervision), status(&q.user)) {
        RecvStep::Take(MailboxSource::Signal) => q.signal.pop_front().map(|v| (MailboxSource::Signal, v)),
        RecvStep::Take(MailboxSource::Stop) => q.stop.pop_front().map(|v| (MailboxSource::Stop, v)),
        RecvStep::Take(MailboxSource::Supervision) => q.supervision.pop_front().map(|v| (MailboxSource::Supervision, v)),
        RecvStep::Take(MailboxSource::User) => q.user.pop_front().map(|v| (MailboxSource::User, v)),
        RecvStep::Wait | RecvStep::Finished => None,
    }
}

#[test]
fn threads_priority_signal_stop_supervision_user() {
    let mut q = Queues {
        signal: VecDeque::from(vec![9]),
        stop: VecDeque::from(vec![8]),
        supervision: VecDeque::from(vec![7]),
        user: VecDeque::from(vec![1, 2]),
    };
    let mut state = MailboxReceiveState::new();
    assert_eq!(recv(&mut state, &mut q), Some((MailboxSource::Signal, 9)));
    assert_eq!(recv(&mut state, &mut q), Some((MailboxSource::Stop, 8)));
    assert_eq!(recv(&mut state, &mut q), Some((MailboxSource::Supervision, 7)));
    assert_eq!(recv(&mut state, &mut q), Some((MailboxSource::User, 1)));
    assert_eq!(recv(&mut state, &mut q), Some((MailboxSource::User, 2)));
    assert_eq!(recv(&mut state, &mut q), None);
}

#[test]
fn threads_stop_before_supervision() {
    let mut q = Queues {
        signal: VecDeque::new(),
        stop: VecDeque::from(vec![1]),
        supervision: VecDeque::from(vec![2]),
        user: VecDeque::new(),
    };
    let mut state = MailboxReceiveState::new();
    assert_eq!(recv(&mut state, &mut q), Some((MailboxSource::Stop, 1)));
    assert_eq!(recv(&mut state, &mut q), Some((MailboxSource::Supervision, 2)));
}

#[test]
fn receive_finishes_when_all_channels_close() {
    let mut state = MailboxReceiveState::new();
    let d = ChannelStatus::Disconnected;
    assert_eq!(state.poll(d, d, d, ChannelStatus::Ready), RecvStep::Take(MailboxSource::User));
    assert_eq!(state.poll(d, d, d, d), RecvStep::Wait);
    assert_eq!(state.poll(ChannelStatus::Ready, d, d, d), RecvStep::Finished);
}

#[test]
fn wake_on_closed_channel_marks_it() {
    let mut state = MailboxReceiveState::new();
    assert_eq!(state.on_wake(MailboxSource::Stop, ChannelStatus::Disconnected), None);
    assert!(state.stop_closed);
    assert_eq!(state.on_wake(MailboxSource::User, ChannelStatus::Ready), Some(MailboxSource::User));
}
