use vstd::prelude::*;
use std::collections::VecDeque;
use crate::child_spec::{RestartIntensity, RestartType, should_restart, spec_should_restart};
use crate::error::ExitReason;
use crate::ids::ActorId;
use crate::seq_util::{is_first, first_index, lemma_first_index};
use crate::time::{Duration, Instant, elapsed};

verus! {

// ---------------------------------------------------------------------------
// Restart intensity
// ---------------------------------------------------------------------------

/// Intensity window exceeded: too many restarts in the configured period.
#[derive(Debug, Clone, Copy, PartialEq, Eq, Structural)]
pub struct IntensityExceeded;

/// Tracks restart intensity within a sliding time window.
pub struct IntensityTracker {
    intensity: RestartIntensity,
    restart_timestamps: VecDeque<Instant>,
}

/// Abstract state of an [`IntensityTracker`]: its limits and the instants of
/// the restarts still counted, oldest first.
pub struct TrackerView {
    pub intensity: RestartIntensity,
    pub timestamps: Seq<Instant>,
}

impl View for IntensityTracker {
    type V = TrackerView;

    closed spec fn view(&self) -> TrackerView {
        TrackerView { intensity: self.intensity, timestamps: self.restart_timestamps@ }
    }
}

/// A restart recorded at `t` no longer counts at `now` once more than
/// `within` has elapsed since it.
pub open spec fn expired(t: Instant, now: Instant, within: Duration) -> bool {
    elapsed(now, t) > within@
}

/// Number of leading (oldest) timestamps that have expired at `now`.
pub open spec fn expired_prefix_len(ts: Seq<Instant>, now: Instant, within: Duration) -> nat
    decreases ts.len(),
{
    if ts.len() == 0 {
        0
    } else if expired(ts[0], now, within) {
        1 + expired_prefix_len(ts.drop_first(), now, within)
    } else {
        0
    }
}

/// Tracker state after a restart attempt at `now`, and whether the attempt
/// was within the intensity limit. Expired entries are dropped either way; the
/// attempt is recorded only when it is within the limit.
pub open spec fn recorded(t: TrackerView, now: Instant) -> (TrackerView, bool) {
    let kept = t.timestamps.skip(expired_prefix_len(t.timestamps, now, t.intensity.within) as int);
    if kept.len() >= t.intensity.max_restarts {
        (TrackerView { intensity: t.intensity, timestamps: kept }, false)
    } else {
        (TrackerView { intensity: t.intensity, timestamps: kept.push(now) }, true)
    }
}

proof fn lemma_expired_prefix_bound(ts: Seq<Instant>, now: Instant, within: Duration)
    ensures
        expired_prefix_len(ts, now, within) <= ts.len(),
    decreases ts.len(),
{
    if ts.len() > 0 && expired(ts[0], now, within) {
        lemma_expired_prefix_bound(ts.drop_first(), now, within);
    }
}

impl IntensityTracker {
    /// A tracker with no restarts recorded.
    pub fn new(intensity: RestartIntensity) -> (t: Self)
        ensures
            t@.intensity == intensity,
            t@.timestamps.len() == 0,
    {
        IntensityTracker { intensity, restart_timestamps: VecDeque::new() }
    }

    /// Record a restart attempt at `now`. Returns `Err` when the intensity is
    /// exceeded, in which case the attempt is not recorded.
    pub fn record_restart(&mut self, now: Instant) -> (r: Result<(), IntensityExceeded>)
        ensures
            final(self)@ == recorded(old(self)@, now).0,
            r is Ok == recorded(old(self)@, now).1,
    {
        let ghost ts0 = self.restart_timestamps@;
        let ghost intensity0 = self.intensity;
        let ghost within = self.intensity.within;
        let ghost mut k: int = 0;
        proof {
            lemma_expired_prefix_bound(ts0, now, within);
            assert(ts0.skip(0) =~= ts0);
        }
        let mut done = false;
        while !done
            invariant
                0 <= k <= ts0.len(),
                self.restart_timestamps@ == ts0.skip(k),
                self.intensity == intensity0,
                within == intensity0.within,
                expired_prefix_len(ts0, now, within) == k + expired_prefix_len(ts0.skip(k), now, within),
                done ==> expired_prefix_len(ts0.skip(k), now, within) == 0,
            decreases self.restart_timestamps@.len() + (if done { 0int } else { 1int }),
        {
            if self.restart_timestamps.len() == 0 {
                done = true;
            } else {
                let front = self.restart_timestamps[0];
                if now.duration_since(front).as_nanos() > self.intensity.within.as_nanos() {
                    self.restart_timestamps.pop_front();
                    proof {
                        assert(ts0.skip(k).drop_first() =~= ts0.skip(k + 1));
                        k = k + 1;
                    }
                } else {
                    done = true;
                }
            }
        }
        if self.restart_timestamps.len() >= self.intensity.max_restarts as usize {
            return Err(IntensityExceeded);
        }
        self.restart_timestamps.push_back(now);
        Ok(())
    }

    /// Number of restarts currently counted in the window.
    pub fn restart_count(&self) -> (n: usize)
        ensures
            n == self@.timestamps.len(),
    {
        self.restart_timestamps.len()
    }
}

/// The number of restarts counted never exceeds the intensity limit: a
/// tracker within its limit stays within it after any restart attempt.
pub proof fn lemma_record_keeps_within_limit(t: TrackerView, now: Instant)
    requires
        t.timestamps.len() <= t.intensity.max_restarts,
    ensures
        recorded(t, now).0.timestamps.len() <= t.intensity.max_restarts,
        recorded(t, now).0.intensity == t.intensity,
{
    lemma_expired_prefix_bound(t.timestamps, now, t.intensity.within);
}

/// With `max_restarts` restarts already counted and none of them expired,
/// another restart attempt exceeds the intensity.
pub proof fn lemma_full_window_melts_down(t: TrackerView, now: Instant)
    requires
        t.timestamps.len() >= t.intensity.max_restarts,
        forall|i: int| 0 <= i < t.timestamps.len() ==> !expired(#[trigger] t.timestamps[i], now, t.intensity.within),
    ensures
        !recorded(t, now).1,
        recorded(t, now).0.timestamps == t.timestamps,
{
    if t.timestamps.len() > 0 {
        assert(!expired(t.timestamps[0], now, t.intensity.within));
    }
    assert(t.timestamps.skip(0) =~= t.timestamps);
}

/// Instants in non-decreasing order.
pub open spec fn instants_in_order(s: Seq<Instant>) -> bool {
    forall|i: int, j: int| 0 <= i <= j < s.len() ==> s[i]@ <= s[j]@
}

/// The instants of `acc` that still count at `now`: those at most `within`
/// before it.
pub open spec fn counted_at(acc: Seq<Instant>, now: Instant, within: Duration) -> Seq<Instant> {
    acc.filter(|t: Instant| !expired(t, now, within))
}

/// A fresh tracker with limits `intensity`, after a restart attempt at each
/// of `attempts` in turn; with it, the attempts that were accepted, in order.
pub open spec fn replay(intensity: RestartIntensity, attempts: Seq<Instant>) -> (TrackerView, Seq<Instant>)
    decreases attempts.len(),
{
    if attempts.len() == 0 {
        (TrackerView { intensity, timestamps: Seq::empty() }, Seq::empty())
    } else {
        let before = replay(intensity, attempts.drop_last());
        let step = recorded(before.0, attempts.last());
        (step.0, if step.1 { before.1.push(attempts.last()) } else { before.1 })
    }
}

proof fn lemma_expired_prefix_shape(ts: Seq<Instant>, now: Instant, within: Duration)
    ensures
        forall|i: int| 0 <= i < expired_prefix_len(ts, now, within) ==> expired(#[trigger] ts[i], now, within),
        expired_prefix_len(ts, now, within) < ts.len() ==> !expired(ts[expired_prefix_len(ts, now, within) as int], now, within),
    decreases ts.len(),
{
    if ts.len() > 0 && expired(ts[0], now, within) {
        let d = ts.drop_first();
        lemma_expired_prefix_shape(d, now, within);
        lemma_expired_prefix_bound(d, now, within);
        assert forall|i: int| 0 <= i < expired_prefix_len(ts, now, within) implies expired(#[trigger] ts[i], now, within) by {
            if i > 0 {
                assert(ts[i] == d[i - 1]);
            }
        }
        if expired_prefix_len(ts, now, within) < ts.len() {
            assert(ts[expired_prefix_len(ts, now, within) as int] == d[expired_prefix_len(d, now, within) as int]);
        }
    }
}

/// Filtering a sequence whose first `j` items fail `p` and whose others pass
/// it leaves the items from position `j` on.
proof fn lemma_filter_is_suffix(s: Seq<Instant>, p: spec_fn(Instant) -> bool, j: int)
    requires
        0 <= j <= s.len(),
        forall|i: int| 0 <= i < j ==> !p(#[trigger] s[i]),
        forall|i: int| j <= i < s.len() ==> p(#[trigger] s[i]),
    ensures
        s.filter(p) == s.skip(j),
    decreases s.len(),
{
    reveal(Seq::filter);
    if s.len() > 0 {
        let d = s.drop_last();
        let jd = if j < d.len() { j } else { d.len() as int };
        assert forall|i: int| 0 <= i < jd implies !p(#[trigger] d[i]) by {
            assert(d[i] == s[i]);
        }
        assert forall|i: int| jd <= i < d.len() implies p(#[trigger] d[i]) by {
            assert(d[i] == s[i]);
        }
        lemma_filter_is_suffix(d, p, jd);
        if j < s.len() {
            assert(p(s[s.len() - 1]));
            assert(s.skip(j) =~= d.skip(j).push(s.last()));
        } else {
            assert(!p(s[s.len() - 1]));
            assert(s.skip(j) =~= d.skip(jd));
        }
    }
}

/// What a fresh tracker keeps after any history of attempts at
/// non-decreasing instants: the accepted instants from some position on, all
/// earlier ones having expired by the last attempt.
proof fn lemma_replay_shape(intensity: RestartIntensity, attempts: Seq<Instant>) -> (j: int)
    requires
        instants_in_order(attempts),
    ensures
        replay(intensity, attempts).0.intensity == intensity,
        instants_in_order(replay(intensity, attempts).1),
        attempts.len() > 0 ==> forall|i: int| 0 <= i < replay(intensity, attempts).1.len()
            ==> (#[trigger] replay(intensity, attempts).1[i])@ <= attempts.last()@,
        attempts.len() == 0 ==> replay(intensity, attempts).1.len() == 0,
        0 <= j <= replay(intensity, attempts).1.len(),
        replay(intensity, attempts).0.timestamps == replay(intensity, attempts).1.skip(j),
        attempts.len() > 0 ==> forall|i: int| 0 <= i < j
            ==> expired(#[trigger] replay(intensity, attempts).1[i], attempts.last(), intensity.within),
    decreases attempts.len(),
{
    if attempts.len() == 0 {
        assert(Seq::<Instant>::empty().skip(0) =~= Seq::<Instant>::empty());
        0
    } else {
        let d = attempts.drop_last();
        assert(instants_in_order(d)) by {
            assert forall|a: int, b: int| 0 <= a <= b < d.len() implies d[a]@ <= d[b]@ by {
                assert(d[a] == attempts[a] && d[b] == attempts[b]);
            }
        }
        let jd = lemma_replay_shape(intensity, d);
        let before = replay(intensity, d);
        let acc = before.1;
        let ts = before.0.timestamps;
        let now = attempts.last();
        let w = intensity.within;
        let e = expired_prefix_len(ts, now, w);
        lemma_expired_prefix_bound(ts, now, w);
        lemma_expired_prefix_shape(ts, now, w);
        if d.len() > 0 {
            assert(d.last()@ <= now@) by {
                assert(d.last() == attempts[d.len() - 1]);
            }
        }
        let j2 = jd + e;
        assert(ts.skip(e as int) =~= acc.skip(j2));
        assert forall|i: int| 0 <= i < j2 implies expired(#[trigger] acc[i], now, w) by {
            if i < jd {
                assert(expired(acc[i], d.last(), w));
            } else {
                assert(acc[i] == ts[i - jd]);
                assert(expired(ts[i - jd], now, w));
            }
        }
        let step = recorded(before.0, now);
        if step.1 {
            let acc2 = acc.push(now);
            assert(acc.skip(j2).push(now) =~= acc2.skip(j2));
            assert forall|i: int| 0 <= i < j2 implies expired(#[trigger] acc2[i], now, w) by {
                assert(acc2[i] == acc[i]);
                assert(expired(acc[i], now, w));
            }
            assert forall|a: int, b: int| 0 <= a <= b < acc2.len() implies acc2[a]@ <= acc2[b]@ by {
                if b < acc.len() {
                    assert(acc2[a] == acc[a] && acc2[b] == acc[b]);
                } else if a < acc.len() {
                    assert(acc2[a] == acc[a]);
                    assert(acc[a]@ <= d.last()@);
                }
            }
        }
        j2
    }
}

/// The restart intensity over a history: from a fresh tracker, after restart
/// attempts at non-decreasing instants, an attempt at `now` (no earlier than
/// any of them) is accepted exactly when fewer than `max_restarts` of the
/// earlier accepted attempts lie within `within` of `now`. The restarts
/// counted afterwards are those attempts, with `now` added when it was
/// accepted: older accepted attempts no longer count.
pub proof fn lemma_intensity_over_history(intensity: RestartIntensity, attempts: Seq<Instant>, now: Instant)
    requires
        instants_in_order(attempts),
        forall|i: int| 0 <= i < attempts.len() ==> (#[trigger] attempts[i])@ <= now@,
    ensures
        recorded(replay(intensity, attempts).0, now).1
            <==> counted_at(replay(intensity, attempts).1, now, intensity.within).len() < intensity.max_restarts,
        recorded(replay(intensity, attempts).0, now).1 ==> recorded(replay(intensity, attempts).0, now).0.timestamps
            == counted_at(replay(intensity, attempts).1.push(now), now, intensity.within),
        !recorded(replay(intensity, attempts).0, now).1 ==> recorded(replay(intensity, attempts).0, now).0.timestamps
            == counted_at(replay(intensity, attempts).1, now, intensity.within),
{
    let jd = lemma_replay_shape(intensity, attempts);
    let before = replay(intensity, attempts);
    let acc = before.1;
    let ts = before.0.timestamps;
    let w = intensity.within;
    let p = |t: Instant| !expired(t, now, w);
    let e = expired_prefix_len(ts, now, w);
    lemma_expired_prefix_bound(ts, now, w);
    lemma_expired_prefix_shape(ts, now, w);
    let j = jd + e;
    assert(ts.skip(e as int) =~= acc.skip(j));
    assert forall|i: int| 0 <= i < j implies !p(#[trigger] acc[i]) by {
        if i < jd {
            assert(expired(acc[i], attempts.last(), w));
            assert(attempts.last()@ <= now@) by {
                assert(attempts.last() == attempts[attempts.len() - 1]);
            }
        } else {
            assert(acc[i] == ts[i - jd]);
            assert(expired(ts[i - jd], now, w));
        }
    }
    assert forall|i: int| j <= i < acc.len() implies p(#[trigger] acc[i]) by {
        assert(acc[j] == ts[e as int]);
        assert(!expired(ts[e as int], now, w));
        assert(acc[j]@ <= acc[i]@);
    }
    lemma_filter_is_suffix(acc, p, j);
    assert(counted_at(acc, now, w) == acc.skip(j));
    assert(counted_at(acc.push(now), now, w) == acc.skip(j).push(now)) by {
        reveal(Seq::filter);
        assert(acc.push(now).drop_last() =~= acc);
        assert(acc.push(now).last() == now);
        assert(p(now));
    }
}

/// A limit of zero restarts rejects every attempt.
pub proof fn lemma_zero_limit_always_exceeded(t: TrackerView, now: Instant)
    requires
        t.intensity.max_restarts == 0,
    ensures
        !recorded(t, now).1,
{
}


// ---------------------------------------------------------------------------
// Children and actions
// ---------------------------------------------------------------------------

/// How a supervisor reacts when a supervised child exits.
#[derive(Debug, Clone, Copy, PartialEq, Eq, Structural)]
pub enum SupervisorStrategy {
    /// Restart only the child that exited.
    OneForOne,
    /// Terminate all children, then restart all.
    OneForAll,
    /// Terminate the dead child and all children started after it, then restart those.
    RestForOne,
}

/// Decision returned by [`SupervisorLogic::on_child_exit`].
#[derive(Debug, Clone, PartialEq, Eq)]
pub enum SupervisorAction {
    /// No restart or termination needed.
    Ignore,
    /// Restart a single child by id.
    RestartOne(String),
    /// Shut down these children before a batch restart (OneForAll / RestForOne).
    TerminateBatch(Vec<String>),
    /// Restart intensity exceeded: the supervisor should exit abnormally.
    Meltdown,
}

/// Abstract value of a [`SupervisorAction`].
pub enum ActionView {
    Ignore,
    RestartOne(String),
    TerminateBatch(Seq<String>),
    Meltdown,
}

impl View for SupervisorAction {
    type V = ActionView;

    open spec fn view(&self) -> ActionView {
        match self {
            SupervisorAction::Ignore => ActionView::Ignore,
            SupervisorAction::RestartOne(id) => ActionView::RestartOne(*id),
            SupervisorAction::TerminateBatch(ids) => ActionView::TerminateBatch(ids@),
            SupervisorAction::Meltdown => ActionView::Meltdown,
        }
    }
}

/// Policy fields shared by supervised children.
#[derive(Debug, Clone, PartialEq, Eq)]
pub struct ChildPolicy {
    pub id: String,
    pub restart: RestartType,
    pub start_index: usize,
}

/// Runtime state for one supervised child inside a supervisor.
#[derive(Debug, Clone, PartialEq, Eq)]
pub struct SupervisedChild {
    pub policy: ChildPolicy,
    pub handle: Option<ChildHandleSlot>,
}

/// Lightweight handle slot: the running actor's id and whether it is alive.
#[derive(Debug, Clone, Copy, PartialEq, Eq, Structural)]
pub struct ChildHandleSlot {
    pub id: ActorId,
    pub alive: bool,
}

/// Summary of a supervised child for listing APIs.
#[derive(Debug, Clone, PartialEq, Eq)]
pub struct ChildInfo {
    pub id: String,
    pub actor_id: ActorId,
    pub alive: bool,
    pub restart: RestartType,
    pub start_index: usize,
}

/// Batch restart waiting for its terminated children to exit.
#[derive(Debug, Clone, Copy, PartialEq, Eq, Structural)]
pub enum BatchRestart {
    /// Restart every child.
    All,
    /// Restart the children whose start index is at least this one.
    FromIndex(usize),
}

/// The child is running as actor `a` and is alive.
pub open spec fn alive_as(c: SupervisedChild, a: ActorId) -> bool {
    c.handle matches Some(slot) && slot.id == a && slot.alive
}

/// The child's current or last actor is `a`, alive or not.
pub open spec fn handle_is(c: SupervisedChild, a: ActorId) -> bool {
    c.handle matches Some(slot) && slot.id == a
}

/// Predicate form of [`alive_as`].
pub open spec fn alive_pred(a: ActorId) -> spec_fn(SupervisedChild) -> bool {
    |c: SupervisedChild| alive_as(c, a)
}

/// Predicate form of [`handle_is`].
pub open spec fn handle_pred(a: ActorId) -> spec_fn(SupervisedChild) -> bool {
    |c: SupervisedChild| handle_is(c, a)
}

/// Predicate form of [`id_is`].
pub open spec fn id_pred(id: Seq<char>) -> spec_fn(SupervisedChild) -> bool {
    |c: SupervisedChild| id_is(c, id)
}

/// The child has a live actor.
pub open spec fn is_alive(c: SupervisedChild) -> bool {
    c.handle matches Some(slot) && slot.alive
}

/// The child's id is `id`.
pub open spec fn id_is(c: SupervisedChild, id: Seq<char>) -> bool {
    c.policy.id@ == id
}

/// The child with its handle, if any, marked dead.
pub open spec fn marked_dead(c: SupervisedChild) -> SupervisedChild {
    SupervisedChild {
        policy: c.policy,
        handle: match c.handle {
            Some(slot) => Some(ChildHandleSlot { id: slot.id, alive: false }),
            None => None,
        },
    }
}

/// Children after marking the first child alive as `a` dead.
pub open spec fn mark_dead(cs: Seq<SupervisedChild>, a: ActorId) -> Seq<SupervisedChild> {
    let i = first_index(cs, alive_pred(a));
    if i >= 0 { cs.update(i, marked_dead(cs[i])) } else { cs }
}

/// Ids of all children, in registration order.
pub open spec fn child_ids(cs: Seq<SupervisedChild>) -> Seq<String> {
    cs.map_values(|c: SupervisedChild| c.policy.id)
}

/// Ids of the children whose start index is at least `from`, in registration order.
pub open spec fn ids_from(cs: Seq<SupervisedChild>, from: usize) -> Seq<String>
    decreases cs.len(),
{
    if cs.len() == 0 {
        Seq::empty()
    } else {
        let sub = ids_from(cs.drop_last(), from);
        if cs.last().policy.start_index >= from { sub.push(cs.last().policy.id) } else { sub }
    }
}

/// Number of children with a live actor.
pub open spec fn count_alive(cs: Seq<SupervisedChild>) -> nat
    decreases cs.len(),
{
    if cs.len() == 0 {
        0
    } else {
        count_alive(cs.drop_last()) + if is_alive(cs.last()) { 1nat } else { 0nat }
    }
}

/// Listing of the children that have a handle, in registration order.
pub open spec fn listed(cs: Seq<SupervisedChild>) -> Seq<ChildInfo>
    decreases cs.len(),
{
    if cs.len() == 0 {
        Seq::empty()
    } else {
        let sub = listed(cs.drop_last());
        let c = cs.last();
        match c.handle {
            Some(slot) => sub.push(ChildInfo {
                id: c.policy.id,
                actor_id: slot.id,
                alive: slot.alive,
                restart: c.policy.restart,
                start_index: c.policy.start_index,
            }),
            None => sub,
        }
    }
}

/// Largest start index among the children, or -1 when there are none.
pub open spec fn max_start_index(cs: Seq<SupervisedChild>) -> int
    decreases cs.len(),
{
    if cs.len() == 0 {
        -1
    } else {
        let m = max_start_index(cs.drop_last());
        if cs.last().policy.start_index > m { cs.last().policy.start_index as int } else { m }
    }
}


// ---------------------------------------------------------------------------
// Supervisor logic
// ---------------------------------------------------------------------------

/// Shared restart/termination policy engine for supervisors.
pub struct SupervisorLogic {
    strategy: SupervisorStrategy,
    intensity: IntensityTracker,
    children: Vec<SupervisedChild>,
    suppress_restarts: bool,
    pending_batch_restart: Option<BatchRestart>,
}

/// Abstract state of a [`SupervisorLogic`].
pub struct LogicView {
    pub strategy: SupervisorStrategy,
    pub tracker: TrackerView,
    pub children: Seq<SupervisedChild>,
    pub suppress: bool,
    pub pending: Option<BatchRestart>,
}

impl View for SupervisorLogic {
    type V = LogicView;

    closed spec fn view(&self) -> LogicView {
        LogicView {
            strategy: self.strategy,
            tracker: self.intensity@,
            children: self.children@,
            suppress: self.suppress_restarts,
            pending: self.pending_batch_restart,
        }
    }
}

/// The same supervisor state with other children.
pub open spec fn with_children(v: LogicView, cs: Seq<SupervisedChild>) -> LogicView {
    LogicView { children: cs, ..v }
}

/// Ids restarted by a pending batch restart.
pub open spec fn pending_ids(cs: Seq<SupervisedChild>, p: BatchRestart) -> Seq<String> {
    match p {
        BatchRestart::All => child_ids(cs),
        BatchRestart::FromIndex(k) => ids_from(cs, k),
    }
}

/// Supervisor state and decision after child actor `a` exits with `reason` at `now`.
///
/// While restarts are suppressed, or when `a` is not a live child, nothing
/// changes. Otherwise the child is marked dead; if its restart policy does
/// not restart it after `reason`, that is all. Else the restart is counted
/// against the intensity, and a meltdown follows when the limit is exceeded.
/// Within the limit, OneForOne restarts the child alone, while OneForAll and
/// RestForOne suppress further restarts, remember the pending batch and ask
/// to terminate every child, or those started at or after the dead one.
pub open spec fn exit_outcome(pre: LogicView, a: ActorId, reason: ExitReason, now: Instant) -> (LogicView, ActionView) {
    let i = first_index(pre.children, alive_pred(a));
    if pre.suppress || i < 0 {
        (pre, ActionView::Ignore)
    } else {
        let c = pre.children[i];
        let marked = with_children(pre, pre.children.update(i, marked_dead(c)));
        if !spec_should_restart(c.policy.restart, reason) {
            (marked, ActionView::Ignore)
        } else {
            let counted = LogicView { tracker: recorded(pre.tracker, now).0, ..marked };
            if !recorded(pre.tracker, now).1 {
                (counted, ActionView::Meltdown)
            } else {
                match pre.strategy {
                    SupervisorStrategy::OneForOne => (counted, ActionView::RestartOne(c.policy.id)),
                    SupervisorStrategy::OneForAll => (
                        LogicView { suppress: true, pending: Some(BatchRestart::All), ..counted },
                        ActionView::TerminateBatch(child_ids(counted.children)),
                    ),
                    SupervisorStrategy::RestForOne => (
                        LogicView {
                            suppress: true,
                            pending: Some(BatchRestart::FromIndex(c.policy.start_index)),
                            ..counted
                        },
                        ActionView::TerminateBatch(ids_from(counted.children, c.policy.start_index)),
                    ),
                }
            }
        }
    }
}

/// Whether some child in `cs` has a live actor.
pub open spec fn any_alive(cs: Seq<SupervisedChild>) -> bool {
    exists|j: int| 0 <= j < cs.len() && is_alive(#[trigger] cs[j])
}

/// Whether some child of `cs` started at index `k` or later has a live actor.
pub open spec fn any_alive_from(cs: Seq<SupervisedChild>, k: usize) -> bool {
    exists|j: int| 0 <= j < cs.len() && cs[j].policy.start_index >= k && is_alive(#[trigger] cs[j])
}

/// A pending batch restart is complete once none of its targets is alive:
/// every child for a restart of all, the children whose start index is at
/// least `k` for a restart from index `k`.
pub open spec fn batch_complete(v: LogicView) -> bool {
    match v.pending {
        None => false,
        Some(BatchRestart::All) => !any_alive(v.children),
        Some(BatchRestart::FromIndex(k)) => !any_alive_from(v.children, k),
    }
}

/// Child `i` is shut down before child `j`: it has a larger start index, or
/// the same start index and an earlier position.
pub open spec fn shuts_down_before(cs: Seq<SupervisedChild>, i: int, j: int) -> bool {
    ||| cs[i].policy.start_index > cs[j].policy.start_index
    ||| (cs[i].policy.start_index == cs[j].policy.start_index && i < j)
}

/// `perm` lists every position of `cs` once, in shutdown order.
pub open spec fn is_shutdown_permutation(cs: Seq<SupervisedChild>, perm: Seq<int>) -> bool {
    &&& perm.len() == cs.len()
    &&& forall|k: int| 0 <= k < perm.len() ==> 0 <= #[trigger] perm[k] < cs.len()
    &&& forall|k: int, l: int| 0 <= k < l < perm.len() ==> shuts_down_before(cs, #[trigger] perm[k], #[trigger] perm[l])
}

/// `ids` are the ids of `cs` in shutdown order.
pub open spec fn is_shutdown_order(cs: Seq<SupervisedChild>, ids: Seq<String>) -> bool {
    exists|perm: Seq<int>| {
        &&& is_shutdown_permutation(cs, perm)
        &&& ids.len() == perm.len()
        &&& forall|k: int| 0 <= k < ids.len() ==> #[trigger] ids[k] == cs[perm[k]].policy.id
    }
}

impl SupervisorLogic {
    /// A supervisor with no children, no restarts counted and no batch pending.
    pub fn new(strategy: SupervisorStrategy, intensity: RestartIntensity) -> (l: Self)
        ensures
            l@.strategy == strategy,
            l@.tracker.intensity == intensity,
            l@.tracker.timestamps.len() == 0,
            l@.children.len() == 0,
            !l@.suppress,
            l@.pending is None,
    {
        SupervisorLogic {
            strategy,
            intensity: IntensityTracker::new(intensity),
            children: Vec::new(),
            suppress_restarts: false,
            pending_batch_restart: None,
        }
    }

    pub fn strategy(&self) -> (s: SupervisorStrategy)
        ensures
            s == self@.strategy,
    {
        self.strategy
    }

    pub fn suppress_restarts(&self) -> (b: bool)
        ensures
            b == self@.suppress,
    {
        self.suppress_restarts
    }

    pub fn set_suppress_restarts(&mut self, value: bool)
        ensures
            final(self)@ == (LogicView { suppress: value, ..old(self)@ }),
    {
        self.suppress_restarts = value;
    }

    pub fn children(&self) -> (cs: &[SupervisedChild])
        ensures
            cs@ == self@.children,
    {
        self.children.as_slice()
    }

    pub fn children_mut(&mut self) -> (cs: &mut [SupervisedChild])
        ensures
            cs@ == old(self)@.children,
            final(self)@ == with_children(old(self)@, final(cs)@),
    {
        self.children.as_mut_slice()
    }

    /// Position of the first child running as live actor `actor_id`.
    pub fn child_index_by_actor(&self, actor_id: ActorId) -> (r: Option<usize>)
        ensures
            match r {
                Some(i) => i == first_index(self@.children, alive_pred(actor_id))
                    && is_first(self@.children, alive_pred(actor_id), i as int),
                None => first_index(self@.children, alive_pred(actor_id)) == -1
                    && forall|j: int| 0 <= j < self@.children.len()
                        ==> !alive_as(#[trigger] self@.children[j], actor_id),
            },
    {
        let ghost cs = self.children@;
        proof {
            lemma_first_index(cs, alive_pred(actor_id));
        }
        let mut i: usize = 0;
        while i < self.children.len()
            invariant
                cs == self.children@,
                i <= cs.len(),
                forall|j: int| 0 <= j < i ==> !alive_as(#[trigger] cs[j], actor_id),
            decreases cs.len() - i,
        {
            if let Some(slot) = self.children[i].handle {
                if slot.id == actor_id && slot.alive {
                    assert(is_first(cs, alive_pred(actor_id), i as int));
                    return Some(i);
                }
            }
            i += 1;
        }
        assert(forall|j: int| 0 <= j < cs.len() ==> !alive_pred(actor_id)(#[trigger] cs[j]));
        None
    }

    /// Position of the first child whose handle is actor `actor_id`, alive or not.
    fn child_index_by_actor_any(&self, actor_id: ActorId) -> (r: Option<usize>)
        ensures
            match r {
                Some(i) => i == first_index(self@.children, handle_pred(actor_id))
                    && is_first(self@.children, handle_pred(actor_id), i as int),
                None => first_index(self@.children, handle_pred(actor_id)) == -1
                    && forall|j: int| 0 <= j < self@.children.len()
                        ==> !handle_is(#[trigger] self@.children[j], actor_id),
            },
    {
        let ghost cs = self.children@;
        proof {
            lemma_first_index(cs, handle_pred(actor_id));
        }
        let mut i: usize = 0;
        while i < self.children.len()
            invariant
                cs == self.children@,
                i <= cs.len(),
                forall|j: int| 0 <= j < i ==> !handle_is(#[trigger] cs[j], actor_id),
            decreases cs.len() - i,
        {
            if let Some(slot) = self.children[i].handle {
                if slot.id == actor_id {
                    assert(is_first(cs, handle_pred(actor_id), i as int));
                    return Some(i);
                }
            }
            i += 1;
        }
        assert(forall|j: int| 0 <= j < cs.len() ==> !handle_pred(actor_id)(#[trigger] cs[j]));
        None
    }

    /// Position of the first child with id `id`.
    fn child_index_by_id(&self, id: &String) -> (r: Option<usize>)
        ensures
            match r {
                Some(i) => i == first_index(self@.children, id_pred(id@))
                    && is_first(self@.children, id_pred(id@), i as int),
                None => first_index(self@.children, id_pred(id@)) == -1
                    && forall|j: int| 0 <= j < self@.children.len()
                        ==> !id_is(#[trigger] self@.children[j], id@),
            },
    {
        let ghost cs = self.children@;
        proof {
            lemma_first_index(cs, id_pred(id@));
        }
        let mut i: usize = 0;
        while i < self.children.len()
            invariant
                cs == self.children@,
                i <= cs.len(),
                forall|j: int| 0 <= j < i ==> !id_is(#[trigger] cs[j], id@),
            decreases cs.len() - i,
        {
            if self.children[i].policy.id == *id {
                assert(is_first(cs, id_pred(id@), i as int));
                return Some(i);
            }
            i += 1;
        }
        assert(forall|j: int| 0 <= j < cs.len() ==> !id_pred(id@)(#[trigger] cs[j]));
        None
    }

    /// Id of the first child running as live actor `actor_id`.
    pub fn child_id_by_actor(&self, actor_id: ActorId) -> (r: Option<&str>)
        ensures
            match r {
                Some(s) => first_index(self@.children, alive_pred(actor_id)) >= 0
                    && s@ == self@.children[first_index(self@.children, alive_pred(actor_id))].policy.id@,
                None => first_index(self@.children, alive_pred(actor_id)) == -1,
            },
    {
        match self.child_index_by_actor(actor_id) {
            Some(idx) => Some(self.children[idx].policy.id.as_str()),
            None => None,
        }
    }

    /// Resolve a child id by actor id, including children already marked dead.
    pub fn child_id_by_actor_any(&self, actor_id: ActorId) -> (r: Option<&str>)
        ensures
            match r {
                Some(s) => first_index(self@.children, handle_pred(actor_id)) >= 0
                    && s@ == self@.children[first_index(self@.children, handle_pred(actor_id))].policy.id@,
                None => first_index(self@.children, handle_pred(actor_id)) == -1,
            },
    {
        match self.child_index_by_actor_any(actor_id) {
            Some(idx) => Some(self.children[idx].policy.id.as_str()),
            None => None,
        }
    }

    /// Number of children currently marked alive.
    pub fn child_count(&self) -> (n: usize)
        ensures
            n == count_alive(self@.children),
    {
        let ghost cs = self.children@;
        let mut n: usize = 0;
        let mut i: usize = 0;
        proof {
            assert(cs.take(0) =~= Seq::<SupervisedChild>::empty());
        }
        while i < self.children.len()
            invariant
                cs == self.children@,
                i <= cs.len(),
                n == count_alive(cs.take(i as int)),
                n <= i,
            decreases cs.len() - i,
        {
            proof {
                assert(cs.take(i + 1).drop_last() =~= cs.take(i as int));
            }
            if let Some(slot) = self.children[i].handle {
                if slot.alive {
                    n += 1;
                }
            }
            i += 1;
        }
        proof {
            assert(cs.take(cs.len() as int) =~= cs);
        }
        n
    }

    /// List all registered children that have a handle, with liveness metadata.
    pub fn list_children(&self) -> (r: Vec<ChildInfo>)
        ensures
            r@ == listed(self@.children),
    {
        let ghost cs = self.children@;
        let mut out: Vec<ChildInfo> = Vec::new();
        let mut i: usize = 0;
        proof {
            assert(cs.take(0) =~= Seq::<SupervisedChild>::empty());
        }
        while i < self.children.len()
            invariant
                cs == self.children@,
                i <= cs.len(),
                out@ == listed(cs.take(i as int)),
            decreases cs.len() - i,
        {
            proof {
                assert(cs.take(i + 1).drop_last() =~= cs.take(i as int));
            }
            let child = &self.children[i];
            if let Some(slot) = child.handle {
                out.push(ChildInfo {
                    id: child.policy.id.clone(),
                    actor_id: slot.id,
                    alive: slot.alive,
                    restart: child.policy.restart,
                    start_index: child.policy.start_index,
                });
            }
            i += 1;
        }
        proof {
            assert(cs.take(cs.len() as int) =~= cs);
        }
        out
    }

    /// Whether some child has id `id`.
    pub fn has_child_id(&self, id: &str) -> (b: bool)
        ensures
            b == exists|j: int| 0 <= j < self@.children.len() && id_is(#[trigger] self@.children[j], id@),
    {
        let owned = id.to_owned();
        let r = self.child_index_by_id(&owned);
        proof {
            if r is Some {
                let j = r->0 as int;
                assert(id_is(self@.children[j], id@));
            }
        }
        r.is_some()
    }

    /// Next start index for a dynamically added child: one past the largest
    /// start index in use, or zero when there are no children.
    pub fn next_start_index(&self) -> (n: usize)
        requires
            max_start_index(self@.children) < usize::MAX,
        ensures
            n == max_start_index(self@.children) + 1,
    {
        match self.last_start_index() {
            Some(m) => m + 1,
            None => 0,
        }
    }

    /// Largest start index in use, or `None` when there are no children.
    pub fn last_start_index(&self) -> (r: Option<usize>)
        ensures
            match r {
                Some(m) => m == max_start_index(self@.children),
                None => max_start_index(self@.children) == -1,
            },
    {
        let ghost cs = self.children@;
        let mut best: Option<usize> = None;
        let mut i: usize = 0;
        proof {
            assert(cs.take(0) =~= Seq::<SupervisedChild>::empty());
        }
        while i < self.children.len()
            invariant
                cs == self.children@,
                i <= cs.len(),
                match best {
                    Some(m) => m == max_start_index(cs.take(i as int)),
                    None => max_start_index(cs.take(i as int)) == -1,
                },
            decreases cs.len() - i,
        {
            proof {
                assert(cs.take(i + 1).drop_last() =~= cs.take(i as int));
            }
            let s = self.children[i].policy.start_index;
            best = match best {
                Some(m) => if s > m { Some(s) } else { Some(m) },
                None => Some(s),
            };
            i += 1;
        }
        proof {
            assert(cs.take(cs.len() as int) =~= cs);
        }
        best
    }

    /// Remove the first child with id `child_id`; false when there is none.
    pub fn remove_child_by_id(&mut self, child_id: &str) -> (removed: bool)
        ensures
            removed == (first_index(old(self)@.children, id_pred(child_id@)) >= 0),
            final(self)@ == with_children(old(self)@,
                if removed {
                    old(self)@.children.remove(first_index(old(self)@.children, id_pred(child_id@)))
                } else {
                    old(self)@.children
                }),
    {
        let owned = child_id.to_owned();
        match self.child_index_by_id(&owned) {
            Some(index) => {
                self.children.remove(index);
                true
            },
            None => false,
        }
    }

    /// Remove the first child whose handle is actor `actor_id`; false when there is none.
    pub fn remove_child_by_actor(&mut self, actor_id: ActorId) -> (removed: bool)
        ensures
            removed == (first_index(old(self)@.children, handle_pred(actor_id)) >= 0),
            final(self)@ == with_children(old(self)@,
                if removed {
                    old(self)@.children.remove(first_index(old(self)@.children, handle_pred(actor_id)))
                } else {
                    old(self)@.children
                }),
    {
        match self.child_index_by_actor_any(actor_id) {
            Some(index) => {
                self.children.remove(index);
                true
            },
            None => false,
        }
    }

    /// Mark the first child running as live actor `actor_id` dead.
    pub fn mark_child_dead(&mut self, actor_id: ActorId)
        ensures
            final(self)@ == with_children(old(self)@, mark_dead(old(self)@.children, actor_id)),
    {
        if let Some(idx) = self.child_index_by_actor(actor_id) {
            if let Some(slot) = self.children[idx].handle {
                self.children[idx].handle = Some(ChildHandleSlot { id: slot.id, alive: false });
            }
        }
    }

    /// Add a child with a running handle after the existing ones.
    pub fn register_child(&mut self, policy: ChildPolicy, handle: ChildHandleSlot)
        ensures
            final(self)@ == with_children(old(self)@,
                old(self)@.children.push(SupervisedChild { policy, handle: Some(handle) })),
    {
        self.children.push(SupervisedChild { policy, handle: Some(handle) });
    }

    /// Give the first child with id `child_id` a new handle; no effect when there is none.
    pub fn replace_child_handle(&mut self, child_id: &str, handle: ChildHandleSlot)
        ensures
            final(self)@ == with_children(old(self)@,
                if first_index(old(self)@.children, id_pred(child_id@)) >= 0 {
                    old(self)@.children.update(
                        first_index(old(self)@.children, id_pred(child_id@)),
                        SupervisedChild {
                            policy: old(self)@.children[first_index(old(self)@.children, id_pred(child_id@))].policy,
                            handle: Some(handle),
                        })
                } else {
                    old(self)@.children
                }),
    {
        let owned = child_id.to_owned();
        if let Some(idx) = self.child_index_by_id(&owned) {
            self.children[idx].handle = Some(handle);
        }
    }

    /// Decide what to do when a linked child exits.
    pub fn on_child_exit(&mut self, actor_id: ActorId, reason: &ExitReason, now: Instant) -> (action: SupervisorAction)
        ensures
            (final(self)@, action@) == exit_outcome(old(self)@, actor_id, *reason, now),
    {
        if self.suppress_restarts {
            return SupervisorAction::Ignore;
        }
        let child_index = match self.child_index_by_actor(actor_id) {
            Some(i) => i,
            None => return SupervisorAction::Ignore,
        };
        let child_id = self.children[child_index].policy.id.clone();
        let restart = self.children[child_index].policy.restart;
        let start_index = self.children[child_index].policy.start_index;

        self.mark_child_dead(actor_id);

        if !should_restart(restart, reason) {
            return SupervisorAction::Ignore;
        }

        if self.intensity.record_restart(now).is_err() {
            return SupervisorAction::Meltdown;
        }

        match self.strategy {
            SupervisorStrategy::OneForOne => SupervisorAction::RestartOne(child_id),
            SupervisorStrategy::OneForAll => {
                self.suppress_restarts = true;
                self.pending_batch_restart = Some(BatchRestart::All);
                SupervisorAction::TerminateBatch(all_child_ids(self.children.as_slice()))
            },
            SupervisorStrategy::RestForOne => {
                self.suppress_restarts = true;
                self.pending_batch_restart = Some(BatchRestart::FromIndex(start_index));
                SupervisorAction::TerminateBatch(rest_for_one_ids(self.children.as_slice(), start_index))
            },
        }
    }

    /// Record an exit while batch termination is in progress.
    pub fn note_exit_during_batch(&mut self, actor_id: ActorId)
        ensures
            final(self)@ == with_children(old(self)@, mark_dead(old(self)@.children, actor_id)),
    {
        self.mark_child_dead(actor_id);
    }

    /// After batch termination completes, return the ids to restart (if any)
    /// and allow restarts again.
    pub fn take_pending_restart_ids(&mut self) -> (r: Option<Vec<String>>)
        ensures
            match old(self)@.pending {
                None => r is None && final(self)@ == old(self)@,
                Some(p) => r matches Some(ids) && ids@ == pending_ids(old(self)@.children, p)
                    && final(self)@ == (LogicView { suppress: false, pending: None, ..old(self)@ }),
            },
    {
        let pending = match self.pending_batch_restart.take() {
            Some(p) => p,
            None => return None,
        };
        self.suppress_restarts = false;
        Some(match pending {
            BatchRestart::All => all_child_ids(self.children.as_slice()),
            BatchRestart::FromIndex(index) => rest_for_one_ids(self.children.as_slice(), index),
        })
    }

    /// Child ids in reverse start order (ties in registration order), for
    /// graceful shutdown.
    pub fn shutdown_order(&self) -> (ids: Vec<String>)
        ensures
            is_shutdown_order(self@.children, ids@),
    {
        let ghost cs = self.children@;
        let n = self.children.len();
        let mut rem: Vec<usize> = Vec::new();
        let mut t: usize = 0;
        while t < n
            invariant
                t <= n,
                rem@.len() == t,
                forall|q: int| 0 <= q < t ==> #[trigger] rem@[q] == q,
            decreases n - t,
        {
            rem.push(t);
            t += 1;
        }
        let mut out: Vec<String> = Vec::new();
        let ghost mut perm: Seq<int> = Seq::empty();
        let mut step: usize = 0;
        while step < n
            invariant
                cs == self.children@,
                n == cs.len(),
                step <= n,
                rem@.len() == n - step,
                perm.len() == step,
                out@.len() == step,
                forall|q: int| 0 <= q < rem@.len() ==> #[trigger] rem@[q] < n,
                forall|q1: int, q2: int| 0 <= q1 < q2 < rem@.len() ==> #[trigger] rem@[q1] != #[trigger] rem@[q2],
                forall|k: int| 0 <= k < step ==> 0 <= #[trigger] perm[k] < n,
                forall|k: int| 0 <= k < step ==> #[trigger] out@[k] == cs[perm[k]].policy.id,
                forall|k: int, l: int| 0 <= k < l < step ==> shuts_down_before(cs, #[trigger] perm[k], #[trigger] perm[l]),
                forall|k: int, q: int| 0 <= k < step && 0 <= q < rem@.len()
                    ==> shuts_down_before(cs, #[trigger] perm[k], #[trigger] rem@[q] as int),
            decreases n - step,
        {
            let mut best: usize = 0;
            let mut q: usize = 1;
            while q < rem.len()
                invariant
                    cs == self.children@,
                    n == cs.len(),
                    rem@.len() == n - step,
                    rem@.len() > 0,
                    forall|q: int| 0 <= q < rem@.len() ==> #[trigger] rem@[q] < n,
                    forall|q1: int, q2: int| 0 <= q1 < q2 < rem@.len() ==> #[trigger] rem@[q1] != #[trigger] rem@[q2],
                    best < q <= rem@.len(),
                    forall|r: int| 0 <= r < q && r != best
                        ==> shuts_down_before(cs, rem@[best as int] as int, #[trigger] rem@[r] as int),
                decreases rem@.len() - q,
            {
                let cand = rem[q];
                let cur = rem[best];
                let sc = self.children[cand].policy.start_index;
                let sb = self.children[cur].policy.start_index;
                if sc > sb || (sc == sb && cand < cur) {
                    best = q;
                }
                q += 1;
            }
            let chosen = rem.remove(best);
            out.push(self.children[chosen].policy.id.clone());
            proof {
                perm = perm.push(chosen as int);
            }
            step += 1;
        }
        proof {
            assert(is_shutdown_permutation(cs, perm));
        }
        out
    }

    /// Returns true when all children targeted by a pending batch restart are dead.
    pub fn pending_batch_restart_complete(&self) -> (b: bool)
        ensures
            b == batch_complete(self@),
    {
        let from = match self.pending_batch_restart {
            None => return false,
            Some(BatchRestart::All) => 0,
            Some(BatchRestart::FromIndex(index)) => index,
        };
        let ghost cs = self.children@;
        let mut i: usize = 0;
        while i < self.children.len()
            invariant
                cs == self.children@,
                i <= cs.len(),
                forall|j: int| 0 <= j < i && cs[j].policy.start_index >= from ==> !is_alive(#[trigger] cs[j]),
                match self.pending_batch_restart {
                    Some(BatchRestart::All) => from == 0,
                    Some(BatchRestart::FromIndex(k)) => from == k,
                    None => false,
                },
            decreases cs.len() - i,
        {
            if self.children[i].policy.start_index >= from {
                if let Some(slot) = self.children[i].handle {
                    if slot.alive {
                        assert(is_alive(cs[i as int]));
                        return false;
                    }
                }
            }
            i += 1;
        }
        true
    }
}

/// Ids of all children, in registration order.
pub fn all_child_ids(children: &[SupervisedChild]) -> (r: Vec<String>)
    ensures
        r@ == child_ids(children@),
{
    let ghost cs = children@;
    let mut out: Vec<String> = Vec::new();
    let mut i: usize = 0;
    while i < children.len()
        invariant
            cs == children@,
            i <= cs.len(),
            out@ == child_ids(cs.take(i as int)),
        decreases cs.len() - i,
    {
        out.push(children[i].policy.id.clone());
        proof {
            assert(child_ids(cs.take(i + 1)) =~= child_ids(cs.take(i as int)).push(cs[i as int].policy.id));
        }
        i += 1;
    }
    proof {
        assert(cs.take(cs.len() as int) =~= cs);
    }
    out
}

/// Ids of the children whose start index is at least `from_index`, in registration order.
pub fn rest_for_one_ids(children: &[SupervisedChild], from_index: usize) -> (r: Vec<String>)
    ensures
        r@ == ids_from(children@, from_index),
{
    let ghost cs = children@;
    let mut out: Vec<String> = Vec::new();
    let mut i: usize = 0;
    proof {
        assert(cs.take(0) =~= Seq::<SupervisedChild>::empty());
    }
    while i < children.len()
        invariant
            cs == children@,
            i <= cs.len(),
            out@ == ids_from(cs.take(i as int), from_index),
        decreases cs.len() - i,
    {
        proof {
            assert(cs.take(i + 1).drop_last() =~= cs.take(i as int));
        }
        if children[i].policy.start_index >= from_index {
            out.push(children[i].policy.id.clone());
        }
        i += 1;
    }
    proof {
        assert(cs.take(cs.len() as int) =~= cs);
    }
    out
}


// ---------------------------------------------------------------------------
// Laws
// ---------------------------------------------------------------------------

/// Two child lists with the same policies in the same order.
pub open spec fn same_policies(a: Seq<SupervisedChild>, b: Seq<SupervisedChild>) -> bool {
    &&& a.len() == b.len()
    &&& forall|i: int| 0 <= i < a.len() ==> #[trigger] a[i].policy == b[i].policy
}

proof fn lemma_same_policies_ids(a: Seq<SupervisedChild>, b: Seq<SupervisedChild>, from: usize)
    requires
        same_policies(a, b),
    ensures
        child_ids(a) == child_ids(b),
        ids_from(a, from) == ids_from(b, from),
    decreases a.len(),
{
    assert(child_ids(a) =~= child_ids(b));
    if a.len() > 0 {
        assert(a.drop_last().len() == b.drop_last().len());
        assert forall|i: int| 0 <= i < a.drop_last().len() implies #[trigger] a.drop_last()[i].policy == b.drop_last()[i].policy by {
            assert(a[i].policy == b[i].policy);
        }
        lemma_same_policies_ids(a.drop_last(), b.drop_last(), from);
        assert(a.last().policy == b[b.len() - 1].policy);
    }
}

/// Marking a child dead keeps every policy.
pub proof fn lemma_mark_dead_keeps_policies(cs: Seq<SupervisedChild>, a: ActorId)
    ensures
        same_policies(cs, mark_dead(cs, a)),
{
    lemma_first_index(cs, alive_pred(a));
}

/// Children after marking dead, in turn, the live children of each actor in `exits`.
pub open spec fn mark_all_dead(cs: Seq<SupervisedChild>, exits: Seq<ActorId>) -> Seq<SupervisedChild>
    decreases exits.len(),
{
    if exits.len() == 0 {
        cs
    } else {
        mark_dead(mark_all_dead(cs, exits.drop_last()), exits.last())
    }
}

proof fn lemma_mark_all_dead_keeps_policies(cs: Seq<SupervisedChild>, exits: Seq<ActorId>)
    ensures
        same_policies(cs, mark_all_dead(cs, exits)),
    decreases exits.len(),
{
    if exits.len() > 0 {
        lemma_mark_all_dead_keeps_policies(cs, exits.drop_last());
        let mid = mark_all_dead(cs, exits.drop_last());
        lemma_mark_dead_keeps_policies(mid, exits.last());
        let fin = mark_dead(mid, exits.last());
        assert forall|i: int| 0 <= i < cs.len() implies #[trigger] cs[i].policy == fin[i].policy by {
            assert(cs[i].policy == mid[i].policy);
            assert(mid[i].policy == fin[i].policy);
        }
    }
}

/// A batch restart restarts exactly the children it terminated: when an exit
/// leads to `TerminateBatch(ids)`, the ids taken once the batch completes are
/// `ids` again, whatever exits are noted while the batch runs.
pub proof fn lemma_batch_restarts_what_it_terminated(
    pre: LogicView,
    a: ActorId,
    reason: ExitReason,
    now: Instant,
    exits: Seq<ActorId>,
)
    requires
        exit_outcome(pre, a, reason, now).1 is TerminateBatch,
    ensures
        ({
            let post = exit_outcome(pre, a, reason, now).0;
            &&& post.suppress
            &&& post.pending is Some
            &&& pending_ids(mark_all_dead(post.children, exits), post.pending->0)
                == exit_outcome(pre, a, reason, now).1->TerminateBatch_0
        }),
{
    let post = exit_outcome(pre, a, reason, now).0;
    lemma_mark_all_dead_keeps_policies(post.children, exits);
    match post.pending {
        Some(BatchRestart::All) => lemma_same_policies_ids(post.children, mark_all_dead(post.children, exits), 0),
        Some(BatchRestart::FromIndex(k)) => lemma_same_policies_ids(post.children, mark_all_dead(post.children, exits), k),
        None => {},
    }
}

/// While a batch restart is in progress, exits are ignored and change nothing.
pub proof fn lemma_suppressed_exit_is_ignored(pre: LogicView, a: ActorId, reason: ExitReason, now: Instant)
    requires
        pre.suppress,
    ensures
        exit_outcome(pre, a, reason, now) == (pre, ActionView::Ignore),
{
}

/// Under OneForOne, a restartable exit within the intensity limit restarts
/// exactly the child that exited.
pub proof fn lemma_one_for_one_restarts_exited_child(pre: LogicView, a: ActorId, reason: ExitReason, now: Instant)
    requires
        pre.strategy is OneForOne,
        !pre.suppress,
        exists|j: int| 0 <= j < pre.children.len() && alive_as(#[trigger] pre.children[j], a),
        spec_should_restart(pre.children[first_index(pre.children, alive_pred(a))].policy.restart, reason),
        recorded(pre.tracker, now).1,
    ensures
        ({
            let i = first_index(pre.children, alive_pred(a));
            &&& 0 <= i < pre.children.len()
            &&& alive_as(pre.children[i], a)
            &&& exit_outcome(pre, a, reason, now).1 == ActionView::RestartOne(pre.children[i].policy.id)
            &&& !exit_outcome(pre, a, reason, now).0.suppress
        }),
{
    lemma_first_index(pre.children, alive_pred(a));
}

/// Under OneForAll, a restartable exit within the intensity limit terminates
/// every child, in registration order, and arms a restart of all of them.
pub proof fn lemma_one_for_all_terminates_all(pre: LogicView, a: ActorId, reason: ExitReason, now: Instant)
    requires
        pre.strategy is OneForAll,
        !pre.suppress,
        exists|j: int| 0 <= j < pre.children.len() && alive_as(#[trigger] pre.children[j], a),
        spec_should_restart(pre.children[first_index(pre.children, alive_pred(a))].policy.restart, reason),
        recorded(pre.tracker, now).1,
    ensures
        exit_outcome(pre, a, reason, now).1 == ActionView::TerminateBatch(child_ids(pre.children)),
        exit_outcome(pre, a, reason, now).0.suppress,
        exit_outcome(pre, a, reason, now).0.pending == Some(BatchRestart::All),
{
    lemma_first_index(pre.children, alive_pred(a));
    let i = first_index(pre.children, alive_pred(a));
    let updated = pre.children.update(i, marked_dead(pre.children[i]));
    assert(same_policies(pre.children, updated));
    lemma_same_policies_ids(pre.children, updated, 0);
}

/// Under RestForOne, a restartable exit within the intensity limit
/// terminates the exited child and every child started after it (those whose
/// start index is at least its own), in registration order, and arms a
/// restart of them.
pub proof fn lemma_rest_for_one_terminates_later(pre: LogicView, a: ActorId, reason: ExitReason, now: Instant)
    requires
        pre.strategy is RestForOne,
        !pre.suppress,
        exists|j: int| 0 <= j < pre.children.len() && alive_as(#[trigger] pre.children[j], a),
        spec_should_restart(pre.children[first_index(pre.children, alive_pred(a))].policy.restart, reason),
        recorded(pre.tracker, now).1,
    ensures
        ({
            let i = first_index(pre.children, alive_pred(a));
            let from = pre.children[i].policy.start_index;
            &&& 0 <= i < pre.children.len()
            &&& exit_outcome(pre, a, reason, now).1 == ActionView::TerminateBatch(ids_from(pre.children, from))
            &&& exit_outcome(pre, a, reason, now).0.suppress
            &&& exit_outcome(pre, a, reason, now).0.pending == Some(BatchRestart::FromIndex(from))
        }),
{
    lemma_first_index(pre.children, alive_pred(a));
    let i = first_index(pre.children, alive_pred(a));
    let updated = pre.children.update(i, marked_dead(pre.children[i]));
    assert(same_policies(pre.children, updated));
    lemma_same_policies_ids(pre.children, updated, pre.children[i].policy.start_index);
}

/// An exit never adds or removes children, and never changes their policies.
pub proof fn lemma_exit_keeps_policies(pre: LogicView, a: ActorId, reason: ExitReason, now: Instant)
    ensures
        same_policies(pre.children, exit_outcome(pre, a, reason, now).0.children),
{
    lemma_first_index(pre.children, alive_pred(a));
}

/// Whatever the supervisor decides on the exit of one of its live children,
/// the exit is recorded: that child keeps its place and policy but is no
/// longer alive, no other child changes, and one child fewer is alive.
pub proof fn lemma_exit_records_death(pre: LogicView, a: ActorId, reason: ExitReason, now: Instant)
    requires
        !pre.suppress,
        first_index(pre.children, alive_pred(a)) >= 0,
    ensures
        ({
            let post = exit_outcome(pre, a, reason, now).0.children;
            let i = first_index(pre.children, alive_pred(a));
            &&& post.len() == pre.children.len()
            &&& count_alive(post) + 1 == count_alive(pre.children)
            &&& !is_alive(post[i])
            &&& post[i].policy == pre.children[i].policy
            &&& forall|j: int| 0 <= j < post.len() && j != i ==> post[j] == pre.children[j]
        }),
{
    lemma_first_index(pre.children, alive_pred(a));
    let i = first_index(pre.children, alive_pred(a));
    lemma_count_alive_update(pre.children, i, marked_dead(pre.children[i]));
}

/// Marking an actor dead lowers the live count by one when it had a live
/// child, and leaves it unchanged otherwise.
pub proof fn lemma_mark_dead_count(cs: Seq<SupervisedChild>, a: ActorId)
    ensures
        count_alive(mark_dead(cs, a)) == count_alive(cs)
            - (if first_index(cs, alive_pred(a)) >= 0 { 1int } else { 0int }),
{
    lemma_first_index(cs, alive_pred(a));
    let i = first_index(cs, alive_pred(a));
    if i >= 0 {
        lemma_count_alive_update(cs, i, marked_dead(cs[i]));
    }
}

proof fn lemma_count_alive_update(cs: Seq<SupervisedChild>, i: int, c: SupervisedChild)
    requires
        0 <= i < cs.len(),
    ensures
        count_alive(cs.update(i, c)) == count_alive(cs)
            - (if is_alive(cs[i]) { 1int } else { 0int })
            + (if is_alive(c) { 1int } else { 0int }),
    decreases cs.len(),
{
    if i == cs.len() - 1 {
        assert(cs.update(i, c).drop_last() =~= cs.drop_last());
    } else {
        lemma_count_alive_update(cs.drop_last(), i, c);
        assert(cs.update(i, c).drop_last() =~= cs.drop_last().update(i, c));
    }
}

/// The next start index is larger than every start index in use.
pub proof fn lemma_next_start_index_is_fresh(cs: Seq<SupervisedChild>)
    ensures
        forall|i: int| 0 <= i < cs.len() ==> #[trigger] cs[i].policy.start_index < max_start_index(cs) + 1,
    decreases cs.len(),
{
    if cs.len() > 0 {
        lemma_next_start_index_is_fresh(cs.drop_last());
        let m = max_start_index(cs.drop_last());
        assert(max_start_index(cs) >= m);
        assert(max_start_index(cs) >= cs.last().policy.start_index);
        assert forall|i: int| 0 <= i < cs.len() implies #[trigger] cs[i].policy.start_index < max_start_index(cs) + 1 by {
            if i < cs.len() - 1 {
                assert(cs[i] == cs.drop_last()[i]);
                assert(cs.drop_last()[i].policy.start_index < m + 1);
            } else {
                assert(cs[i] == cs.last());
            }
        }
    }
}

/// Ids are unique among the children.
pub open spec fn unique_ids(cs: Seq<SupervisedChild>) -> bool {
    forall|i: int, j: int| 0 <= i < j < cs.len() ==> #[trigger] cs[i].policy.id@ != #[trigger] cs[j].policy.id@
}

/// With unique ids, removing a child by id leaves no child with that id.
pub proof fn lemma_remove_by_unique_id(cs: Seq<SupervisedChild>, id: Seq<char>)
    requires
        unique_ids(cs),
    ensures
        ({
            let i = first_index(cs, id_pred(id));
            let rest = if i >= 0 { cs.remove(i) } else { cs };
            forall|j: int| 0 <= j < rest.len() ==> !id_is(#[trigger] rest[j], id)
        }),
{
    lemma_first_index(cs, id_pred(id));
    let i = first_index(cs, id_pred(id));
    if i >= 0 {
        let rest = cs.remove(i);
        assert forall|j: int| 0 <= j < rest.len() implies !id_is(#[trigger] rest[j], id) by {
            if j < i {
                assert(rest[j] == cs[j]);
            } else {
                assert(rest[j] == cs[j + 1]);
                assert(cs[i].policy.id@ != cs[j + 1].policy.id@);
            }
        }
    }
}

} // verus!
