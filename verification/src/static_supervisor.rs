use vstd::prelude::*;
use crate::child_spec::{ChildSpec, RestartBackoff, RestartIntensity, ShutdownType};
use crate::error::ExitReason;
use crate::ids::ActorId;
use crate::seq_util::{first_index, is_first, lemma_first_index};
use crate::supervisor::{
    ActionView, ChildHandleSlot, ChildPolicy, LogicView, SupervisedChild, SupervisorAction, SupervisorLogic,
    SupervisorStrategy, batch_complete, exit_outcome, id_pred, is_shutdown_order, mark_dead, pending_ids,
    with_children,
};
use crate::time::Instant;

verus! {

/// What a static supervisor's runtime does after a child exit.
#[derive(Debug, PartialEq, Eq)]
pub enum SupervisorStep {
    /// Nothing.
    Nothing,
    /// Restart these children, in this order, each after its backoff.
    Restart(Vec<String>),
    /// Shut these children down (then report with `batch_terminated`).
    Terminate(Vec<String>),
    /// Restart intensity exceeded: stop the supervisor.
    Stop,
}

/// Decision state of a supervisor with a fixed list of child specs, some of
/// which may run on other nodes.
pub struct StaticSupervisor<S> {
    logic: SupervisorLogic,
    specs: Vec<ChildSpec<S>>,
    remote_ids: Vec<String>,
}

/// Abstract state of a static supervisor.
pub struct StaticView<S> {
    pub logic: LogicView,
    pub specs: Seq<ChildSpec<S>>,
    /// Ids of the children started on other nodes.
    pub remote_ids: Seq<String>,
}

impl<S> View for StaticSupervisor<S> {
    type V = StaticView<S>;

    closed spec fn view(&self) -> StaticView<S> {
        StaticView { logic: self.logic@, specs: self.specs@, remote_ids: self.remote_ids@ }
    }
}

/// Specs with id `id`.
pub open spec fn spec_named<S>(id: Seq<char>) -> spec_fn(ChildSpec<S>) -> bool {
    |s: ChildSpec<S>| s.id@ == id
}

/// Shutdown policy of the first spec with id `id`; `Infinity` when none has it.
pub open spec fn spec_shutdown<S>(specs: Seq<ChildSpec<S>>, id: Seq<char>) -> ShutdownType {
    let i = first_index(specs, spec_named::<S>(id));
    if 0 <= i {
        specs[i].shutdown
    } else {
        ShutdownType::Infinity
    }
}

/// Restart backoff of the first spec with id `id`; no delay when none has it.
pub open spec fn spec_backoff<S>(specs: Seq<ChildSpec<S>>, id: Seq<char>) -> RestartBackoff {
    let i = first_index(specs, spec_named::<S>(id));
    if 0 <= i {
        specs[i].backoff
    } else {
        RestartBackoff::NoDelay
    }
}

/// Whether text `id` occurs among `ids`.
pub open spec fn has_id(ids: Seq<String>, id: Seq<char>) -> bool {
    exists|k: int| 0 <= k < ids.len() && (#[trigger] ids[k])@ == id
}

/// The ids of `ids` that are (`remote`) or are not (`!remote`) remote, in order.
pub open spec fn ids_where(ids: Seq<String>, remote_ids: Seq<String>, remote: bool) -> Seq<String>
    decreases ids.len(),
{
    if ids.len() == 0 {
        Seq::empty()
    } else {
        let sub = ids_where(ids.drop_last(), remote_ids, remote);
        if has_id(remote_ids, ids.last()@) == remote {
            sub.push(ids.last())
        } else {
            sub
        }
    }
}

/// Restart order of a batch: remote children first, then local ones, each
/// group in its original order.
pub open spec fn restart_order(ids: Seq<String>, remote_ids: Seq<String>) -> Seq<String> {
    ids_where(ids, remote_ids, true) + ids_where(ids, remote_ids, false)
}

/// The children of `ids` paired with their shutdown policies.
pub open spec fn with_shutdowns<S>(specs: Seq<ChildSpec<S>>, ids: Seq<String>) -> Seq<(String, ShutdownType)> {
    ids.map_values(|id: String| (id, spec_shutdown(specs, id@)))
}

impl<S> StaticSupervisor<S> {
    /// A supervisor for `specs` with nothing started yet.
    pub fn new(strategy: SupervisorStrategy, intensity: RestartIntensity, specs: Vec<ChildSpec<S>>) -> (s: Self)
        ensures
            s@.logic.strategy == strategy,
            s@.logic.tracker.intensity == intensity,
            s@.logic.tracker.timestamps.len() == 0,
            s@.logic.children.len() == 0,
            !s@.logic.suppress,
            s@.logic.pending is None,
            s@.specs == specs@,
            s@.remote_ids.len() == 0,
    {
        StaticSupervisor { logic: SupervisorLogic::new(strategy, intensity), specs, remote_ids: Vec::new() }
    }

    /// The child specs, in start order.
    pub fn specs(&self) -> (s: &Vec<ChildSpec<S>>)
        ensures
            s@ == self@.specs,
    {
        &self.specs
    }

    /// The supervision state.
    pub fn logic(&self) -> (l: &SupervisorLogic)
        ensures
            l@ == self@.logic,
    {
        &self.logic
    }

    fn find_spec(&self, id: &String) -> (r: Option<usize>)
        ensures
            match r {
                Some(i) => is_first(self@.specs, spec_named::<S>(id@), i as int),
                None => forall|k: int| 0 <= k < self@.specs.len() ==> !spec_named::<S>(id@)(#[trigger] self@.specs[k]),
            },
    {
        let mut i: usize = 0;
        while i < self.specs.len()
            invariant
                i <= self.specs.len(),
                forall|k: int| 0 <= k < i ==> !spec_named::<S>(id@)(#[trigger] self@.specs[k]),
            decreases self.specs.len() - i,
        {
            if self.specs[i].id == *id {
                return Some(i);
            }
            i = i + 1;
        }
        None
    }

    /// Shutdown policy of child `id` (`Infinity` for an unknown id).
    pub fn shutdown_for(&self, id: &String) -> (s: ShutdownType)
        ensures
            s == spec_shutdown(self@.specs, id@),
    {
        let found = self.find_spec(id);
        proof {
            lemma_first_index(self@.specs, spec_named::<S>(id@));
        }
        match found {
            Some(i) => self.specs[i].shutdown,
            None => ShutdownType::Infinity,
        }
    }

    /// Restart backoff of child `id` (no delay for an unknown id).
    pub fn backoff_for(&self, id: &String) -> (b: RestartBackoff)
        ensures
            b == spec_backoff(self@.specs, id@),
    {
        let found = self.find_spec(id);
        proof {
            lemma_first_index(self@.specs, spec_named::<S>(id@));
        }
        match found {
            Some(i) => self.specs[i].backoff,
            None => RestartBackoff::NoDelay,
        }
    }

    /// Whether child `id` runs on another node.
    pub fn is_remote(&self, id: &String) -> (b: bool)
        ensures
            b == has_id(self@.remote_ids, id@),
    {
        let mut i: usize = 0;
        while i < self.remote_ids.len()
            invariant
                i <= self.remote_ids.len(),
                forall|k: int| 0 <= k < i ==> (#[trigger] self@.remote_ids[k])@ != id@,
            decreases self.remote_ids.len() - i,
        {
            if self.remote_ids[i] == *id {
                return true;
            }
            i = i + 1;
        }
        false
    }

    /// The child of spec `index` started as `actor` (on another node when
    /// `remote`): it is supervised with its spec's policy and start index.
    pub fn child_started(&mut self, index: usize, actor: ActorId, remote: bool)
        requires
            index < old(self)@.specs.len(),
        ensures
            final(self)@.specs == old(self)@.specs,
            final(self)@.logic == with_children(old(self)@.logic, old(self)@.logic.children.push(SupervisedChild {
                policy: ChildPolicy {
                    id: old(self)@.specs[index as int].id,
                    restart: old(self)@.specs[index as int].restart,
                    start_index: index,
                },
                handle: Some(ChildHandleSlot { id: actor, alive: true }),
            })),
            final(self)@.remote_ids == if remote {
                old(self)@.remote_ids.push(old(self)@.specs[index as int].id)
            } else {
                old(self)@.remote_ids
            },
    {
        let id = self.specs[index].id.clone();
        let restart = self.specs[index].restart;
        if remote {
            self.remote_ids.push(id.clone());
        }
        self.logic.register_child(ChildPolicy { id, restart, start_index: index }, ChildHandleSlot { id: actor, alive: true });
    }

    /// Child `id` was started again as `actor`.
    pub fn child_restarted(&mut self, id: &str, actor: ActorId)
        ensures
            final(self)@.specs == old(self)@.specs,
            final(self)@.remote_ids == old(self)@.remote_ids,
            final(self)@.logic == with_children(old(self)@.logic,
                if first_index(old(self)@.logic.children, id_pred(id@)) >= 0 {
                    old(self)@.logic.children.update(
                        first_index(old(self)@.logic.children, id_pred(id@)),
                        SupervisedChild {
                            policy: old(self)@.logic.children[first_index(old(self)@.logic.children, id_pred(id@))].policy,
                            handle: Some(ChildHandleSlot { id: actor, alive: true }),
                        })
                } else {
                    old(self)@.logic.children
                }),
    {
        self.logic.replace_child_handle(id, ChildHandleSlot { id: actor, alive: true });
    }

    /// A remote child could not be started again: it is no longer supervised.
    pub fn remote_restart_failed(&mut self, id: &str)
        ensures
            final(self)@.specs == old(self)@.specs,
            final(self)@.remote_ids == old(self)@.remote_ids,
            final(self)@.logic == with_children(old(self)@.logic,
                if first_index(old(self)@.logic.children, id_pred(id@)) >= 0 {
                    old(self)@.logic.children.remove(first_index(old(self)@.logic.children, id_pred(id@)))
                } else {
                    old(self)@.logic.children
                }),
    {
        self.logic.remove_child_by_id(id);
    }

    /// A terminated local child running as `actor` has exited.
    pub fn child_terminated(&mut self, actor: ActorId)
        ensures
            final(self)@.specs == old(self)@.specs,
            final(self)@.remote_ids == old(self)@.remote_ids,
            final(self)@.logic == with_children(old(self)@.logic, mark_dead(old(self)@.logic.children, actor)),
    {
        self.logic.mark_child_dead(actor);
    }

    fn order_restarts(&self, ids: Vec<String>) -> (r: Vec<String>)
        ensures
            r@ == restart_order(ids@, self@.remote_ids),
    {
        let mut remote: Vec<String> = Vec::new();
        let mut local: Vec<String> = Vec::new();
        let mut i: usize = 0;
        while i < ids.len()
            invariant
                i <= ids.len(),
                remote@ == ids_where(ids@.take(i as int), self@.remote_ids, true),
                local@ == ids_where(ids@.take(i as int), self@.remote_ids, false),
            decreases ids.len() - i,
        {
            proof {
                assert(ids@.take(i as int + 1).drop_last() =~= ids@.take(i as int));
            }
            if self.is_remote(&ids[i]) {
                remote.push(ids[i].clone());
            } else {
                local.push(ids[i].clone());
            }
            i = i + 1;
        }
        assert(ids@.take(ids.len() as int) =~= ids@);
        let mut out = remote;
        let mut j: usize = 0;
        let ghost r0 = out@;
        while j < local.len()
            invariant
                j <= local.len(),
                out@ == r0 + local@.take(j as int),
            decreases local.len() - j,
        {
            out.push(local[j].clone());
            j = j + 1;
            assert(out@ =~= r0 + local@.take(j as int));
        }
        assert(local@.take(local.len() as int) =~= local@);
        out
    }

    /// The pending batch restart, once its children are all down: the ids to
    /// restart (remote ones first) and restarts allowed again; `None` while
    /// it is still waiting or when no batch is pending.
    pub fn batch_terminated(&mut self) -> (r: Option<Vec<String>>)
        ensures
            final(self)@.specs == old(self)@.specs,
            final(self)@.remote_ids == old(self)@.remote_ids,
            !batch_complete(old(self)@.logic) ==> r is None && final(self)@.logic == old(self)@.logic,
            batch_complete(old(self)@.logic) ==> (r matches Some(ids)
                && ids@ == restart_order(pending_ids(old(self)@.logic.children, old(self)@.logic.pending->0), old(self)@.remote_ids))
                && final(self)@.logic == (LogicView { suppress: false, pending: None, ..old(self)@.logic }),
    {
        if !self.logic.pending_batch_restart_complete() {
            return None;
        }
        match self.logic.take_pending_restart_ids() {
            Some(ids) => Some(self.order_restarts(ids)),
            None => None,
        }
    }

    /// Take the exit of child actor `from` with `reason` at `now`.
    ///
    /// During a batch restart the exit only marks the child dead, and the
    /// batch restarts once all its children are down. Otherwise the exit
    /// goes through the restart policy: a single restart, a batch to shut
    /// down, a meltdown that stops the supervisor, or nothing.
    pub fn on_exit(&mut self, from: ActorId, reason: &ExitReason, now: Instant) -> (step: SupervisorStep)
        ensures
            final(self)@.specs == old(self)@.specs,
            final(self)@.remote_ids == old(self)@.remote_ids,
            old(self)@.logic.suppress ==> {
                let marked = with_children(old(self)@.logic, mark_dead(old(self)@.logic.children, from));
                if batch_complete(marked) {
                    &&& step matches SupervisorStep::Restart(ids)
                        && ids@ == restart_order(pending_ids(marked.children, marked.pending->0), old(self)@.remote_ids)
                    &&& final(self)@.logic == (LogicView { suppress: false, pending: None, ..marked })
                } else {
                    step == SupervisorStep::Nothing && final(self)@.logic == marked
                }
            },
            !old(self)@.logic.suppress ==> {
                let (decided, action) = exit_outcome(old(self)@.logic, from, *reason, now);
                &&& final(self)@.logic == decided
                &&& match action {
                    ActionView::Ignore => step == SupervisorStep::Nothing,
                    ActionView::RestartOne(id) => step matches SupervisorStep::Restart(ids) && ids@ == seq![id],
                    ActionView::TerminateBatch(ids) => step matches SupervisorStep::Terminate(t) && t@ == ids,
                    ActionView::Meltdown => step == SupervisorStep::Stop,
                }
            },
    {
        if self.logic.suppress_restarts() {
            self.logic.note_exit_during_batch(from);
            return match self.batch_terminated() {
                Some(ids) => SupervisorStep::Restart(ids),
                None => SupervisorStep::Nothing,
            };
        }
        match self.logic.on_child_exit(from, reason, now) {
            SupervisorAction::Ignore => SupervisorStep::Nothing,
            SupervisorAction::RestartOne(id) => {
                let mut ids: Vec<String> = Vec::new();
                ids.push(id);
                assert(ids@ =~= seq![id]);
                SupervisorStep::Restart(ids)
            },
            SupervisorAction::TerminateBatch(ids) => SupervisorStep::Terminate(ids),
            SupervisorAction::Meltdown => SupervisorStep::Stop,
        }
    }

    /// The children of `ids` with their shutdown policies, in that order.
    pub fn shutdown_plan(&self, ids: &Vec<String>) -> (plan: Vec<(String, ShutdownType)>)
        ensures
            plan@ == with_shutdowns(self@.specs, ids@),
    {
        let mut plan: Vec<(String, ShutdownType)> = Vec::new();
        let mut i: usize = 0;
        while i < ids.len()
            invariant
                i <= ids.len(),
                plan@ == with_shutdowns(self@.specs, ids@.take(i as int)),
            decreases ids.len() - i,
        {
            let s = self.shutdown_for(&ids[i]);
            plan.push((ids[i].clone(), s));
            i = i + 1;
            assert(plan@ =~= with_shutdowns(self@.specs, ids@.take(i as int)));
        }
        assert(ids@.take(ids.len() as int) =~= ids@);
        plan
    }

    /// Begin stopping the supervisor: restarts are suppressed and every
    /// child is returned, latest started first, with its shutdown policy.
    pub fn begin_stop(&mut self) -> (plan: Vec<(String, ShutdownType)>)
        ensures
            final(self)@.specs == old(self)@.specs,
            final(self)@.remote_ids == old(self)@.remote_ids,
            final(self)@.logic == (LogicView { suppress: true, ..old(self)@.logic }),
            exists|order: Seq<String>| #![trigger with_shutdowns(old(self)@.specs, order)] {
                &&& is_shutdown_order(old(self)@.logic.children, order)
                &&& plan@ == with_shutdowns(old(self)@.specs, order)
            },
    {
        self.logic.set_suppress_restarts(true);
        let order = self.logic.shutdown_order();
        let plan = self.shutdown_plan(&order);
        assert(self@.logic.children == old(self)@.logic.children);
        assert(is_shutdown_order(old(self)@.logic.children, order@));
        assert(plan@ == with_shutdowns(old(self)@.specs, order@));
        plan
    }
}

} // verus!
