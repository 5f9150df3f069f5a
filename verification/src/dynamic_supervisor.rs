use vstd::prelude::*;
use crate::child_spec::{RestartIntensity, RestartType, ShutdownType};
use crate::error::ExitReason;
use crate::ids::ActorId;
use crate::seq_util::{first_index, is_first, lemma_first_index, retain_flagged, select};
use crate::supervisor::{
    ActionView, ChildHandleSlot, ChildInfo, ChildPolicy, LogicView, SupervisedChild, SupervisorAction,
    SupervisorLogic, SupervisorStrategy, count_alive, exit_outcome, handle_pred, id_is, id_pred, listed,
    max_start_index, with_children, is_shutdown_order, unique_ids, lemma_remove_by_unique_id, alive_pred,
    alive_as,
};
use crate::time::Instant;

verus! {

/// Errors returned by dynamic supervisor operations.
#[derive(Debug, Clone, PartialEq, Eq)]
pub enum DynamicSupervisorError {
    /// The supervisor already runs its maximum number of children.
    MaxChildrenExceeded,
    /// No child runs as this actor.
    ChildNotFound(ActorId),
    /// A child with this id is already registered.
    DuplicateChildId(String),
    /// The supervisor is shutting down.
    SupervisorStopping,
    /// Registering the child's name failed.
    Registry(String),
    /// Spawning the child on a remote node failed.
    RemoteSpawn(String),
}

/// Runtime metadata of a dynamically supervised child.
#[derive(Debug, Clone, PartialEq, Eq)]
pub struct DynamicChildInfo {
    pub id: String,
    pub actor_id: ActorId,
    pub alive: bool,
    pub restart: RestartType,
    pub shutdown: ShutdownType,
}

/// The decimal digit `d` as a character.
pub open spec fn digit_char(d: nat) -> char {
    (48 + d) as char
}

/// Decimal representation of `n`, most significant digit first.
pub open spec fn decimal(n: nat) -> Seq<char>
    decreases n,
{
    if n < 10 {
        seq![digit_char(n)]
    } else {
        decimal(n / 10).push(digit_char(n % 10))
    }
}

fn digit_str(d: u64) -> (s: &'static str)
    requires
        d < 10,
    ensures
        s@ == seq![digit_char(d as nat)],
{
    match d {
        0 => {
            proof {
                reveal_strlit("0");
            }
            "0"
        },
        1 => {
            proof {
                reveal_strlit("1");
            }
            "1"
        },
        2 => {
            proof {
                reveal_strlit("2");
            }
            "2"
        },
        3 => {
            proof {
                reveal_strlit("3");
            }
            "3"
        },
        4 => {
            proof {
                reveal_strlit("4");
            }
            "4"
        },
        5 => {
            proof {
                reveal_strlit("5");
            }
            "5"
        },
        6 => {
            proof {
                reveal_strlit("6");
            }
            "6"
        },
        7 => {
            proof {
                reveal_strlit("7");
            }
            "7"
        },
        8 => {
            proof {
                reveal_strlit("8");
            }
            "8"
        },
        _ => {
            proof {
                reveal_strlit("9");
            }
            "9"
        },
    }
}

/// Decimal text of `n`.
pub fn decimal_string(n: u64) -> (s: String)
    ensures
        s@ == decimal(n as nat),
    decreases n,
{
    if n < 10 {
        digit_str(n).to_owned()
    } else {
        let mut s = decimal_string(n / 10);
        s.append(digit_str(n % 10));
        s
    }
}

/// Id of an instance of a child template: the template id, `#`, and the
/// instance counter in decimal.
pub open spec fn instance_id_text(template_id: Seq<char>, counter: nat) -> Seq<char> {
    template_id + seq!['#'] + decimal(counter)
}

/// Unique instance id built from a template id and a counter.
pub fn instance_id(template_id: &str, counter: u64) -> (s: String)
    ensures
        s@ == instance_id_text(template_id@, counter as nat),
{
    let mut s = template_id.to_owned();
    let hash = "#";
    proof {
        reveal_strlit("#");
    }
    s.append(hash);
    let digits = decimal_string(counter);
    s.append(digits.as_str());
    s
}


/// Builder for a dynamic supervisor: its restart intensity and child limit.
#[derive(Debug, Clone, Copy, PartialEq, Eq, Structural)]
pub struct DynamicSupervisorBuilder {
    pub intensity: RestartIntensity,
    pub max_children: Option<usize>,
}

impl DynamicSupervisorBuilder {
    /// The default intensity and no child limit.
    pub fn new() -> (b: Self)
        ensures
            b.intensity.max_restarts == 3,
            b.intensity.within@ == 5000000000,
            b.max_children is None,
    {
        DynamicSupervisorBuilder { intensity: RestartIntensity::default(), max_children: None }
    }

    /// Use this restart intensity.
    pub fn intensity(self, intensity: RestartIntensity) -> (b: Self)
        ensures
            b == (DynamicSupervisorBuilder { intensity, ..self }),
    {
        DynamicSupervisorBuilder { intensity, ..self }
    }

    /// Allow at most `max` live children.
    pub fn max_children(self, max: usize) -> (b: Self)
        ensures
            b == (DynamicSupervisorBuilder { max_children: Some(max), ..self }),
    {
        DynamicSupervisorBuilder { max_children: Some(max), ..self }
    }

    /// The state of a fresh dynamic supervisor with this configuration.
    pub fn build<S, H>(self) -> (d: DynamicSupervisorState<S, H>)
        ensures
            d@.logic.strategy == SupervisorStrategy::OneForOne,
            d@.logic.tracker.intensity == self.intensity,
            d@.logic.tracker.timestamps.len() == 0,
            d@.logic.children.len() == 0,
            !d@.logic.suppress,
            d@.logic.pending is None,
            d@.children.len() == 0,
            d@.id_counter == 0,
            d@.max_children == self.max_children,
            !d@.stopping,
    {
        DynamicSupervisorState {
            logic: SupervisorLogic::new(SupervisorStrategy::OneForOne, self.intensity),
            children: Vec::new(),
            id_counter: 0,
            max_children: self.max_children,
            stopping: false,
        }
    }
}

impl Default for DynamicSupervisorBuilder {
    fn default() -> (b: Self)
        ensures
            b.intensity.max_restarts == 3,
            b.intensity.within@ == 5000000000,
            b.max_children is None,
    {
        Self::new()
    }
}

/// Request to terminate the child running as `actor_id`.
#[derive(Debug, Clone, Copy, PartialEq, Eq, Structural)]
pub struct TerminateChild {
    pub actor_id: ActorId,
}

/// Request for the number of live children.
#[derive(Debug, Clone, Copy, PartialEq, Eq, Structural)]
pub struct CountChildren;

/// Request for the metadata of all children.
#[derive(Debug, Clone, Copy, PartialEq, Eq, Structural)]
pub struct WhichChildren;

/// A dynamically started child: its instance id, its spec (how to start it
/// again), its shutdown policy, its running handle and actor, and the name
/// it was registered under, if any.
pub struct DynamicChild<S, H> {
    pub id: String,
    pub spec: S,
    pub shutdown: ShutdownType,
    pub handle: H,
    pub actor: ActorId,
    pub reg_name: Option<String>,
}

/// Decision state of a dynamic supervisor (one-for-one supervision of
/// children started at run time).
pub struct DynamicSupervisorState<S, H> {
    logic: SupervisorLogic,
    children: Vec<DynamicChild<S, H>>,
    id_counter: u64,
    max_children: Option<usize>,
    stopping: bool,
}

/// Abstract state of a dynamic supervisor.
pub struct DynamicView<S, H> {
    pub logic: LogicView,
    pub children: Seq<DynamicChild<S, H>>,
    pub id_counter: u64,
    pub max_children: Option<usize>,
    pub stopping: bool,
}

impl<S, H> View for DynamicSupervisorState<S, H> {
    type V = DynamicView<S, H>;

    closed spec fn view(&self) -> DynamicView<S, H> {
        DynamicView {
            logic: self.logic@,
            children: self.children@,
            id_counter: self.id_counter,
            max_children: self.max_children,
            stopping: self.stopping,
        }
    }
}

/// Children with instance id `id`.
pub open spec fn child_named<S, H>(id: Seq<char>) -> spec_fn(DynamicChild<S, H>) -> bool {
    |c: DynamicChild<S, H>| c.id@ == id
}

/// Children running as actor `a`.
pub open spec fn child_running<S, H>(a: ActorId) -> spec_fn(DynamicChild<S, H>) -> bool {
    |c: DynamicChild<S, H>| c.actor == a
}

/// Keep-flags of the children whose id is not `id`.
pub open spec fn not_named<S, H>(cs: Seq<DynamicChild<S, H>>, id: Seq<char>) -> Seq<bool> {
    Seq::new(cs.len(), |k: int| cs[k].id@ != id)
}

/// Outcome of asking to start an instance of template `template_id`: a
/// stopping supervisor refuses; one at its child limit refuses; otherwise the
/// instance counter advances and the new instance id is returned, unless a
/// child already has it.
pub open spec fn start_decided<S, H>(pre: DynamicView<S, H>, template_id: Seq<char>, post: DynamicView<S, H>, r: Result<String, DynamicSupervisorError>) -> bool {
    if pre.stopping {
        r == Err::<String, DynamicSupervisorError>(DynamicSupervisorError::SupervisorStopping) && post == pre
    } else if pre.max_children matches Some(m) && count_alive(pre.logic.children) >= m {
        r == Err::<String, DynamicSupervisorError>(DynamicSupervisorError::MaxChildrenExceeded) && post == pre
    } else {
        let id = instance_id_text(template_id, (pre.id_counter + 1) as nat);
        &&& post == (DynamicView { id_counter: (pre.id_counter + 1) as u64, ..pre })
        &&& if exists|j: int| 0 <= j < pre.logic.children.len() && id_is(#[trigger] pre.logic.children[j], id) {
            r matches Err(DynamicSupervisorError::DuplicateChildId(d)) && d@ == id
        } else {
            r matches Ok(s) && s@ == id
        }
    }
}

impl<S, H> DynamicSupervisorState<S, H> {
    /// Decide on a start of template `template_id`: the instance id to start it
    /// under, or why it is refused.
    pub fn decide_start(&mut self, template_id: &str) -> (r: Result<String, DynamicSupervisorError>)
        requires
            old(self)@.id_counter < u64::MAX,
        ensures
            start_decided(old(self)@, template_id@, final(self)@, r),
    {
        if self.stopping {
            return Err(DynamicSupervisorError::SupervisorStopping);
        }
        if let Some(max) = self.max_children {
            if self.logic.child_count() >= max {
                return Err(DynamicSupervisorError::MaxChildrenExceeded);
            }
        }
        self.id_counter = self.id_counter + 1;
        let child_id = instance_id(template_id, self.id_counter);
        if self.logic.has_child_id(child_id.as_str()) {
            return Err(DynamicSupervisorError::DuplicateChildId(child_id));
        }
        Ok(child_id)
    }

    /// Number of live children.
    pub fn count_children(&self) -> (n: usize)
        ensures
            n == count_alive(self@.logic.children),
    {
        self.logic.child_count()
    }

    /// The supervision state of the children.
    pub fn logic(&self) -> (l: &SupervisorLogic)
        ensures
            l@ == self@.logic,
    {
        &self.logic
    }

    /// The children, in start order.
    pub fn children(&self) -> (cs: &Vec<DynamicChild<S, H>>)
        ensures
            cs@ == self@.children,
    {
        &self.children
    }

    fn find_child(&self, id: &String) -> (r: Option<usize>)
        ensures
            match r {
                Some(i) => is_first(self@.children, child_named::<S, H>(id@), i as int),
                None => forall|k: int| 0 <= k < self@.children.len() ==> !child_named::<S, H>(id@)(#[trigger] self@.children[k]),
            },
    {
        let mut i: usize = 0;
        while i < self.children.len()
            invariant
                i <= self.children.len(),
                forall|k: int| 0 <= k < i ==> !child_named::<S, H>(id@)(#[trigger] self@.children[k]),
            decreases self.children.len() - i,
        {
            if self.children[i].id == *id {
                return Some(i);
            }
            i = i + 1;
        }
        None
    }

    fn find_actor(&self, a: ActorId) -> (r: Option<usize>)
        ensures
            match r {
                Some(i) => is_first(self@.children, child_running::<S, H>(a), i as int),
                None => forall|k: int| 0 <= k < self@.children.len() ==> !child_running::<S, H>(a)(#[trigger] self@.children[k]),
            },
    {
        let mut i: usize = 0;
        while i < self.children.len()
            invariant
                i <= self.children.len(),
                forall|k: int| 0 <= k < i ==> !child_running::<S, H>(a)(#[trigger] self@.children[k]),
            decreases self.children.len() - i,
        {
            if self.children[i].actor == a {
                return Some(i);
            }
            i = i + 1;
        }
        None
    }

    /// Record a started child under instance id `child_id` after the existing
    /// ones, with the next start index; refused with `MaxChildrenExceeded`
    /// when no start index is left.
    pub fn add_child(
        &mut self,
        child_id: String,
        restart: RestartType,
        shutdown: ShutdownType,
        spec: S,
        handle: H,
        actor: ActorId,
    ) -> (r: Result<(), DynamicSupervisorError>)
        ensures
            max_start_index(old(self)@.logic.children) == usize::MAX ==> r == Err::<(), DynamicSupervisorError>(
                DynamicSupervisorError::MaxChildrenExceeded,
            ) && final(self)@ == old(self)@,
            max_start_index(old(self)@.logic.children) < usize::MAX ==> {
                &&& r is Ok
                &&& final(self)@ == (DynamicView {
                    logic: with_children(old(self)@.logic, old(self)@.logic.children.push(SupervisedChild {
                        policy: ChildPolicy {
                            id: child_id,
                            restart,
                            start_index: (max_start_index(old(self)@.logic.children) + 1) as usize,
                        },
                        handle: Some(ChildHandleSlot { id: actor, alive: true }),
                    })),
                    children: old(self)@.children.push(DynamicChild { id: child_id, spec, shutdown, handle, actor, reg_name: None }),
                    ..old(self)@
                })
            },
    {
        let start_index = match self.logic.last_start_index() {
            Some(m) => {
                if m == usize::MAX {
                    return Err(DynamicSupervisorError::MaxChildrenExceeded);
                }
                m + 1
            },
            None => 0,
        };
        self.logic.register_child(
            ChildPolicy { id: child_id.clone(), restart, start_index },
            ChildHandleSlot { id: actor, alive: true },
        );
        self.children.push(DynamicChild { id: child_id, spec, shutdown, handle, actor, reg_name: None });
        Ok(())
    }

    /// Remember the registry name of child `child_id` (the first child with
    /// that id); no effect when there is none.
    pub fn set_reg_name(&mut self, child_id: &String, name: String)
        ensures
            final(self)@.logic == old(self)@.logic,
            final(self)@.id_counter == old(self)@.id_counter,
            final(self)@.max_children == old(self)@.max_children,
            final(self)@.stopping == old(self)@.stopping,
            ({
                let i = first_index(old(self)@.children, child_named::<S, H>(child_id@));
                if 0 <= i {
                    final(self)@.children.len() == old(self)@.children.len()
                    && (forall|k: int| 0 <= k < old(self)@.children.len() && k != i
                        ==> #[trigger] final(self)@.children[k] == old(self)@.children[k])
                    && final(self)@.children[i].reg_name == Some(name)
                    && final(self)@.children[i].id == old(self)@.children[i].id
                    && final(self)@.children[i].actor == old(self)@.children[i].actor
                    && final(self)@.children[i].shutdown == old(self)@.children[i].shutdown
                    && final(self)@.children[i].spec == old(self)@.children[i].spec
                    && final(self)@.children[i].handle == old(self)@.children[i].handle
                } else {
                    final(self)@.children == old(self)@.children
                }
            }),
    {
        let found = self.find_child(child_id);
        proof {
            lemma_first_index(self@.children, child_named::<S, H>(child_id@));
        }
        if let Some(i) = found {
            self.children[i].reg_name = Some(name);
        }
    }
}


/// Children that are not named `id`, in order.
pub open spec fn without_child<S, H>(cs: Seq<DynamicChild<S, H>>, id: Seq<char>) -> Seq<DynamicChild<S, H>> {
    select(cs, not_named(cs, id))
}

/// The supervision state after the first child with id `id` is removed.
pub open spec fn logic_without<S, H>(l: LogicView, id: Seq<char>) -> LogicView {
    let i = first_index(l.children, id_pred(id));
    with_children(l, if i >= 0 { l.children.remove(i) } else { l.children })
}

/// The registry name of the first child with id `id`, if any.
pub open spec fn reg_name_of<S, H>(cs: Seq<DynamicChild<S, H>>, id: Seq<char>) -> Option<String> {
    let i = first_index(cs, child_named::<S, H>(id));
    if 0 <= i {
        cs[i].reg_name
    } else {
        None
    }
}

/// What the runtime does after a child exit was taken.
#[derive(Debug)]
pub enum DynamicExitStep {
    /// Nothing.
    Nothing,
    /// The child was removed; unregister its name, if any.
    Removed(Option<String>),
    /// Start the child with this id again, then report with `restarted`.
    Restart(String),
    /// Unexpected batch or meltdown decision: stop the supervisor.
    Stop,
}

impl<S, H> DynamicSupervisorState<S, H> {
    /// Forget child `child_id`: its entries go, and its supervision record
    /// (the first one with that id). Returns the name it was registered
    /// under, for the runtime to unregister.
    pub fn cleanup_child(&mut self, child_id: &String) -> (name: Option<String>)
        ensures
            name == reg_name_of(old(self)@.children, child_id@),
            final(self)@ == (DynamicView {
                logic: logic_without::<S, H>(old(self)@.logic, child_id@),
                children: without_child(old(self)@.children, child_id@),
                ..old(self)@
            }),
    {
        let found = self.find_child(child_id);
        proof {
            lemma_first_index(self@.children, child_named::<S, H>(child_id@));
        }
        let name = match found {
            Some(i) => match &self.children[i].reg_name {
                Some(n) => Some(n.clone()),
                None => None,
            },
            None => None,
        };
        let mut keep: Vec<bool> = Vec::new();
        let mut i: usize = 0;
        while i < self.children.len()
            invariant
                i <= self.children.len(),
                self@ == old(self)@,
                keep@ == not_named(self@.children, child_id@).take(i as int),
            decreases self.children.len() - i,
        {
            keep.push(!(self.children[i].id == *child_id));
            i = i + 1;
            assert(keep@ =~= not_named(self@.children, child_id@).take(i as int));
        }
        assert(keep@ =~= not_named(self@.children, child_id@));
        retain_flagged(&mut self.children, &keep);
        self.logic.remove_child_by_id(child_id.as_str());
        name
    }

    /// Begin terminating the child running as `actor`: its supervision record
    /// is removed (so its exit is not restarted) and its id and shutdown
    /// policy are returned; the runtime then shuts it down and calls
    /// `cleanup_child`.
    pub fn begin_terminate(&mut self, actor: ActorId) -> (r: Result<(String, ShutdownType), DynamicSupervisorError>)
        ensures
            ({
                let i = first_index(old(self)@.children, child_running::<S, H>(actor));
                if i < 0 {
                    r == Err::<(String, ShutdownType), DynamicSupervisorError>(DynamicSupervisorError::ChildNotFound(actor))
                        && final(self)@ == old(self)@
                } else {
                    let c = old(self)@.children[i];
                    &&& r matches Ok((id, shutdown)) && id == c.id && shutdown == c.shutdown
                    &&& final(self)@ == (DynamicView { logic: logic_without::<S, H>(old(self)@.logic, c.id@), ..old(self)@ })
                }
            }),
    {
        let found = self.find_actor(actor);
        proof {
            lemma_first_index(self@.children, child_running::<S, H>(actor));
        }
        match found {
            None => Err(DynamicSupervisorError::ChildNotFound(actor)),
            Some(i) => {
                let id = self.children[i].id.clone();
                let shutdown = self.children[i].shutdown;
                self.logic.remove_child_by_id(id.as_str());
                Ok((id, shutdown))
            },
        }
    }

    /// The child with instance id `child_id`, if any.
    pub fn child(&self, child_id: &String) -> (r: Option<&DynamicChild<S, H>>)
        ensures
            ({
                let i = first_index(self@.children, child_named::<S, H>(child_id@));
                if 0 <= i {
                    r == Some(&self@.children[i])
                } else {
                    r is None
                }
            }),
    {
        let found = self.find_child(child_id);
        proof {
            lemma_first_index(self@.children, child_named::<S, H>(child_id@));
        }
        match found {
            Some(i) => Some(&self.children[i]),
            None => None,
        }
    }

    /// Child `child_id` was started again as `actor` with `handle`: its entry
    /// and supervision record take the new handle.
    pub fn restarted(&mut self, child_id: &String, handle: H, actor: ActorId)
        ensures
            final(self)@.id_counter == old(self)@.id_counter,
            final(self)@.max_children == old(self)@.max_children,
            final(self)@.stopping == old(self)@.stopping,
            final(self)@.logic == with_children(old(self)@.logic,
                if first_index(old(self)@.logic.children, id_pred(child_id@)) >= 0 {
                    old(self)@.logic.children.update(
                        first_index(old(self)@.logic.children, id_pred(child_id@)),
                        SupervisedChild {
                            policy: old(self)@.logic.children[first_index(old(self)@.logic.children, id_pred(child_id@))].policy,
                            handle: Some(ChildHandleSlot { id: actor, alive: true }),
                        })
                } else {
                    old(self)@.logic.children
                }),
            ({
                let i = first_index(old(self)@.children, child_named::<S, H>(child_id@));
                if 0 <= i {
                    final(self)@.children.len() == old(self)@.children.len()
                    && (forall|k: int| 0 <= k < old(self)@.children.len() && k != i
                        ==> #[trigger] final(self)@.children[k] == old(self)@.children[k])
                    && final(self)@.children[i].handle == handle
                    && final(self)@.children[i].actor == actor
                    && final(self)@.children[i].id == old(self)@.children[i].id
                    && final(self)@.children[i].shutdown == old(self)@.children[i].shutdown
                    && final(self)@.children[i].spec == old(self)@.children[i].spec
                    && final(self)@.children[i].reg_name == old(self)@.children[i].reg_name
                } else {
                    final(self)@.children == old(self)@.children
                }
            }),
    {
        let found = self.find_child(child_id);
        proof {
            lemma_first_index(self@.children, child_named::<S, H>(child_id@));
        }
        if let Some(i) = found {
            self.children[i].handle = handle;
            self.children[i].actor = actor;
        }
        self.logic.replace_child_handle(child_id.as_str(), ChildHandleSlot { id: actor, alive: true });
    }

    /// Take the exit of child actor `from`: a restart decision restarts it;
    /// an ignored exit of a known child removes it (returning its name to
    /// unregister); a batch or meltdown decision, which one-for-one
    /// supervision never makes, stops the supervisor.
    pub fn on_exit(&mut self, from: ActorId, reason: &ExitReason, now: Instant) -> (step: DynamicExitStep)
        ensures
            ({
                let (decided, action) = exit_outcome(old(self)@.logic, from, *reason, now);
                match action {
                    ActionView::RestartOne(id) => step == DynamicExitStep::Restart(id)
                        && final(self)@ == (DynamicView { logic: decided, ..old(self)@ }),
                    ActionView::Ignore => {
                        let i = first_index(decided.children, handle_pred(from));
                        if i >= 0 {
                            let id = decided.children[i].policy.id;
                            &&& step == DynamicExitStep::Removed(reg_name_of(old(self)@.children, id@))
                            &&& final(self)@ == (DynamicView {
                                logic: logic_without::<S, H>(decided, id@),
                                children: without_child(old(self)@.children, id@),
                                ..old(self)@
                            })
                        } else {
                            step == DynamicExitStep::Nothing && final(self)@ == (DynamicView { logic: decided, ..old(self)@ })
                        }
                    },
                    _ => step == DynamicExitStep::Stop && final(self)@ == (DynamicView { logic: decided, ..old(self)@ }),
                }
            }),
    {
        let action = self.logic.on_child_exit(from, reason, now);
        match action {
            SupervisorAction::Ignore => {
                let found = match self.logic.child_id_by_actor_any(from) {
                    Some(id) => Some(id.to_owned()),
                    None => None,
                };
                match found {
                    Some(id) => {
                        let name = self.cleanup_child(&id);
                        DynamicExitStep::Removed(name)
                    },
                    None => DynamicExitStep::Nothing,
                }
            },
            SupervisorAction::RestartOne(id) => DynamicExitStep::Restart(id),
            _ => DynamicExitStep::Stop,
        }
    }
}


/// Shutdown policy of the first child with id `id`; `Infinity` when there is none.
pub open spec fn shutdown_of<S, H>(cs: Seq<DynamicChild<S, H>>, id: Seq<char>) -> ShutdownType {
    let i = first_index(cs, child_named::<S, H>(id));
    if 0 <= i {
        cs[i].shutdown
    } else {
        ShutdownType::Infinity
    }
}

/// The children to shut down, in the order `ids` gives, with their shutdown
/// policies; ids without a running child are skipped.
pub open spec fn stop_plan<S, H>(cs: Seq<DynamicChild<S, H>>, ids: Seq<String>) -> Seq<(String, ShutdownType)>
    decreases ids.len(),
{
    if ids.len() == 0 {
        Seq::empty()
    } else {
        let sub = stop_plan(cs, ids.drop_last());
        if first_index(cs, child_named::<S, H>(ids.last()@)) >= 0 {
            sub.push((ids.last(), shutdown_of(cs, ids.last()@)))
        } else {
            sub
        }
    }
}

/// Registry names of the children, in order.
pub open spec fn reg_names<S, H>(cs: Seq<DynamicChild<S, H>>) -> Seq<String>
    decreases cs.len(),
{
    if cs.len() == 0 {
        Seq::empty()
    } else {
        let sub = reg_names(cs.drop_last());
        match cs.last().reg_name {
            Some(n) => sub.push(n),
            None => sub,
        }
    }
}

/// Metadata of the listed children, with their shutdown policies.
pub open spec fn child_infos<S, H>(cs: Seq<DynamicChild<S, H>>, infos: Seq<ChildInfo>) -> Seq<DynamicChildInfo> {
    infos.map_values(|c: ChildInfo| DynamicChildInfo {
        id: c.id,
        actor_id: c.actor_id,
        alive: c.alive,
        restart: c.restart,
        shutdown: shutdown_of(cs, c.id@),
    })
}

impl<S, H> DynamicSupervisorState<S, H> {
    fn shutdown_for(&self, id: &String) -> (s: ShutdownType)
        ensures
            s == shutdown_of(self@.children, id@),
    {
        let found = self.find_child(id);
        proof {
            lemma_first_index(self@.children, child_named::<S, H>(id@));
        }
        match found {
            Some(i) => self.children[i].shutdown,
            None => ShutdownType::Infinity,
        }
    }

    /// Begin stopping: no more starts or restarts are accepted, and the
    /// children to shut down are returned in shutdown order (latest started
    /// first) with their shutdown policies.
    pub fn begin_stopping(&mut self) -> (plan: Vec<(String, ShutdownType)>)
        ensures
            final(self)@ == (DynamicView {
                logic: LogicView { suppress: true, ..old(self)@.logic },
                stopping: true,
                ..old(self)@
            }),
            exists|order: Seq<String>| #![trigger stop_plan(old(self)@.children, order)] {
                &&& is_shutdown_order(old(self)@.logic.children, order)
                &&& plan@ == stop_plan(old(self)@.children, order)
            },
    {
        self.stopping = true;
        self.logic.set_suppress_restarts(true);
        let order = self.logic.shutdown_order();
        let mut plan: Vec<(String, ShutdownType)> = Vec::new();
        let mut i: usize = 0;
        assert(order@.take(0) =~= Seq::<String>::empty());
        while i < order.len()
            invariant
                i <= order.len(),
                self@.children == old(self)@.children,
                plan@ == stop_plan(self@.children, order@.take(i as int)),
            decreases order.len() - i,
        {
            proof {
                assert(order@.take(i as int + 1).drop_last() =~= order@.take(i as int));
            }
            let found = self.find_child(&order[i]);
            proof {
                lemma_first_index(self@.children, child_named::<S, H>(order@[i as int]@));
            }
            if found.is_some() {
                let shutdown = self.shutdown_for(&order[i]);
                plan.push((order[i].clone(), shutdown));
            }
            i = i + 1;
        }
        assert(order@.take(order.len() as int) =~= order@);
        plan
    }

    /// Finish stopping: every child entry is dropped, and the names they
    /// were registered under are returned for the runtime to unregister.
    pub fn finish_stopping(&mut self) -> (names: Vec<String>)
        ensures
            names@ == reg_names(old(self)@.children),
            final(self)@ == (DynamicView { children: Seq::empty(), ..old(self)@ }),
    {
        let mut names: Vec<String> = Vec::new();
        let mut i: usize = 0;
        assert(self@.children.take(0) =~= Seq::<DynamicChild<S, H>>::empty());
        while i < self.children.len()
            invariant
                i <= self.children.len(),
                self@ == old(self)@,
                names@ == reg_names(self@.children.take(i as int)),
            decreases self.children.len() - i,
        {
            proof {
                assert(self@.children.take(i as int + 1).drop_last() =~= self@.children.take(i as int));
            }
            match &self.children[i].reg_name {
                Some(n) => names.push(n.clone()),
                None => {},
            }
            i = i + 1;
        }
        assert(self@.children.take(self@.children.len() as int) =~= self@.children);
        self.children = Vec::new();
        assert(self@.children =~= Seq::<DynamicChild<S, H>>::empty());
        names
    }

    /// Metadata of every child that has a handle, in start order, with its
    /// shutdown policy.
    pub fn which_children(&self) -> (r: Vec<DynamicChildInfo>)
        ensures
            r@ == child_infos(self@.children, listed(self@.logic.children)),
    {
        let infos = self.logic.list_children();
        let mut out: Vec<DynamicChildInfo> = Vec::new();
        let mut i: usize = 0;
        while i < infos.len()
            invariant
                i <= infos.len(),
                infos@ == listed(self@.logic.children),
                out@ == child_infos(self@.children, infos@.take(i as int)),
            decreases infos.len() - i,
        {
            let shutdown = self.shutdown_for(&infos[i].id);
            out.push(DynamicChildInfo {
                id: infos[i].id.clone(),
                actor_id: infos[i].actor_id,
                alive: infos[i].alive,
                restart: infos[i].restart,
                shutdown,
            });
            i = i + 1;
            assert(out@ =~= child_infos(self@.children, infos@.take(i as int)));
        }
        assert(infos@.take(infos.len() as int) =~= infos@);
        out
    }
}


/// Each listed child is reported with its own data: the k-th report carries
/// the id, actor, liveness and restart type of the k-th supervised child
/// that has an actor; a child just added with restart type `t` is reported
/// last, with its id, its actor alive, and restart type `t`.
pub proof fn lemma_children_reported_as_added<S, H>(ds: Seq<DynamicChild<S, H>>, cs: Seq<SupervisedChild>, c: SupervisedChild)
    ensures
        child_infos(ds, listed(cs)).len() == listed(cs).len(),
        forall|k: int| 0 <= k < listed(cs).len() ==> {
            &&& (#[trigger] child_infos(ds, listed(cs))[k]).restart == listed(cs)[k].restart
            &&& child_infos(ds, listed(cs))[k].id == listed(cs)[k].id
            &&& child_infos(ds, listed(cs))[k].actor_id == listed(cs)[k].actor_id
            &&& child_infos(ds, listed(cs))[k].alive == listed(cs)[k].alive
        },
        c.handle matches Some(slot) ==> {
            let r = child_infos(ds, listed(cs.push(c)));
            &&& r.len() == listed(cs).len() + 1
            &&& r.last().restart == c.policy.restart
            &&& r.last().id == c.policy.id
            &&& r.last().actor_id == slot.id
            &&& r.last().alive == slot.alive
        },
{
    assert(cs.push(c).drop_last() =~= cs);
}

/// A terminated child is not restarted: once its supervision record is
/// removed (ids being unique, and no other record running its actor), an
/// exit of its actor is ignored.
pub proof fn lemma_terminated_child_is_not_restarted<S, H>(
    l: LogicView,
    id: Seq<char>,
    a: ActorId,
    reason: ExitReason,
    now: Instant,
)
    requires
        unique_ids(l.children),
        forall|j: int| 0 <= j < l.children.len() && alive_as(#[trigger] l.children[j], a) ==> id_is(l.children[j], id),
    ensures
        exit_outcome(logic_without::<S, H>(l, id), a, reason, now).1 == ActionView::Ignore,
{
    lemma_remove_by_unique_id(l.children, id);
    let rest = logic_without::<S, H>(l, id).children;
    lemma_first_index(l.children, id_pred(id));
    let i = first_index(l.children, id_pred(id));
    assert forall|j: int| 0 <= j < rest.len() implies !alive_pred(a)(#[trigger] rest[j]) by {
        if i >= 0 {
            if j < i {
                assert(rest[j] == l.children[j]);
            } else {
                assert(rest[j] == l.children[j + 1]);
            }
        }
        assert(!id_is(rest[j], id));
    }
    lemma_first_index(rest, alive_pred(a));
}

/// The child limit holds: a running supervisor at its limit refuses every
/// start, without touching its state.
pub proof fn lemma_child_limit_refuses<S, H>(
    pre: DynamicView<S, H>,
    template_id: Seq<char>,
    post: DynamicView<S, H>,
    r: Result<String, DynamicSupervisorError>,
)
    requires
        !pre.stopping,
        pre.max_children matches Some(m) && count_alive(pre.logic.children) >= m,
        start_decided(pre, template_id, post, r),
    ensures
        r == Err::<String, DynamicSupervisorError>(DynamicSupervisorError::MaxChildrenExceeded),
        post == pre,
{
}

/// Instance ids differ by counter: starts of one template under different
/// counters get different ids.
pub proof fn lemma_instance_ids_differ(template_id: Seq<char>, a: nat, b: nat)
    requires
        a != b,
    ensures
        instance_id_text(template_id, a) != instance_id_text(template_id, b),
{
    lemma_decimal_injective(a, b);
    let x = instance_id_text(template_id, a);
    let y = instance_id_text(template_id, b);
    let p = template_id + seq!['#'];
    if x == y {
        assert(x.subrange(p.len() as int, x.len() as int) =~= decimal(a));
        assert(y.subrange(p.len() as int, y.len() as int) =~= decimal(b));
    }
}

proof fn lemma_decimal_shape(n: nat)
    ensures
        decimal(n).len() >= 1,
        n >= 10 ==> decimal(n).len() >= 2,
        n < 10 ==> decimal(n).len() == 1,
        forall|k: int| 0 <= k < decimal(n).len() ==> 48 <= (#[trigger] decimal(n)[k]) as int <= 57,
        n >= 10 ==> decimal(n)[0] != '0',
        n < 10 ==> decimal(n)[0] as int == 48 + n,
    decreases n,
{
    if n >= 10 {
        lemma_decimal_shape(n / 10);
        let d = decimal(n / 10);
        assert forall|k: int| 0 <= k < decimal(n).len() implies 48 <= (#[trigger] decimal(n)[k]) as int <= 57 by {
            if k < d.len() {
                assert(decimal(n)[k] == d[k]);
            }
        }
        assert(decimal(n)[0] == d[0]);
        if n / 10 < 10 {
            assert(n / 10 >= 1);
        }
    }
}

/// Different numbers have different decimal texts.
pub proof fn lemma_decimal_injective(a: nat, b: nat)
    requires
        a != b,
    ensures
        decimal(a) != decimal(b),
    decreases a + b,
{
    lemma_decimal_shape(a);
    lemma_decimal_shape(b);
    if a < 10 && b < 10 {
        assert(decimal(a)[0] != decimal(b)[0]);
    } else if a < 10 || b < 10 {
        assert(decimal(a).len() != decimal(b).len());
    } else {
        if decimal(a) == decimal(b) {
            let da = decimal(a / 10);
            let db = decimal(b / 10);
            assert(decimal(a).drop_last() =~= da);
            assert(decimal(b).drop_last() =~= db);
            assert(decimal(a).last() == digit_char(a % 10));
            assert(decimal(b).last() == digit_char(b % 10));
            assert(a % 10 == b % 10);
            if a / 10 != b / 10 {
                lemma_decimal_injective(a / 10, b / 10);
            }
            assert(a == (a / 10) * 10 + a % 10);
            assert(b == (b / 10) * 10 + b % 10);
        }
    }
}

} // verus!
