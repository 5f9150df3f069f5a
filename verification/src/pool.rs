use vstd::prelude::*;
use crate::child_spec::{default_scope, default_scope_name};
use crate::error::ActorError;
use crate::ids::ActorAddress;
use crate::child_spec::ChildSpec;

verus! {

/// How to pick a single member from a process group for routed dispatch.
#[derive(Debug, Clone, Copy, PartialEq, Eq, Structural)]
pub enum PoolStrategy {
    /// Cycle through members in join order.
    RoundRobin,
    /// Pick the member with the lowest mailbox depth.
    LeastLoaded,
}

impl Default for PoolStrategy {
    fn default() -> (s: Self)
        ensures
            s is RoundRobin,
    {
        PoolStrategy::RoundRobin
    }
}

/// Errors routing a message to one pool member.
#[derive(Debug, Clone)]
pub enum PoolError {
    /// The process group has no live members.
    NoMembers,
    /// Sending to the selected member failed.
    Actor(ActorError),
}

impl PartialEq for PoolError {
    /// Two errors are equal only when both are `NoMembers`.
    fn eq(&self, other: &Self) -> (r: bool) {
        match (self, other) {
            (PoolError::NoMembers, PoolError::NoMembers) => true,
            _ => false,
        }
    }
}

impl vstd::std_specs::cmp::PartialEqSpecImpl for PoolError {
    open spec fn obeys_eq_spec() -> bool {
        true
    }

    open spec fn eq_spec(&self, other: &PoolError) -> bool {
        self is NoMembers && other is NoMembers
    }
}

impl From<ActorError> for PoolError {
    fn from(err: ActorError) -> (r: PoolError) {
        PoolError::Actor(err)
    }
}

impl vstd::std_specs::convert::FromSpecImpl<ActorError> for PoolError {
    open spec fn obeys_from_spec() -> bool {
        true
    }

    open spec fn from_spec(err: ActorError) -> PoolError {
        PoolError::Actor(err)
    }
}

/// An optional position, as a mathematical integer.
pub open spec fn opt_index(r: Option<usize>) -> Option<int> {
    match r {
        Some(i) => Some(i as int),
        None => None,
    }
}

/// `i` is the first position holding the smallest depth.
pub open spec fn is_least_loaded(depths: Seq<usize>, i: int) -> bool {
    &&& 0 <= i < depths.len()
    &&& forall|j: int| 0 <= j < depths.len() ==> depths[i] <= #[trigger] depths[j]
    &&& forall|j: int| 0 <= j < i ==> depths[i] < #[trigger] depths[j]
}

/// Member chosen for a routed message among `member_count` members, with
/// round-robin counter `next` and mailbox `depths`, and the counter afterwards.
/// Round robin takes `next` modulo the member count and advances the counter
/// (wrapping); least loaded takes the first smallest depth (position 0 when
/// no depth is known) and leaves the counter alone.
pub open spec fn selection(member_count: usize, strategy: PoolStrategy, depths: Seq<usize>, next: usize) -> (Option<int>, usize) {
    if member_count == 0 {
        (None, next)
    } else {
        match strategy {
            PoolStrategy::RoundRobin => (
                Some((next % member_count) as int),
                if next == usize::MAX { 0 } else { (next + 1) as usize },
            ),
            PoolStrategy::LeastLoaded => (
                Some(if depths.len() == 0 { 0 } else { choose|i: int| is_least_loaded(depths, i) }),
                next,
            ),
        }
    }
}

proof fn lemma_least_loaded_unique(depths: Seq<usize>, i: int, k: int)
    requires
        is_least_loaded(depths, i),
        is_least_loaded(depths, k),
    ensures
        i == k,
{
    if i < k {
        assert(depths[k] < depths[i]);
    } else if k < i {
        assert(depths[i] < depths[k]);
    }
}

/// Shared member selection for routed dispatch.
pub fn select_member_index(member_count: usize, strategy: PoolStrategy, depths: &[usize], next: &mut usize) -> (r: Option<usize>)
    ensures
        (opt_index(r), *final(next)) == selection(member_count, strategy, depths@, *old(next)),
        r matches Some(i) ==> (strategy is RoundRobin ==> i < member_count),
        r matches Some(i) ==> (strategy is LeastLoaded && depths@.len() > 0 ==> is_least_loaded(depths@, i as int)),
{
    if member_count == 0 {
        return None;
    }
    match strategy {
        PoolStrategy::RoundRobin => {
            let idx = *next % member_count;
            *next = if *next == usize::MAX { 0 } else { *next + 1 };
            Some(idx)
        },
        PoolStrategy::LeastLoaded => {
            if depths.len() == 0 {
                return Some(0);
            }
            let mut best: usize = 0;
            let mut min = depths[0];
            let mut i: usize = 1;
            while i < depths.len()
                invariant
                    1 <= i <= depths@.len(),
                    best < i,
                    min == depths@[best as int],
                    forall|j: int| 0 <= j < i ==> min <= #[trigger] depths@[j],
                    forall|j: int| 0 <= j < best ==> min < #[trigger] depths@[j],
                decreases depths@.len() - i,
            {
                if depths[i] < min {
                    min = depths[i];
                    best = i;
                }
                i += 1;
            }
            proof {
                assert(is_least_loaded(depths@, best as int));
                assert forall|k: int| is_least_loaded(depths@, k) implies k == best by {
                    lemma_least_loaded_unique(depths@, best as int, k);
                }
            }
            Some(best)
        },
    }
}

/// Stateful dispatcher for one process group and scope.
#[derive(Debug)]
pub struct PoolDispatcher {
    scope: String,
    group: String,
    strategy: PoolStrategy,
    next: usize,
}

/// Abstract state of a [`PoolDispatcher`].
pub struct DispatcherView {
    pub scope: Seq<char>,
    pub group: Seq<char>,
    pub strategy: PoolStrategy,
    pub next: usize,
}

impl View for PoolDispatcher {
    type V = DispatcherView;

    closed spec fn view(&self) -> DispatcherView {
        DispatcherView { scope: self.scope@, group: self.group@, strategy: self.strategy, next: self.next }
    }
}

impl PoolDispatcher {
    /// A dispatcher for `group` in the default process group scope.
    pub fn new(group: String, strategy: PoolStrategy) -> (d: Self)
        ensures
            d@.scope == default_scope(),
            d@.group == group@,
            d@.strategy == strategy,
            d@.next == 0,
    {
        PoolDispatcher { scope: default_scope_name(), group, strategy, next: 0 }
    }

    /// Use a non-default process group scope.
    pub fn with_scope(self, scope: String) -> (d: Self)
        ensures
            d@ == (DispatcherView { scope: scope@, ..self@ }),
    {
        let mut d = self;
        d.scope = scope;
        d
    }

    pub fn group(&self) -> (g: &str)
        ensures
            g@ == self@.group,
    {
        self.group.as_str()
    }

    pub fn scope(&self) -> (s: &str)
        ensures
            s@ == self@.scope,
    {
        self.scope.as_str()
    }

    pub fn strategy(&self) -> (s: PoolStrategy)
        ensures
            s == self@.strategy,
    {
        self.strategy
    }

    /// Pick one member given the members' mailbox depths (one per member).
    pub fn select_index(&mut self, depths: &[usize]) -> (r: Option<usize>)
        ensures
            (opt_index(r), final(self)@.next)
                == selection(depths@.len() as usize, old(self)@.strategy, depths@, old(self)@.next),
            final(self)@ == (DispatcherView { next: final(self)@.next, ..old(self)@ }),
            r matches Some(i) ==> i < depths@.len(),
    {
        let n = depths.len();
        select_member_index(n, self.strategy, depths, &mut self.next)
    }
}

/// Round robin visits the members in order: two successive selections from
/// counter `next` (below the wrap point) pick consecutive members modulo the
/// member count.
pub proof fn lemma_round_robin_advances(member_count: usize, depths: Seq<usize>, next: usize)
    requires
        member_count > 0,
        next < usize::MAX,
    ensures
        ({
            let (first, next1) = selection(member_count, PoolStrategy::RoundRobin, depths, next);
            let (second, _) = selection(member_count, PoolStrategy::RoundRobin, depths, next1);
            second == Some((first->0 + 1) % (member_count as int))
        }),
{
    let n = member_count as int;
    let x = next as int;
    assert(((x + 1) % n) == ((x % n) + 1) % n) by (nonlinear_arith)
        requires n > 0, x >= 0;
}

/// The picks of `k` successive round-robin selections among `member_count`
/// members from counter `next`, and the counter afterwards.
pub open spec fn round_robin_run(member_count: usize, depths: Seq<usize>, next: usize, k: nat) -> (Seq<Option<int>>, usize)
    decreases k,
{
    if k == 0 {
        (Seq::empty(), next)
    } else {
        let (picks, counter) = round_robin_run(member_count, depths, next, (k - 1) as nat);
        let (pick, after) = selection(member_count, PoolStrategy::RoundRobin, depths, counter);
        (picks.push(pick), after)
    }
}

/// Round robin from a fresh dispatcher visits every member once, in order:
/// the first `member_count` selections pick positions 0, 1, ..., in turn.
pub proof fn lemma_round_robin_visits_each_member(member_count: usize, depths: Seq<usize>)
    requires
        member_count > 0,
    ensures
        round_robin_run(member_count, depths, 0, member_count as nat).0
            == Seq::new(member_count as nat, |i: int| Some(i)),
        round_robin_run(member_count, depths, 0, member_count as nat).1 == member_count,
{
    lemma_round_robin_prefix(member_count, depths, member_count as nat);
}

proof fn lemma_round_robin_prefix(member_count: usize, depths: Seq<usize>, k: nat)
    requires
        member_count > 0,
        k <= member_count,
    ensures
        round_robin_run(member_count, depths, 0, k).0 == Seq::new(k, |i: int| Some(i)),
        round_robin_run(member_count, depths, 0, k).1 == k,
    decreases k,
{
    if k > 0 {
        lemma_round_robin_prefix(member_count, depths, (k - 1) as nat);
        let c = (k - 1) as usize;
        assert((c as int) % (member_count as int) == c as int) by (nonlinear_arith)
            requires 0 <= c < member_count;
        assert(round_robin_run(member_count, depths, 0, k).0 =~= Seq::new(k, |i: int| Some(i)));
    }
}

/// An empty pool never selects a member, whatever the strategy.
pub proof fn lemma_empty_pool_selects_nothing(strategy: PoolStrategy, depths: Seq<usize>, next: usize)
    ensures
        selection(0, strategy, depths, next).0 is None,
{
}


/// Pick the local member a routed message goes to, given the members'
/// mailbox depths (one per member); `NoMembers` when there is none.
pub fn select_local_target(dispatcher: &mut PoolDispatcher, depths: &[usize]) -> (r: Result<usize, PoolError>)
    ensures
        depths@.len() == 0 ==> (r matches Err(PoolError::NoMembers)) && final(dispatcher)@ == old(dispatcher)@,
        depths@.len() > 0 ==> {
            let (pick, next) = selection(depths@.len() as usize, old(dispatcher)@.strategy, depths@, old(dispatcher)@.next);
            &&& r matches Ok(i) && pick == Some(i as int) && i < depths@.len()
            &&& final(dispatcher)@ == (DispatcherView { next, ..old(dispatcher)@ })
        },
{
    if depths.len() == 0 {
        return Err(PoolError::NoMembers);
    }
    match dispatcher.select_index(depths) {
        Some(i) => Ok(i),
        None => Err(PoolError::NoMembers),
    }
}

/// The addresses of `addrs` on other nodes, in order.
pub open spec fn remote_members(addrs: Seq<ActorAddress>) -> Seq<ActorAddress> {
    addrs.filter(|a: ActorAddress| a@.node is Some)
}

/// Mailbox depths of a federated pool: the local members' depths followed by
/// an empty mailbox for each remote member.
pub open spec fn federated_depths(local: Seq<usize>, addrs: Seq<ActorAddress>) -> Seq<usize> {
    local + Seq::new(remote_members(addrs).len(), |i: int| 0usize)
}

/// A member chosen for a federated dispatch.
#[derive(Debug)]
pub enum FederatedTarget {
    /// The local member at this position.
    Local(usize),
    /// A member on another node.
    Remote(ActorAddress),
}

/// Pick a member among the local ones (with their mailbox depths) followed by
/// the remote ones (counted as empty mailboxes); `NoMembers` when there is
/// none. Addresses of local actors in `addresses` are skipped: local members
/// are reached through `local_depths`.
pub fn select_federated_target(
    dispatcher: &mut PoolDispatcher,
    local_depths: &[usize],
    addresses: &[ActorAddress],
) -> (r: Result<FederatedTarget, PoolError>)
    requires
        local_depths@.len() + addresses@.len() <= usize::MAX,
    ensures
        ({
            let remote = remote_members(addresses@);
            let depths = federated_depths(local_depths@, addresses@);
            &&& depths.len() == 0 ==> (r matches Err(PoolError::NoMembers)) && final(dispatcher)@ == old(dispatcher)@
            &&& depths.len() > 0 ==> {
                let (pick, next) = selection(depths.len() as usize, old(dispatcher)@.strategy, depths, old(dispatcher)@.next);
                &&& final(dispatcher)@ == (DispatcherView { next, ..old(dispatcher)@ })
                &&& match r {
                    Ok(FederatedTarget::Local(i)) => pick == Some(i as int) && i < local_depths@.len(),
                    Ok(FederatedTarget::Remote(a)) => pick matches Some(k) && local_depths@.len() <= k
                        && a == remote[k - local_depths@.len()],
                    Err(_) => false,
                }
            }
        }),
{
    let mut remote: Vec<ActorAddress> = Vec::new();
    let mut i: usize = 0;
    proof {
        reveal(Seq::filter);
        assert(addresses@.take(0).filter(|a: ActorAddress| a@.node is Some) =~= Seq::<ActorAddress>::empty());
    }
    while i < addresses.len()
        invariant
            i <= addresses.len(),
            remote@ == addresses@.take(i as int).filter(|a: ActorAddress| a@.node is Some),
            remote@.len() <= i,
        decreases addresses.len() - i,
    {
        proof {
            reveal(Seq::filter);
            assert(addresses@.take(i as int + 1).drop_last() =~= addresses@.take(i as int));
        }
        if !addresses[i].is_local() {
            remote.push(addresses[i].duplicate());
        }
        i = i + 1;
    }
    assert(addresses@.take(addresses.len() as int) =~= addresses@);
    let mut depths: Vec<usize> = Vec::new();
    let mut j: usize = 0;
    while j < local_depths.len()
        invariant
            j <= local_depths.len(),
            depths@ == local_depths@.take(j as int),
            remote@.len() <= addresses@.len(),
            local_depths@.len() + addresses@.len() <= usize::MAX,
        decreases local_depths.len() - j,
    {
        depths.push(local_depths[j]);
        j = j + 1;
        assert(depths@ =~= local_depths@.take(j as int));
    }
    let mut k: usize = 0;
    while k < remote.len()
        invariant
            k <= remote.len(),
            depths@ == local_depths@ + Seq::new(k as nat, |i: int| 0usize),
            local_depths@.len() + remote.len() <= usize::MAX,
        decreases remote.len() - k,
    {
        depths.push(0);
        k = k + 1;
        assert(depths@ =~= local_depths@ + Seq::new(k as nat, |i: int| 0usize));
    }
    if depths.len() == 0 {
        return Err(PoolError::NoMembers);
    }
    let idx = match dispatcher.select_index(depths.as_slice()) {
        Some(idx) => idx,
        None => return Err(PoolError::NoMembers),
    };
    if idx < local_depths.len() {
        Ok(FederatedTarget::Local(idx))
    } else {
        Ok(FederatedTarget::Remote(remote[idx - local_depths.len()].duplicate()))
    }
}

/// Configures a supervised worker pool: its process group, routing strategy,
/// child limit and scope.
#[derive(Debug)]
pub struct ActorPoolBuilder {
    group: String,
    strategy: PoolStrategy,
    max_children: Option<usize>,
    scope: Option<String>,
}

/// Abstract value of an [`ActorPoolBuilder`].
pub struct PoolBuilderView {
    pub group: Seq<char>,
    pub strategy: PoolStrategy,
    pub max_children: Option<usize>,
    pub scope: Option<Seq<char>>,
}

impl View for ActorPoolBuilder {
    type V = PoolBuilderView;

    closed spec fn view(&self) -> PoolBuilderView {
        PoolBuilderView {
            group: self.group@,
            strategy: self.strategy,
            max_children: self.max_children,
            scope: match self.scope {
                Some(s) => Some(s@),
                None => None,
            },
        }
    }
}

impl ActorPoolBuilder {
    /// A round-robin pool for `group` in the default scope, without a child limit.
    pub fn new(group: String) -> (b: Self)
        ensures
            b@ == (PoolBuilderView { group: group@, strategy: PoolStrategy::RoundRobin, max_children: None, scope: None }),
    {
        ActorPoolBuilder { group, strategy: PoolStrategy::RoundRobin, max_children: None, scope: None }
    }

    /// Route with this strategy.
    pub fn strategy(self, strategy: PoolStrategy) -> (b: Self)
        ensures
            b@ == (PoolBuilderView { strategy, ..self@ }),
    {
        let mut b = self;
        b.strategy = strategy;
        b
    }

    /// Allow at most `max` workers.
    pub fn max_children(self, max: usize) -> (b: Self)
        ensures
            b@ == (PoolBuilderView { max_children: Some(max), ..self@ }),
    {
        let mut b = self;
        b.max_children = Some(max);
        b
    }

    /// Use a non-default process group scope.
    pub fn scope(self, scope: String) -> (b: Self)
        ensures
            b@ == (PoolBuilderView { scope: Some(scope@), ..self@ }),
    {
        let mut b = self;
        b.scope = Some(scope);
        b
    }

    /// The pool's process group.
    pub fn group(&self) -> (g: &str)
        ensures
            g@ == self@.group,
    {
        self.group.as_str()
    }

    /// The child limit of the pool's supervisor.
    pub fn max_children_limit(&self) -> (m: Option<usize>)
        ensures
            m == self@.max_children,
    {
        self.max_children
    }

    /// The dispatcher the started pool routes with: the builder's group,
    /// strategy and scope.
    pub fn dispatcher(&self) -> (d: PoolDispatcher)
        ensures
            d@.group == self@.group,
            d@.strategy == self@.strategy,
            d@.next == 0,
            d@.scope == match self@.scope {
                Some(s) => s,
                None => default_scope(),
            },
    {
        let d = PoolDispatcher::new(self.group.clone(), self.strategy);
        match &self.scope {
            Some(scope) => d.with_scope(scope.clone()),
            None => d,
        }
    }
}



impl ActorPoolBuilder {
    /// The spec a pool worker starts with: the given one when it already
    /// joins a process group, else the same spec joined to the pool's group
    /// in the default scope.
    pub fn worker_spec<S>(&self, spec: ChildSpec<S>) -> (r: ChildSpec<S>)
        ensures
            spec.pg_membership is Some ==> r == spec,
            spec.pg_membership is None ==> {
                &&& r.pg_membership matches Some(m) && m.scope@ == default_scope() && m.group@ == self@.group
                &&& r.id == spec.id && r.restart == spec.restart && r.shutdown == spec.shutdown
                &&& r.child_type == spec.child_type && r.mailbox == spec.mailbox && r.backoff == spec.backoff
                &&& r.start == spec.start
            },
    {
        if spec.has_pg_membership() {
            spec
        } else {
            spec.with_pg_group(self.group.clone())
        }
    }
}

} // verus!
