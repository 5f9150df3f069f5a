//! Erlang-style process groups: named, scoped, many-to-many sets of actors.
//!
//! Joins are reference counted; a group exists while it has members and is
//! dropped with its typed values when its last local and remote member leaves.

use vstd::prelude::*;
use crate::child_spec::{default_scope, default_scope_name};
use crate::error::ActorError;
use crate::ids::{ActorAddress, ActorId, AddressView};
use crate::seq_util::{first_index, is_first, lemma_first_index, select};
use crate::strings::{sorted_distinct, strictly_sorted, text_set};

verus! {

/// Errors from process group operations.
#[derive(Debug, Clone, PartialEq, Eq)]
pub enum PgError {
    /// The actor (first field) was not a member of the group (second field)
    /// in the scope (third field), or the group did not exist.
    NotJoined(ActorId, String, String),
}

/// Result of a fire-and-forget broadcast.
#[derive(Debug)]
pub struct PgSendReport {
    pub delivered: usize,
    pub failed: Vec<(ActorId, ActorError)>,
}

impl Default for PgSendReport {
    fn default() -> (r: Self)
        ensures
            r.delivered == 0,
            r.failed@.len() == 0,
    {
        PgSendReport { delivered: 0, failed: Vec::new() }
    }
}

/// Result of a request broadcast.
#[derive(Debug)]
pub struct PgCallReport<T> {
    pub ok: Vec<(ActorId, T)>,
    pub failed: Vec<(ActorId, ActorError)>,
}

/// A local member of a group, as stored.
struct LocalEntry {
    scope: String,
    group: String,
    id: ActorId,
    joins: u32,
}

/// A member on a remote node, learned from that node's events.
struct RemoteEntry {
    scope: String,
    group: String,
    address: ActorAddress,
    joins: u32,
}

/// A typed value registered for an actor in a group.
struct TypedEntry<T> {
    scope: String,
    group: String,
    id: ActorId,
    value: T,
}

/// Abstract local membership: actor `id` joined group `group` of scope
/// `scope` `joins` times (and has not left as often).
pub struct LocalMember {
    pub scope: Seq<char>,
    pub group: Seq<char>,
    pub id: ActorId,
    pub joins: nat,
}

/// Abstract remote membership.
pub struct RemoteMember {
    pub scope: Seq<char>,
    pub group: Seq<char>,
    pub address: AddressView,
    pub joins: nat,
}

/// Abstract typed value of an actor in a group.
pub struct TypedMember<T> {
    pub scope: Seq<char>,
    pub group: Seq<char>,
    pub id: ActorId,
    pub value: T,
}

/// Abstract state of a [`PgStore`]: its memberships in the order they were
/// first made.
pub struct PgView<T> {
    pub local: Seq<LocalMember>,
    pub remote: Seq<RemoteMember>,
    pub typed: Seq<TypedMember<T>>,
}

impl View for LocalEntry {
    type V = LocalMember;

    closed spec fn view(&self) -> LocalMember {
        LocalMember { scope: self.scope@, group: self.group@, id: self.id, joins: self.joins as nat }
    }
}

impl View for RemoteEntry {
    type V = RemoteMember;

    closed spec fn view(&self) -> RemoteMember {
        RemoteMember { scope: self.scope@, group: self.group@, address: self.address@, joins: self.joins as nat }
    }
}

impl<T> View for TypedEntry<T> {
    type V = TypedMember<T>;

    closed spec fn view(&self) -> TypedMember<T> {
        TypedMember { scope: self.scope@, group: self.group@, id: self.id, value: self.value }
    }
}

/// Process group membership store, with typed values of type `T` per member.
pub struct PgStore<T> {
    local: Vec<LocalEntry>,
    remote: Vec<RemoteEntry>,
    typed: Vec<TypedEntry<T>>,
}

impl<T> View for PgStore<T> {
    type V = PgView<T>;

    closed spec fn view(&self) -> PgView<T> {
        PgView {
            local: self.local@.map_values(|e: LocalEntry| e@),
            remote: self.remote@.map_values(|e: RemoteEntry| e@),
            typed: self.typed@.map_values(|e: TypedEntry<T>| e@),
        }
    }
}

// ---------------------------------------------------------------------------
// Specification
// ---------------------------------------------------------------------------

pub open spec fn local_is(m: LocalMember, s: Seq<char>, g: Seq<char>, id: ActorId) -> bool {
    m.scope == s && m.group == g && m.id == id
}

pub open spec fn local_pred(s: Seq<char>, g: Seq<char>, id: ActorId) -> spec_fn(LocalMember) -> bool {
    |m: LocalMember| local_is(m, s, g, id)
}

pub open spec fn remote_is(m: RemoteMember, s: Seq<char>, g: Seq<char>, a: AddressView) -> bool {
    m.scope == s && m.group == g && m.address == a
}

pub open spec fn remote_pred(s: Seq<char>, g: Seq<char>, a: AddressView) -> spec_fn(RemoteMember) -> bool {
    |m: RemoteMember| remote_is(m, s, g, a)
}

pub open spec fn typed_is<T>(m: TypedMember<T>, s: Seq<char>, g: Seq<char>, id: ActorId) -> bool {
    m.scope == s && m.group == g && m.id == id
}

pub open spec fn typed_pred<T>(s: Seq<char>, g: Seq<char>, id: ActorId) -> spec_fn(TypedMember<T>) -> bool {
    |m: TypedMember<T>| typed_is(m, s, g, id)
}

/// Well-formed store: each membership is recorded once with a positive
/// join count, remote memberships name remote actors, and each actor has at
/// most one typed value per group.
pub open spec fn pg_wf<T>(v: PgView<T>) -> bool {
    &&& forall|i: int| 0 <= i < v.local.len() ==> #[trigger] v.local[i].joins > 0
    &&& forall|i: int, j: int| 0 <= i < j < v.local.len()
        ==> !local_is(#[trigger] v.local[i], v.local[j].scope, v.local[j].group, #[trigger] v.local[j].id)
    &&& forall|i: int| 0 <= i < v.remote.len() ==> #[trigger] v.remote[i].joins > 0
    &&& forall|i: int| 0 <= i < v.remote.len() ==> (#[trigger] v.remote[i]).address.node is Some
    &&& forall|i: int, j: int| 0 <= i < j < v.remote.len()
        ==> !remote_is(#[trigger] v.remote[i], v.remote[j].scope, v.remote[j].group, #[trigger] v.remote[j].address)
    &&& forall|i: int, j: int| 0 <= i < j < v.typed.len()
        ==> !typed_is(#[trigger] v.typed[i], v.typed[j].scope, v.typed[j].group, #[trigger] v.typed[j].id)
}

/// How many times local actor `id` is joined to group `g` of scope `s`.
pub open spec fn local_joins<T>(v: PgView<T>, s: Seq<char>, g: Seq<char>, id: ActorId) -> nat {
    let i = first_index(v.local, local_pred(s, g, id));
    if i >= 0 { v.local[i].joins } else { 0 }
}

/// Local memberships after one more join of `id` to `(s, g)`: the count of
/// an existing membership grows, or a new membership is appended.
pub open spec fn joined_local(ls: Seq<LocalMember>, s: Seq<char>, g: Seq<char>, id: ActorId) -> Seq<LocalMember> {
    let i = first_index(ls, local_pred(s, g, id));
    if i >= 0 {
        ls.update(i, LocalMember { joins: ls[i].joins + 1, ..ls[i] })
    } else {
        ls.push(LocalMember { scope: s, group: g, id, joins: 1 })
    }
}

/// Whether any local or remote member remains in group `(s, g)`.
pub open spec fn group_occupied(local: Seq<LocalMember>, remote: Seq<RemoteMember>, s: Seq<char>, g: Seq<char>) -> bool {
    ||| exists|i: int| 0 <= i < local.len() && (#[trigger] local[i]).scope == s && local[i].group == g
    ||| exists|i: int| 0 <= i < remote.len() && (#[trigger] remote[i]).scope == s && remote[i].group == g
}

/// Typed values after actor `id` leaves group `(s, g)` for good: its value
/// there goes, and every value of the group goes if the group is now empty.
pub open spec fn typed_after_leave<T>(ts: Seq<TypedMember<T>>, s: Seq<char>, g: Seq<char>, id: ActorId, group_empty: bool) -> Seq<TypedMember<T>> {
    ts.filter(|t: TypedMember<T>| !(t.scope == s && t.group == g && (t.id == id || group_empty)))
}

/// Store after local actor `id` leaves group `(s, g)` once, and whether it
/// was a member. The last leave ends the membership and drops the actor's
/// typed value in the group, or the group's typed values once it is empty.
pub open spec fn left<T>(v: PgView<T>, s: Seq<char>, g: Seq<char>, id: ActorId) -> (PgView<T>, bool) {
    let i = first_index(v.local, local_pred(s, g, id));
    if i < 0 {
        (v, false)
    } else if v.local[i].joins > 1 {
        (PgView { local: v.local.update(i, LocalMember { joins: (v.local[i].joins - 1) as nat, ..v.local[i] }), ..v }, true)
    } else {
        let local = v.local.remove(i);
        let empty = !group_occupied(local, v.remote, s, g);
        (PgView { local, remote: v.remote, typed: typed_after_leave(v.typed, s, g, id, empty) }, true)
    }
}

// ---------------------------------------------------------------------------
// Store operations
// ---------------------------------------------------------------------------

impl<T> PgStore<T> {
    /// An empty store.
    pub fn new() -> (s: Self)
        ensures
            s@.local.len() == 0,
            s@.remote.len() == 0,
            s@.typed.len() == 0,
            pg_wf(s@),
    {
        PgStore { local: Vec::new(), remote: Vec::new(), typed: Vec::new() }
    }

    /// Position of local membership `(scope, group, id)`.
    fn find_local(&self, scope: &String, group: &String, id: ActorId) -> (r: Option<usize>)
        ensures
            match r {
                Some(i) => i == first_index(self@.local, local_pred(scope@, group@, id)) && i < self@.local.len(),
                None => first_index(self@.local, local_pred(scope@, group@, id)) == -1,
            },
    {
        let ghost v = self@.local;
        let ghost p = local_pred(scope@, group@, id);
        proof {
            lemma_first_index(v, p);
        }
        let mut i: usize = 0;
        while i < self.local.len()
            invariant
                v == self@.local,
                p == local_pred(scope@, group@, id),
                i <= v.len(),
                forall|j: int| 0 <= j < i ==> !local_is(#[trigger] v[j], scope@, group@, id),
            decreases v.len() - i,
        {
            let e = &self.local[i];
            if e.id == id && e.scope == *scope && e.group == *group {
                assert(v[i as int] == self.local@[i as int]@);
                assert(is_first(v, p, i as int));
                return Some(i);
            }
            assert(v[i as int] == self.local@[i as int]@);
            i += 1;
        }
        assert(forall|j: int| 0 <= j < v.len() ==> !p(#[trigger] v[j]));
        None
    }

    /// Whether some local or remote member is in group `(scope, group)`.
    fn occupied(&self, scope: &String, group: &String) -> (b: bool)
        ensures
            b == group_occupied(self@.local, self@.remote, scope@, group@),
    {
        let ghost v = self@;
        let mut i: usize = 0;
        while i < self.local.len()
            invariant
                v == self@,
                i <= v.local.len(),
                forall|j: int| 0 <= j < i ==> !((#[trigger] v.local[j]).scope == scope@ && v.local[j].group == group@),
            decreases v.local.len() - i,
        {
            assert(v.local[i as int] == self.local@[i as int]@);
            if self.local[i].scope == *scope && self.local[i].group == *group {
                return true;
            }
            i += 1;
        }
        let mut k: usize = 0;
        while k < self.remote.len()
            invariant
                v == self@,
                i == v.local.len(),
                forall|j: int| 0 <= j < v.local.len() ==> !((#[trigger] v.local[j]).scope == scope@ && v.local[j].group == group@),
                k <= v.remote.len(),
                forall|j: int| 0 <= j < k ==> !((#[trigger] v.remote[j]).scope == scope@ && v.remote[j].group == group@),
            decreases v.remote.len() - k,
        {
            assert(v.remote[k as int] == self.remote@[k as int]@);
            if self.remote[k].scope == *scope && self.remote[k].group == *group {
                return true;
            }
            k += 1;
        }
        false
    }

    /// Drop typed values of group `(scope, group)`: those of `id`, or all of
    /// them when `group_empty`.
    fn drop_typed(&mut self, scope: &String, group: &String, id: ActorId, group_empty: bool)
        requires
            pg_wf(old(self)@),
        ensures
            final(self)@ == (PgView { typed: typed_after_leave(old(self)@.typed, scope@, group@, id, group_empty), ..old(self)@ }),
            pg_wf(final(self)@),
    {
        let ghost old_typed = self@.typed;
        let ghost p = |t: TypedMember<T>| !(t.scope == scope@ && t.group == group@ && (t.id == id || group_empty));
        let mut i: usize = 0;
        let ghost mut k: int = 0;
        proof {
            assert(old_typed.take(0).filter(p) =~= Seq::<TypedMember<T>>::empty());
            assert(self@.typed.take(0) =~= Seq::<TypedMember<T>>::empty());
            assert(old_typed.skip(0) =~= old_typed);
            assert(self@.typed.skip(0) =~= self@.typed);
        }
        while i < self.typed.len()
            invariant
                0 <= i <= self@.typed.len(),
                0 <= k <= old_typed.len(),
                self@.typed.take(i as int) == old_typed.take(k).filter(p),
                self@.typed.skip(i as int) == old_typed.skip(k),
                self@.typed.len() - i == old_typed.len() - k,
                self@.local == old(self)@.local,
                self@.remote == old(self)@.remote,
                old_typed == old(self)@.typed,
                p == (|t: TypedMember<T>| !(t.scope == scope@ && t.group == group@ && (t.id == id || group_empty))),
            decreases self@.typed.len() - i,
        {
            let ghost cur = self@.typed;
            assert(cur[i as int] == old_typed[k]) by {
                assert(cur.skip(i as int)[0] == old_typed.skip(k)[0]);
            }
            assert(old_typed.take(k + 1) =~= old_typed.take(k).push(old_typed[k]));
            assert(old_typed.take(k + 1).drop_last() =~= old_typed.take(k));
            assert(old_typed.take(k + 1).last() == old_typed[k]);
            reveal(Seq::filter);
            let e = &self.typed[i];
            assert(cur[i as int] == e@);
            let remove = e.scope == *scope && e.group == *group && (e.id == id || group_empty);
            if remove {
                self.typed.remove(i);
                proof {
                    assert(!p(old_typed[k]));
                    assert(old_typed.take(k + 1).filter(p) == old_typed.take(k).filter(p));
                    assert(self@.typed =~= cur.remove(i as int));
                    assert(self@.typed.take(i as int) =~= cur.take(i as int));
                    assert forall|j: int| 0 <= j < self@.typed.skip(i as int).len()
                        implies #[trigger] self@.typed.skip(i as int)[j] == old_typed.skip(k + 1)[j] by {
                        assert(cur.skip(i as int)[j + 1] == old_typed.skip(k)[j + 1]);
                    }
                    assert(self@.typed.skip(i as int) =~= old_typed.skip(k + 1));
                    k = k + 1;
                }
            } else {
                proof {
                    assert(p(old_typed[k]));
                    assert(old_typed.take(k + 1).filter(p) == old_typed.take(k).filter(p).push(old_typed[k]));
                    assert(self@.typed.take(i + 1) =~= cur.take(i as int).push(cur[i as int]));
                    assert forall|j: int| 0 <= j < self@.typed.skip(i + 1).len()
                        implies #[trigger] self@.typed.skip(i + 1)[j] == old_typed.skip(k + 1)[j] by {
                        assert(cur.skip(i as int)[j + 1] == old_typed.skip(k)[j + 1]);
                    }
                    assert(self@.typed.skip(i + 1) =~= old_typed.skip(k + 1));
                    k = k + 1;
                }
                i += 1;
            }
        }
        proof {
            assert(old_typed.skip(k).len() == 0);
            assert(old_typed.take(k) =~= old_typed);
            assert(self@.typed.take(i as int) =~= self@.typed);
            let r = |a: TypedMember<T>, b: TypedMember<T>| !typed_is(a, b.scope, b.group, b.id);
            assert forall|x: int, y: int| 0 <= x < y < old_typed.len() implies #[trigger] r(old_typed[x], old_typed[y]) by {}
            crate::seq_util::lemma_filter_keeps_pairwise(old_typed, p, r);
            assert forall|x: int, y: int| 0 <= x < y < self@.typed.len()
                implies !typed_is(#[trigger] self@.typed[x], self@.typed[y].scope, self@.typed[y].group, #[trigger] self@.typed[y].id) by {
                assert(r(self@.typed[x], self@.typed[y]));
            }
        }
    }
}

/// Join local actor `id` to `group` in `scope`. Joins are counted: each
/// needs a matching leave. The group is created on first join.
pub fn join_scoped<T>(store: &mut PgStore<T>, scope: &str, group: &str, id: ActorId)
    requires
        pg_wf(old(store)@),
        local_joins(old(store)@, scope@, group@, id) < u32::MAX,
    ensures
        pg_wf(final(store)@),
        final(store)@ == (PgView { local: joined_local(old(store)@.local, scope@, group@, id), ..old(store)@ }),
{
    let scope = scope.to_owned();
    let group = group.to_owned();
    let ghost old_local = store@.local;
    match store.find_local(&scope, &group, id) {
        Some(i) => {
            let joins = store.local[i].joins;
            store.local[i].joins = joins + 1;
            proof {
                assert(store@.local =~= old_local.update(i as int, LocalMember { joins: old_local[i as int].joins + 1, ..old_local[i as int] }));
            }
        },
        None => {
            proof {
                lemma_first_index(old_local, local_pred(scope@, group@, id));
            }
            store.local.push(LocalEntry { scope, group, id, joins: 1 });
            proof {
                assert(store@.local =~= old_local.push(LocalMember { scope: scope@, group: group@, id, joins: 1 }));
            }
        },
    }
}

/// Join local actor `id` to `group` in the default scope.
pub fn join<T>(store: &mut PgStore<T>, group: &str, id: ActorId)
    requires
        pg_wf(old(store)@),
        local_joins(old(store)@, default_scope(), group@, id) < u32::MAX,
    ensures
        pg_wf(final(store)@),
        final(store)@ == (PgView { local: joined_local(old(store)@.local, default_scope(), group@, id), ..old(store)@ }),
{
    let scope = default_scope_name();
    join_scoped(store, scope.as_str(), group, id);
}

} // verus!
verus! {

proof fn lemma_local_update_wf<T>(v: PgView<T>, i: int, m: LocalMember)
    requires
        pg_wf(v),
        0 <= i < v.local.len(),
        m.scope == v.local[i].scope,
        m.group == v.local[i].group,
        m.id == v.local[i].id,
        m.joins > 0,
    ensures
        pg_wf(PgView { local: v.local.update(i, m), ..v }),
{
    let l = v.local.update(i, m);
    assert forall|x: int, y: int| 0 <= x < y < l.len()
        implies !local_is(#[trigger] l[x], l[y].scope, l[y].group, #[trigger] l[y].id) by {
        assert(!local_is(v.local[x], v.local[y].scope, v.local[y].group, v.local[y].id));
    }
}

proof fn lemma_local_remove_wf<T>(v: PgView<T>, i: int)
    requires
        pg_wf(v),
        0 <= i < v.local.len(),
    ensures
        pg_wf(PgView { local: v.local.remove(i), ..v }),
{
    let l = v.local.remove(i);
    assert forall|x: int, y: int| 0 <= x < y < l.len()
        implies !local_is(#[trigger] l[x], l[y].scope, l[y].group, #[trigger] l[y].id) by {
        let xo = if x < i { x } else { x + 1 };
        let yo = if y < i { y } else { y + 1 };
        assert(l[x] == v.local[xo]);
        assert(l[y] == v.local[yo]);
    }
    assert forall|x: int| 0 <= x < l.len() implies #[trigger] l[x].joins > 0 by {
        let xo = if x < i { x } else { x + 1 };
        assert(l[x] == v.local[xo]);
    }
}

/// Leave `group` in `scope` once (decrement the join count of local actor
/// `id`); fails with `NotJoined` when the actor is not a member.
pub fn leave_scoped<T>(store: &mut PgStore<T>, scope: &str, group: &str, id: ActorId) -> (r: Result<(), PgError>)
    requires
        pg_wf(old(store)@),
    ensures
        pg_wf(final(store)@),
        final(store)@ == left(old(store)@, scope@, group@, id).0,
        r is Ok == left(old(store)@, scope@, group@, id).1,
        r matches Err(PgError::NotJoined(a, g, s)) ==> a == id && g@ == group@ && s@ == scope@,
{
    let scope = scope.to_owned();
    let group = group.to_owned();
    let ghost v = store@;
    proof {
        lemma_first_index(v.local, local_pred(scope@, group@, id));
    }
    match store.find_local(&scope, &group, id) {
        None => Err(PgError::NotJoined(id, group, scope)),
        Some(i) => {
            let joins = store.local[i].joins;
            assert(v.local[i as int] == store.local@[i as int]@);
            if joins > 1 {
                store.local[i].joins = joins - 1;
                proof {
                    assert(store@.local =~= v.local.update(i as int, LocalMember { joins: (v.local[i as int].joins - 1) as nat, ..v.local[i as int] }));
                    lemma_local_update_wf(v, i as int, LocalMember { joins: (v.local[i as int].joins - 1) as nat, ..v.local[i as int] });
                }
            } else {
                store.local.remove(i);
                proof {
                    assert(store@.local =~= v.local.remove(i as int));
                    lemma_local_remove_wf(v, i as int);
                }
                let occupied = store.occupied(&scope, &group);
                store.drop_typed(&scope, &group, id, !occupied);
            }
            Ok(())
        },
    }
}

/// Leave `group` in the default scope once.
pub fn leave<T>(store: &mut PgStore<T>, group: &str, id: ActorId) -> (r: Result<(), PgError>)
    requires
        pg_wf(old(store)@),
    ensures
        pg_wf(final(store)@),
        final(store)@ == left(old(store)@, default_scope(), group@, id).0,
        r is Ok == left(old(store)@, default_scope(), group@, id).1,
        r matches Err(PgError::NotJoined(a, g, s)) ==> a == id && g@ == group@ && s@ == default_scope(),
{
    let scope = default_scope_name();
    leave_scoped(store, scope.as_str(), group, id)
}

} // verus!
verus! {

/// The membership belongs to group `(s, g)`.
pub open spec fn in_group(m: LocalMember, s: Seq<char>, g: Seq<char>) -> bool {
    m.scope == s && m.group == g
}

/// Local memberships of group `(s, g)`, in order.
pub open spec fn group_members(ls: Seq<LocalMember>, s: Seq<char>, g: Seq<char>) -> Seq<ActorId> {
    ls.filter(|m: LocalMember| in_group(m, s, g)).map_values(|m: LocalMember| m.id)
}

/// Memberships paired with liveness flags.
pub open spec fn with_flags(ls: Seq<LocalMember>, alive: Seq<bool>) -> Seq<(LocalMember, bool)> {
    Seq::new(ls.len(), |p: int| (ls[p], alive[p]))
}

/// Memberships left after dropping the members of group `(s, g)` whose flag
/// says they are no longer alive; other memberships stay.
pub open spec fn survivors(ls: Seq<LocalMember>, s: Seq<char>, g: Seq<char>, alive: Seq<bool>) -> Seq<LocalMember> {
    with_flags(ls, alive).filter(|e: (LocalMember, bool)| !(in_group(e.0, s, g) && !e.1))
        .map_values(|e: (LocalMember, bool)| e.0)
}

/// Typed values with those of group `(s, g)` dropped.
pub open spec fn typed_without_group<T>(ts: Seq<TypedMember<T>>, s: Seq<char>, g: Seq<char>) -> Seq<TypedMember<T>> {
    ts.filter(|t: TypedMember<T>| !(t.scope == s && t.group == g))
}

/// Whether group `(s, g)` has a local member.
pub open spec fn has_local_member(ls: Seq<LocalMember>, s: Seq<char>, g: Seq<char>) -> bool {
    exists|i: int| 0 <= i < ls.len() && in_group(#[trigger] ls[i], s, g)
}

/// Store after pruning dead local members of `(s, g)` with liveness `alive`:
/// when the group had local members and none is left, and no remote member
/// either, its typed values go too.
pub open spec fn pruned<T>(v: PgView<T>, s: Seq<char>, g: Seq<char>, alive: Seq<bool>) -> PgView<T> {
    let local = survivors(v.local, s, g, alive);
    PgView {
        local,
        remote: v.remote,
        typed: if has_local_member(v.local, s, g) && !group_occupied(local, v.remote, s, g) {
            typed_without_group(v.typed, s, g)
        } else {
            v.typed
        },
    }
}

proof fn lemma_survivors_step(ls: Seq<LocalMember>, s: Seq<char>, g: Seq<char>, alive: Seq<bool>, k: int, f: bool)
    requires
        0 <= k < ls.len(),
        alive.len() == k,
    ensures
        survivors(ls.take(k + 1), s, g, alive.push(f)) == if in_group(ls[k], s, g) && !f {
            survivors(ls.take(k), s, g, alive)
        } else {
            survivors(ls.take(k), s, g, alive).push(ls[k])
        },
{
    reveal(Seq::filter);
    let p = |e: (LocalMember, bool)| !(in_group(e.0, s, g) && !e.1);
    let w1 = with_flags(ls.take(k + 1), alive.push(f));
    let w0 = with_flags(ls.take(k), alive);
    assert(w1.drop_last() =~= w0);
    assert(w1.last() == (ls[k], f));
    if p(w1.last()) {
        assert(w1.filter(p) == w0.filter(p).push((ls[k], f)));
        assert(w1.filter(p).map_values(|e: (LocalMember, bool)| e.0) =~= w0.filter(p).map_values(|e: (LocalMember, bool)| e.0).push(ls[k]));
    } else {
        assert(w1.filter(p) == w0.filter(p));
    }
}

proof fn lemma_group_members_push(ls: Seq<LocalMember>, s: Seq<char>, g: Seq<char>, m: LocalMember)
    ensures
        group_members(ls.push(m), s, g) == if in_group(m, s, g) {
            group_members(ls, s, g).push(m.id)
        } else {
            group_members(ls, s, g)
        },
{
    reveal(Seq::filter);
    let p = |x: LocalMember| in_group(x, s, g);
    assert(ls.push(m).drop_last() =~= ls);
    if p(m) {
        assert(ls.push(m).filter(p) == ls.filter(p).push(m));
        assert(ls.push(m).filter(p).map_values(|x: LocalMember| x.id) =~= ls.filter(p).map_values(|x: LocalMember| x.id).push(m.id));
    } else {
        assert(ls.push(m).filter(p) == ls.filter(p));
    }
}

} // verus!
verus! {

impl<T> PgStore<T> {
    /// Whether group `(scope, group)` has a local member.
    fn has_local(&self, scope: &String, group: &String) -> (b: bool)
        ensures
            b == has_local_member(self@.local, scope@, group@),
    {
        let ghost v = self@;
        let mut i: usize = 0;
        while i < self.local.len()
            invariant
                v == self@,
                i <= v.local.len(),
                forall|j: int| 0 <= j < i ==> !in_group(#[trigger] v.local[j], scope@, group@),
            decreases v.local.len() - i,
        {
            assert(v.local[i as int] == self.local@[i as int]@);
            if self.local[i].scope == *scope && self.local[i].group == *group {
                return true;
            }
            i += 1;
        }
        false
    }

    /// Drop the local members of `(scope, group)` that `is_alive` reports
    /// dead, asking once per member in order; return the members left.
    fn prune_local<F: Fn(ActorId) -> bool>(&mut self, scope: &String, group: &String, is_alive: &F) -> (ids: Vec<ActorId>)
        requires
            pg_wf(old(self)@),
            forall|a: ActorId| is_alive.requires((a,)),
        ensures
            pg_wf(final(self)@),
            exists|alive: Seq<bool>| {
                &&& alive.len() == old(self)@.local.len()
                &&& forall|p: int| 0 <= p < alive.len() && in_group(old(self)@.local[p], scope@, group@)
                    ==> call_ensures(is_alive, (old(self)@.local[p].id,), #[trigger] alive[p])
                &&& final(self)@.local == survivors(old(self)@.local, scope@, group@, alive)
            },
            final(self)@.remote == old(self)@.remote,
            final(self)@.typed == old(self)@.typed,
            ids@ == group_members(final(self)@.local, scope@, group@),
    {
        let ghost old_local = self@.local;
        let ghost mut alive: Seq<bool> = Seq::empty();
        let mut ids: Vec<ActorId> = Vec::new();
        let mut i: usize = 0;
        let ghost mut k: int = 0;
        proof {
            assert(survivors(old_local.take(0), scope@, group@, alive) =~= Seq::<LocalMember>::empty()) by {
                reveal(Seq::filter);
                assert(with_flags(old_local.take(0), alive) =~= Seq::<(LocalMember, bool)>::empty());
            }
            assert(self@.local.take(0) =~= Seq::<LocalMember>::empty());
            assert(old_local.skip(0) =~= old_local);
            assert(self@.local.skip(0) =~= self@.local);
            reveal(Seq::filter);
        }
        while i < self.local.len()
            invariant
                0 <= i <= self@.local.len(),
                0 <= k <= old_local.len(),
                alive.len() == k,
                self@.local.take(i as int) == survivors(old_local.take(k), scope@, group@, alive),
                self@.local.skip(i as int) == old_local.skip(k),
                self@.local.len() - i == old_local.len() - k,
                forall|p: int| 0 <= p < k && in_group(old_local[p], scope@, group@)
                    ==> call_ensures(is_alive, (old_local[p].id,), #[trigger] alive[p]),
                ids@ == group_members(self@.local.take(i as int), scope@, group@),
                self@.remote == old(self)@.remote,
                self@.typed == old(self)@.typed,
                old_local == old(self)@.local,
                forall|a: ActorId| is_alive.requires((a,)),
            decreases self@.local.len() - i,
        {
            let ghost cur = self@.local;
            assert(cur[i as int] == old_local[k]) by {
                assert(cur.skip(i as int)[0] == old_local.skip(k)[0]);
            }
            assert(old_local.take(k + 1) =~= old_local.take(k).push(old_local[k]));
            assert(cur[i as int] == self.local@[i as int]@);
            let in_key = self.local[i].scope == *scope && self.local[i].group == *group;
            let keep = if in_key { is_alive(self.local[i].id) } else { true };
            proof {
                lemma_survivors_step(old_local, scope@, group@, alive, k, keep);
                alive = alive.push(keep);
            }
            if !keep {
                self.local.remove(i);
                proof {
                    assert(self@.local =~= cur.remove(i as int));
                    assert(self@.local.take(i as int) =~= cur.take(i as int));
                    assert forall|j: int| 0 <= j < self@.local.skip(i as int).len()
                        implies #[trigger] self@.local.skip(i as int)[j] == old_local.skip(k + 1)[j] by {
                        assert(cur.skip(i as int)[j + 1] == old_local.skip(k)[j + 1]);
                    }
                    assert(self@.local.skip(i as int) =~= old_local.skip(k + 1));
                    k = k + 1;
                }
            } else {
                if in_key {
                    ids.push(self.local[i].id);
                }
                proof {
                    assert(self@.local.take(i + 1) =~= cur.take(i as int).push(cur[i as int]));
                    lemma_group_members_push(cur.take(i as int), scope@, group@, cur[i as int]);
                    assert forall|j: int| 0 <= j < self@.local.skip(i + 1).len()
                        implies #[trigger] self@.local.skip(i + 1)[j] == old_local.skip(k + 1)[j] by {
                        assert(cur.skip(i as int)[j + 1] == old_local.skip(k)[j + 1]);
                    }
                    assert(self@.local.skip(i + 1) =~= old_local.skip(k + 1));
                    k = k + 1;
                }
                i += 1;
            }
        }
        proof {
            assert(old_local.skip(k).len() == 0);
            assert(old_local.take(k) =~= old_local);
            assert(self@.local.take(i as int) =~= self@.local);
            lemma_survivors_wf(old(self)@, scope@, group@, alive);
        }
        ids
    }
}

proof fn lemma_survivors_wf<T>(v: PgView<T>, s: Seq<char>, g: Seq<char>, alive: Seq<bool>)
    requires
        pg_wf(v),
        alive.len() == v.local.len(),
    ensures
        pg_wf(PgView { local: survivors(v.local, s, g, alive), ..v }),
{
    let w = with_flags(v.local, alive);
    let p = |e: (LocalMember, bool)| !(in_group(e.0, s, g) && !e.1);
    let r = |a: (LocalMember, bool), b: (LocalMember, bool)| !local_is(a.0, b.0.scope, b.0.group, b.0.id) && a.0.joins > 0 && b.0.joins > 0;
    assert forall|x: int, y: int| 0 <= x < y < w.len() implies #[trigger] r(w[x], w[y]) by {}
    crate::seq_util::lemma_filter_keeps_pairwise(w, p, r);
    let f = w.filter(p);
    let l = survivors(v.local, s, g, alive);
    assert forall|x: int, y: int| 0 <= x < y < l.len()
        implies !local_is(#[trigger] l[x], l[y].scope, l[y].group, #[trigger] l[y].id) by {
        assert(r(f[x], f[y]));
    }
    assert forall|x: int| 0 <= x < l.len() implies #[trigger] l[x].joins > 0 by {
        if l.len() >= 2 {
            if x == 0 {
                assert(r(f[0], f[1]));
            } else {
                assert(r(f[0], f[x]));
            }
        } else {
            crate::seq_util::lemma_filter_elements(w, p, x);
            let q = choose|q: int| 0 <= q < w.len() && w[q] == f[x];
        }
    }
}

} // verus!
verus! {

proof fn lemma_survivors_all_alive(ls: Seq<LocalMember>, s: Seq<char>, g: Seq<char>, alive: Seq<bool>)
    requires
        alive.len() == ls.len(),
        forall|p: int| 0 <= p < ls.len() ==> #[trigger] alive[p] || !in_group(ls[p], s, g),
    ensures
        survivors(ls, s, g, alive) == ls,
    decreases ls.len(),
{
    reveal(Seq::filter);
    if ls.len() > 0 {
        let d = ls.drop_last();
        lemma_survivors_all_alive(d, s, g, alive.drop_last());
        let w = with_flags(ls, alive);
        assert(w.drop_last() =~= with_flags(d, alive.drop_last()));
        let p = |e: (LocalMember, bool)| !(in_group(e.0, s, g) && !e.1);
        assert(p(w.last()));
        assert(w.filter(p) == with_flags(d, alive.drop_last()).filter(p).push(w.last()));
        assert(survivors(ls, s, g, alive) =~= survivors(d, s, g, alive.drop_last()).push(ls.last()));
        assert(d.push(ls.last()) =~= ls);
    }
}

proof fn lemma_no_members_when_empty(ls: Seq<LocalMember>, s: Seq<char>, g: Seq<char>)
    requires
        group_members(ls, s, g).len() == 0,
    ensures
        !has_local_member(ls, s, g),
{
    let p = |m: LocalMember| in_group(m, s, g);
    ls.filter_lemma(p);
    if has_local_member(ls, s, g) {
        let i = choose|i: int| 0 <= i < ls.len() && in_group(#[trigger] ls[i], s, g);
        assert(ls.filter(p).contains(ls[i]));
    }
}

proof fn lemma_typed_after_leave_all<T>(ts: Seq<TypedMember<T>>, s: Seq<char>, g: Seq<char>, id: ActorId)
    ensures
        typed_after_leave(ts, s, g, id, true) == typed_without_group(ts, s, g),
    decreases ts.len(),
{
    reveal(Seq::filter);
    if ts.len() > 0 {
        lemma_typed_after_leave_all(ts.drop_last(), s, g, id);
    }
}

proof fn lemma_members_nonempty(ls: Seq<LocalMember>, s: Seq<char>, g: Seq<char>)
    requires
        group_members(ls, s, g).len() > 0,
    ensures
        has_local_member(ls, s, g),
        group_occupied(ls, Seq::empty(), s, g),
{
    let p = |m: LocalMember| in_group(m, s, g);
    crate::seq_util::lemma_filter_elements(ls, p, 0);
    let w = choose|i: int| 0 <= i < ls.len() && ls[i] == ls.filter(p)[0];
    assert(in_group(ls[w], s, g));
}

/// Live local members of `group` in `scope`, in join order. Each member of
/// the group is checked once with `is_alive`; dead members are dropped from
/// the group first, and the group's typed values go when nothing is left.
pub fn get_local_members_scoped<T, F: Fn(ActorId) -> bool>(store: &mut PgStore<T>, scope: &str, group: &str, is_alive: &F) -> (r: Vec<ActorId>)
    requires
        pg_wf(old(store)@),
        forall|a: ActorId| is_alive.requires((a,)),
    ensures
        pg_wf(final(store)@),
        exists|alive: Seq<bool>| {
            &&& alive.len() == old(store)@.local.len()
            &&& forall|p: int| 0 <= p < alive.len() && in_group(old(store)@.local[p], scope@, group@)
                ==> call_ensures(is_alive, (old(store)@.local[p].id,), #[trigger] alive[p])
            &&& final(store)@ == pruned(old(store)@, scope@, group@, alive)
        },
        r@ == group_members(final(store)@.local, scope@, group@),
{
    let scope = scope.to_owned();
    let group = group.to_owned();
    let ghost v = store@;
    if !store.has_local(&scope, &group) {
        proof {
            let alive = Seq::new(v.local.len(), |p: int| true);
            lemma_survivors_all_alive(v.local, scope@, group@, alive);
            assert(pruned(v, scope@, group@, alive) == v);
            let p = |m: LocalMember| in_group(m, scope@, group@);
            assert(v.local.filter(p).len() == 0) by {
                if v.local.filter(p).len() > 0 {
                    crate::seq_util::lemma_filter_elements(v.local, p, 0);
                    let w = choose|i: int| 0 <= i < v.local.len() && v.local[i] == v.local.filter(p)[0];
                    assert(in_group(v.local[w], scope@, group@));
                }
            }
            assert(group_members(v.local, scope@, group@) =~= Seq::<ActorId>::empty());
        }
        return Vec::new();
    }
    let ids = store.prune_local(&scope, &group, is_alive);
    let ghost alive = choose|alive: Seq<bool>| {
        &&& alive.len() == v.local.len()
        &&& forall|p: int| 0 <= p < alive.len() && in_group(v.local[p], scope@, group@)
            ==> call_ensures(is_alive, (v.local[p].id,), #[trigger] alive[p])
        &&& store@.local == survivors(v.local, scope@, group@, alive)
    };
    if ids.len() == 0 {
        proof {
            lemma_no_members_when_empty(store@.local, scope@, group@);
        }
        let occupied = store.occupied(&scope, &group);
        assert(has_local_member(v.local, scope@, group@));
        assert(store@.typed == v.typed);
        assert(store@.remote == v.remote);
        if !occupied {
            let anyone = ActorId::from_raw(0);
            proof {
                lemma_typed_after_leave_all(store@.typed, scope@, group@, anyone);
            }
            store.drop_typed(&scope, &group, anyone, true);
            assert(store@.typed == typed_without_group(v.typed, scope@, group@));
        } else {
            assert(store@.typed == v.typed);
        }
        assert(store@.local == pruned(v, scope@, group@, alive).local);
        assert(store@.remote == pruned(v, scope@, group@, alive).remote);
        assert(store@.typed == pruned(v, scope@, group@, alive).typed);
    } else {
        proof {
            lemma_members_nonempty(store@.local, scope@, group@);
            let i = choose|i: int| 0 <= i < store@.local.len() && in_group(#[trigger] store@.local[i], scope@, group@);
            assert(group_occupied(store@.local, store@.remote, scope@, group@));
        }
        assert(store@ == pruned(v, scope@, group@, alive));
    }
    ids
}

/// Every local member of `group` in `scope`, in join order, dead actors
/// included until they are pruned; the store is left as it is.
pub fn get_members_scoped<T>(store: &PgStore<T>, scope: &str, group: &str) -> (r: Vec<ActorId>)
    ensures
        r@ == group_members(store@.local, scope@, group@),
{
    let scope = scope.to_owned();
    let group = group.to_owned();
    let ghost v = store@;
    let ghost p = |m: LocalMember| in_group(m, scope@, group@);
    let mut out: Vec<ActorId> = Vec::new();
    let mut i: usize = 0;
    proof {
        reveal(Seq::filter);
        assert(v.local.take(0).filter(p) =~= Seq::<LocalMember>::empty());
    }
    while i < store.local.len()
        invariant
            v == store@,
            i <= v.local.len(),
            p == (|m: LocalMember| in_group(m, scope@, group@)),
            out@ == v.local.take(i as int).filter(p).map_values(|m: LocalMember| m.id),
        decreases v.local.len() - i,
    {
        assert(v.local[i as int] == store.local@[i as int]@);
        proof {
            reveal(Seq::filter);
            assert(v.local.take(i as int + 1).drop_last() =~= v.local.take(i as int));
        }
        if store.local[i].scope == scope && store.local[i].group == group {
            out.push(store.local[i].id);
            proof {
                assert(v.local.take(i as int + 1).filter(p) =~= v.local.take(i as int).filter(p).push(v.local[i as int]));
            }
        } else {
            proof {
                assert(v.local.take(i as int + 1).filter(p) =~= v.local.take(i as int).filter(p));
            }
        }
        i += 1;
        assert(out@ =~= v.local.take(i as int).filter(p).map_values(|m: LocalMember| m.id));
    }
    assert(v.local.take(v.local.len() as int) =~= v.local);
    out
}

/// Live local members of `group` in the default scope.
pub fn get_local_members<T, F: Fn(ActorId) -> bool>(store: &mut PgStore<T>, group: &str, is_alive: &F) -> (r: Vec<ActorId>)
    requires
        pg_wf(old(store)@),
        forall|a: ActorId| is_alive.requires((a,)),
    ensures
        pg_wf(final(store)@),
        exists|alive: Seq<bool>| {
            &&& alive.len() == old(store)@.local.len()
            &&& forall|p: int| 0 <= p < alive.len() && in_group(old(store)@.local[p], default_scope(), group@)
                ==> call_ensures(is_alive, (old(store)@.local[p].id,), #[trigger] alive[p])
            &&& final(store)@ == pruned(old(store)@, default_scope(), group@, alive)
        },
        r@ == group_members(final(store)@.local, default_scope(), group@),
{
    let scope = default_scope_name();
    get_local_members_scoped(store, scope.as_str(), group, is_alive)
}

/// Every local member of `group` in the default scope, dead actors
/// included until they are pruned; the store is left as it is.
pub fn get_members<T>(store: &PgStore<T>, group: &str) -> (r: Vec<ActorId>)
    ensures
        r@ == group_members(store@.local, default_scope(), group@),
{
    let scope = default_scope_name();
    get_members_scoped(store, scope.as_str(), group)
}

} // verus!
verus! {

/// Names of the groups of `scope` that have a local member.
pub open spec fn groups_in_scope(ls: Seq<LocalMember>, s: Seq<char>) -> Set<Seq<char>> {
    Set::new(|g: Seq<char>| exists|i: int| 0 <= i < ls.len() && (#[trigger] ls[i]).scope == s && ls[i].group == g)
}

/// Names of the scopes that have a group with a local member.
pub open spec fn scopes_in_use(ls: Seq<LocalMember>) -> Set<Seq<char>> {
    Set::new(|s: Seq<char>| exists|i: int| 0 <= i < ls.len() && (#[trigger] ls[i]).scope == s)
}

/// Names of all groups with local members in `scope`, sorted.
pub fn which_groups_scoped<T>(store: &PgStore<T>, scope: &str) -> (r: Vec<String>)
    ensures
        strictly_sorted(r@),
        text_set(r@) == groups_in_scope(store@.local, scope@),
{
    let scope = scope.to_owned();
    let ghost v = store@;
    let mut names: Vec<String> = Vec::new();
    let mut i: usize = 0;
    proof {
        assert(text_set(names@) =~= Set::<Seq<char>>::empty());
    }
    while i < store.local.len()
        invariant
            v == store@,
            i <= v.local.len(),
            text_set(names@) == Set::new(|g: Seq<char>| exists|j: int| 0 <= j < i && (#[trigger] v.local[j]).scope == scope@ && v.local[j].group == g),
        decreases v.local.len() - i,
    {
        assert(v.local[i as int] == store.local@[i as int]@);
        let ghost before = names@;
        if store.local[i].scope == scope {
            names.push(store.local[i].group.clone());
            proof {
                crate::strings::lemma_text_set_push(before, names@[names@.len() - 1]);
            }
        }
        proof {
            assert(text_set(names@) =~= Set::new(|g: Seq<char>| exists|j: int| 0 <= j < i + 1 && (#[trigger] v.local[j]).scope == scope@ && v.local[j].group == g));
        }
        i += 1;
    }
    proof {
        assert(text_set(names@) =~= groups_in_scope(v.local, scope@));
    }
    sorted_distinct(names)
}

/// Names of all groups with local members in the default scope, sorted.
pub fn which_groups<T>(store: &PgStore<T>) -> (r: Vec<String>)
    ensures
        strictly_sorted(r@),
        text_set(r@) == groups_in_scope(store@.local, default_scope()),
{
    let scope = default_scope_name();
    which_groups_scoped(store, scope.as_str())
}

/// Names of all scopes with at least one group, sorted.
pub fn which_scopes<T>(store: &PgStore<T>) -> (r: Vec<String>)
    ensures
        strictly_sorted(r@),
        text_set(r@) == scopes_in_use(store@.local),
{
    let ghost v = store@;
    let mut names: Vec<String> = Vec::new();
    let mut i: usize = 0;
    proof {
        assert(text_set(names@) =~= Set::<Seq<char>>::empty());
    }
    while i < store.local.len()
        invariant
            v == store@,
            i <= v.local.len(),
            text_set(names@) == Set::new(|s: Seq<char>| exists|j: int| 0 <= j < i && (#[trigger] v.local[j]).scope == s),
        decreases v.local.len() - i,
    {
        assert(v.local[i as int] == store.local@[i as int]@);
        let ghost before = names@;
        names.push(store.local[i].scope.clone());
        proof {
            crate::strings::lemma_text_set_push(before, names@[names@.len() - 1]);
            assert(text_set(names@) =~= Set::new(|s: Seq<char>| exists|j: int| 0 <= j < i + 1 && (#[trigger] v.local[j]).scope == s));
        }
        i += 1;
    }
    proof {
        assert(text_set(names@) =~= scopes_in_use(v.local));
    }
    sorted_distinct(names)
}

} // verus!
verus! {

/// Typed values after `id` registers `value` in group `(s, g)`: it replaces
/// the actor's earlier value there, or is appended.
pub open spec fn typed_joined<T>(ts: Seq<TypedMember<T>>, s: Seq<char>, g: Seq<char>, id: ActorId, value: T) -> Seq<TypedMember<T>> {
    let i = first_index(ts, typed_pred(s, g, id));
    if i >= 0 {
        ts.update(i, TypedMember { value, ..ts[i] })
    } else {
        ts.push(TypedMember { scope: s, group: g, id, value })
    }
}

/// Typed values registered in group `(s, g)`, in order.
pub open spec fn typed_group<T>(ts: Seq<TypedMember<T>>, s: Seq<char>, g: Seq<char>) -> Seq<TypedMember<T>> {
    ts.filter(|t: TypedMember<T>| t.scope == s && t.group == g)
}

/// A local membership announced to other nodes.
#[derive(Debug, Clone, PartialEq, Eq)]
pub struct PgMemberEntry {
    pub scope: String,
    pub group: String,
    pub address: ActorAddress,
}

impl<T> PgStore<T> {
    fn find_typed(&self, scope: &String, group: &String, id: ActorId) -> (r: Option<usize>)
        ensures
            match r {
                Some(i) => i == first_index(self@.typed, typed_pred(scope@, group@, id)) && i < self@.typed.len(),
                None => first_index(self@.typed, typed_pred(scope@, group@, id)) == -1,
            },
    {
        let ghost v = self@.typed;
        let ghost p = typed_pred::<T>(scope@, group@, id);
        proof {
            lemma_first_index(v, p);
        }
        let mut i: usize = 0;
        while i < self.typed.len()
            invariant
                v == self@.typed,
                p == typed_pred::<T>(scope@, group@, id),
                i <= v.len(),
                forall|j: int| 0 <= j < i ==> !typed_is(#[trigger] v[j], scope@, group@, id),
            decreases v.len() - i,
        {
            let e = &self.typed[i];
            assert(v[i as int] == self.typed@[i as int]@);
            if e.id == id && e.scope == *scope && e.group == *group {
                assert(is_first(v, p, i as int));
                return Some(i);
            }
            i += 1;
        }
        assert(forall|j: int| 0 <= j < v.len() ==> !p(#[trigger] v[j]));
        None
    }
}

/// Register `value` as local actor `id`'s typed value in `group` of `scope`,
/// replacing an earlier one.
pub fn typed_join<T>(store: &mut PgStore<T>, scope: &str, group: &str, id: ActorId, value: T)
    requires
        pg_wf(old(store)@),
    ensures
        pg_wf(final(store)@),
        final(store)@ == (PgView { typed: typed_joined(old(store)@.typed, scope@, group@, id, value), ..old(store)@ }),
{
    let scope = scope.to_owned();
    let group = group.to_owned();
    let ghost old_typed = store@.typed;
    match store.find_typed(&scope, &group, id) {
        Some(i) => {
            store.typed[i].value = value;
            proof {
                assert(store@.typed =~= old_typed.update(i as int, TypedMember { value, ..old_typed[i as int] }));
                let t = store@.typed;
                assert forall|x: int, y: int| 0 <= x < y < t.len()
                    implies !typed_is(#[trigger] t[x], t[y].scope, t[y].group, #[trigger] t[y].id) by {
                    assert(!typed_is(old_typed[x], old_typed[y].scope, old_typed[y].group, old_typed[y].id));
                }
            }
        },
        None => {
            proof {
                lemma_first_index(old_typed, typed_pred(scope@, group@, id));
            }
            store.typed.push(TypedEntry { scope, group, id, value });
            proof {
                assert(store@.typed =~= old_typed.push(TypedMember { scope: scope@, group: group@, id, value }));
            }
        },
    }
}

/// Typed values registered in `group` of `scope` (copies), in registration order.
pub fn typed_members<T: Clone>(store: &PgStore<T>, scope: &str, group: &str) -> (r: Vec<T>)
    ensures
        r@.len() == typed_group(store@.typed, scope@, group@).len(),
        forall|k: int| 0 <= k < r@.len() ==> cloned(typed_group(store@.typed, scope@, group@)[k].value, #[trigger] r@[k]),
{
    let scope = scope.to_owned();
    let group = group.to_owned();
    let ghost v = store@.typed;
    let ghost p = |t: TypedMember<T>| t.scope == scope@ && t.group == group@;
    let mut out: Vec<T> = Vec::new();
    let mut i: usize = 0;
    proof {
        reveal(Seq::filter);
        assert(v.take(0) =~= Seq::<TypedMember<T>>::empty());
    }
    while i < store.typed.len()
        invariant
            v == store@.typed,
            p == (|t: TypedMember<T>| t.scope == scope@ && t.group == group@),
            i <= v.len(),
            out@.len() == v.take(i as int).filter(p).len(),
            forall|k: int| 0 <= k < out@.len() ==> cloned(v.take(i as int).filter(p)[k].value, #[trigger] out@[k]),
        decreases v.len() - i,
    {
        proof {
            reveal(Seq::filter);
            assert(v.take(i + 1).drop_last() =~= v.take(i as int));
            assert(v.take(i + 1).last() == v[i as int]);
        }
        assert(v[i as int] == store.typed@[i as int]@);
        if store.typed[i].scope == scope && store.typed[i].group == group {
            let c = store.typed[i].value.clone();
            out.push(c);
            proof {
                assert(v.take(i + 1).filter(p) == v.take(i as int).filter(p).push(v[i as int]));
            }
        } else {
            proof {
                assert(v.take(i + 1).filter(p) == v.take(i as int).filter(p));
            }
        }
        i += 1;
    }
    proof {
        assert(v.take(v.len() as int) =~= v);
    }
    out
}

/// Local memberships, for announcing them to other nodes.
pub fn local_pg_snapshot<T>(store: &PgStore<T>) -> (r: Vec<PgMemberEntry>)
    ensures
        r@.len() == store@.local.len(),
        forall|k: int| 0 <= k < r@.len() ==> {
            &&& (#[trigger] r@[k]).scope@ == store@.local[k].scope
            &&& r@[k].group@ == store@.local[k].group
            &&& r@[k].address@ == (AddressView { node: None, actor: store@.local[k].id@ })
        },
{
    let ghost v = store@.local;
    let mut out: Vec<PgMemberEntry> = Vec::new();
    let mut i: usize = 0;
    while i < store.local.len()
        invariant
            v == store@.local,
            i <= v.len(),
            out@.len() == i,
            forall|k: int| 0 <= k < i ==> {
                &&& (#[trigger] out@[k]).scope@ == v[k].scope
                &&& out@[k].group@ == v[k].group
                &&& out@[k].address@ == (AddressView { node: None, actor: v[k].id@ })
            },
        decreases v.len() - i,
    {
        assert(v[i as int] == store.local@[i as int]@);
        let e = &store.local[i];
        out.push(PgMemberEntry { scope: e.scope.clone(), group: e.group.clone(), address: ActorAddress::local(e.id) });
        i += 1;
    }
    out
}

} // verus!
verus! {

/// Groups `(scope, group)` that local actor `id` belongs to, in membership order.
pub open spec fn actor_groups(ls: Seq<LocalMember>, id: ActorId) -> Seq<(Seq<char>, Seq<char>)> {
    ls.filter(|m: LocalMember| m.id == id).map_values(|m: LocalMember| (m.scope, m.group))
}

/// Typed values after dropping those of each group in `keys` that is left
/// without local and remote members.
pub open spec fn drop_emptied<T>(
    ts: Seq<TypedMember<T>>,
    keys: Seq<(Seq<char>, Seq<char>)>,
    local: Seq<LocalMember>,
    remote: Seq<RemoteMember>,
) -> Seq<TypedMember<T>>
    decreases keys.len(),
{
    if keys.len() == 0 {
        ts
    } else {
        let rest = drop_emptied(ts, keys.drop_last(), local, remote);
        let (s, g) = keys.last();
        if group_occupied(local, remote, s, g) { rest } else { typed_without_group(rest, s, g) }
    }
}

/// Store after local actor `id` exits: it leaves every group, its typed
/// values go, and so do the typed values of the groups it leaves empty.
pub open spec fn removed_actor<T>(v: PgView<T>, id: ActorId) -> PgView<T> {
    let local = v.local.filter(|m: LocalMember| m.id != id);
    PgView {
        local,
        remote: v.remote,
        typed: drop_emptied(v.typed, actor_groups(v.local, id), local, v.remote)
            .filter(|t: TypedMember<T>| t.id != id),
    }
}

proof fn lemma_filter_wf_local<T>(v: PgView<T>, p: spec_fn(LocalMember) -> bool)
    requires
        pg_wf(v),
    ensures
        pg_wf(PgView { local: v.local.filter(p), ..v }),
{
    let r = |a: LocalMember, b: LocalMember| !local_is(a, b.scope, b.group, b.id) && a.joins > 0 && b.joins > 0;
    assert forall|x: int, y: int| 0 <= x < y < v.local.len() implies #[trigger] r(v.local[x], v.local[y]) by {}
    crate::seq_util::lemma_filter_keeps_pairwise(v.local, p, r);
    let l = v.local.filter(p);
    assert forall|x: int, y: int| 0 <= x < y < l.len()
        implies !local_is(#[trigger] l[x], l[y].scope, l[y].group, #[trigger] l[y].id) by {
        assert(r(l[x], l[y]));
    }
    assert forall|x: int| 0 <= x < l.len() implies #[trigger] l[x].joins > 0 by {
        crate::seq_util::lemma_filter_elements(v.local, p, x);
        let w = choose|w: int| 0 <= w < v.local.len() && v.local[w] == l[x];
    }
}

proof fn lemma_filter_wf_typed<T>(v: PgView<T>, p: spec_fn(TypedMember<T>) -> bool)
    requires
        pg_wf(v),
    ensures
        pg_wf(PgView { typed: v.typed.filter(p), ..v }),
{
    let r = |a: TypedMember<T>, b: TypedMember<T>| !typed_is(a, b.scope, b.group, b.id);
    assert forall|x: int, y: int| 0 <= x < y < v.typed.len() implies #[trigger] r(v.typed[x], v.typed[y]) by {}
    crate::seq_util::lemma_filter_keeps_pairwise(v.typed, p, r);
    let t = v.typed.filter(p);
    assert forall|x: int, y: int| 0 <= x < y < t.len()
        implies !typed_is(#[trigger] t[x], t[y].scope, t[y].group, #[trigger] t[y].id) by {
        assert(r(t[x], t[y]));
    }
}

/// Remove local actor `id` from every group; called when the actor exits.
pub fn remove_actor<T>(store: &mut PgStore<T>, id: ActorId)
    requires
        pg_wf(old(store)@),
    ensures
        pg_wf(final(store)@),
        final(store)@ == removed_actor(old(store)@, id),
{
    let ghost v = store@;
    // The groups the actor belongs to, before it leaves them.
    let mut keys: Vec<(String, String)> = Vec::new();
    let mut keep: Vec<bool> = Vec::new();
    let ghost pid = |m: LocalMember| m.id == id;
    let ghost pnot = |m: LocalMember| m.id != id;
    let mut i: usize = 0;
    proof {
        reveal(Seq::filter);
        assert(v.local.take(0) =~= Seq::<LocalMember>::empty());
    }
    while i < store.local.len()
        invariant
            v == store@,
            pid == (|m: LocalMember| m.id == id),
            pnot == (|m: LocalMember| m.id != id),
            i <= v.local.len(),
            keep@.len() == i,
            forall|k: int| 0 <= k < i ==> #[trigger] keep@[k] == pnot(v.local[k]),
            keys@.len() == actor_groups(v.local.take(i as int), id).len(),
            forall|k: int| 0 <= k < keys@.len() ==> (#[trigger] keys@[k]).0@ == actor_groups(v.local.take(i as int), id)[k].0
                && keys@[k].1@ == actor_groups(v.local.take(i as int), id)[k].1,
        decreases v.local.len() - i,
    {
        proof {
            reveal(Seq::filter);
            assert(v.local.take(i + 1).drop_last() =~= v.local.take(i as int));
            assert(v.local.take(i + 1).last() == v.local[i as int]);
        }
        assert(v.local[i as int] == store.local@[i as int]@);
        let mine = store.local[i].id == id;
        if mine {
            keys.push((store.local[i].scope.clone(), store.local[i].group.clone()));
            proof {
                assert(v.local.take(i + 1).filter(pid) == v.local.take(i as int).filter(pid).push(v.local[i as int]));
                assert(actor_groups(v.local.take(i + 1), id) =~= actor_groups(v.local.take(i as int), id).push((v.local[i as int].scope, v.local[i as int].group)));
            }
        } else {
            proof {
                assert(v.local.take(i + 1).filter(pid) == v.local.take(i as int).filter(pid));
            }
        }
        keep.push(!mine);
        i += 1;
    }
    proof {
        assert(v.local.take(v.local.len() as int) =~= v.local);
    }
    let ghost kv = actor_groups(v.local, id);
    // Leave every group.
    let ghost old_entries = store.local@;
    crate::seq_util::retain_flagged(&mut store.local, &keep);
    proof {
        crate::seq_util::lemma_select_map(old_entries, keep@, |e: LocalEntry| e@);
        assert(old_entries.map_values(|e: LocalEntry| e@) =~= v.local);
        assert(store.local@.map_values(|e: LocalEntry| e@) == select(v.local, keep@));
        crate::seq_util::lemma_select_is_filter(v.local, pnot, keep@);
        assert(store@.local =~= v.local.filter(pnot));
        lemma_filter_wf_local(v, pnot);
    }
    let ghost new_local = store@.local;
    // Drop the typed values of the groups left empty.
    let mut j: usize = 0;
    proof {
        assert(kv.take(0) =~= Seq::<(Seq<char>, Seq<char>)>::empty());
    }
    while j < keys.len()
        invariant
            j <= keys@.len(),
            keys@.len() == kv.len(),
            forall|k: int| 0 <= k < keys@.len() ==> (#[trigger] keys@[k]).0@ == kv[k].0 && keys@[k].1@ == kv[k].1,
            pg_wf(store@),
            store@.local == new_local,
            store@.remote == v.remote,
            store@.typed == drop_emptied(v.typed, kv.take(j as int), new_local, v.remote),
        decreases keys@.len() - j,
    {
        proof {
            assert(kv.take(j + 1).drop_last() =~= kv.take(j as int));
            assert(kv.take(j + 1).last() == kv[j as int]);
        }
        let occupied = store.occupied(&keys[j].0, &keys[j].1);
        if !occupied {
            let anyone = ActorId::from_raw(0);
            proof {
                lemma_typed_after_leave_all(store@.typed, kv[j as int].0, kv[j as int].1, anyone);
            }
            store.drop_typed(&keys[j].0, &keys[j].1, anyone, true);
        }
        j += 1;
    }
    proof {
        assert(kv.take(kv.len() as int) =~= kv);
    }
    // Drop the actor's own typed values.
    let ghost before_typed = store@.typed;
    let ghost before_entries = store.typed@;
    let ghost tnot = |t: TypedMember<T>| t.id != id;
    let mut keep_typed: Vec<bool> = Vec::new();
    let mut t: usize = 0;
    while t < store.typed.len()
        invariant
            before_entries == store.typed@,
            before_typed == store@.typed,
            tnot == (|t: TypedMember<T>| t.id != id),
            t <= before_typed.len(),
            keep_typed@.len() == t,
            forall|k: int| 0 <= k < t ==> #[trigger] keep_typed@[k] == tnot(before_typed[k]),
        decreases before_typed.len() - t,
    {
        assert(before_typed[t as int] == store.typed@[t as int]@);
        keep_typed.push(store.typed[t].id != id);
        t += 1;
    }
    let ghost mid = store@;
    crate::seq_util::retain_flagged(&mut store.typed, &keep_typed);
    proof {
        crate::seq_util::lemma_select_map(before_entries, keep_typed@, |e: TypedEntry<T>| e@);
        assert(before_entries.map_values(|e: TypedEntry<T>| e@) =~= before_typed);
        crate::seq_util::lemma_select_is_filter(before_typed, tnot, keep_typed@);
        assert(store@.typed =~= before_typed.filter(tnot));
        lemma_filter_wf_typed(mid, tnot);
        assert(store@.local == removed_actor(v, id).local);
        assert(store@.typed == removed_actor(v, id).typed);
    }
}

} // verus!
verus! {

/// Membership event received from a remote node.
#[derive(Debug, Clone, PartialEq, Eq)]
pub enum PgEvent {
    Join { scope: String, group: String, address: ActorAddress },
    Leave { scope: String, group: String, address: ActorAddress },
    Snapshot { entries: Vec<PgMemberEntry> },
}

/// How many times remote actor `a` is joined to group `(s, g)`.
pub open spec fn remote_joins<T>(v: PgView<T>, s: Seq<char>, g: Seq<char>, a: AddressView) -> nat {
    let i = first_index(v.remote, remote_pred(s, g, a));
    if i >= 0 { v.remote[i].joins } else { 0 }
}

/// Remote memberships after one more join of `a` to `(s, g)`.
pub open spec fn joined_remote(rs: Seq<RemoteMember>, s: Seq<char>, g: Seq<char>, a: AddressView) -> Seq<RemoteMember> {
    let i = first_index(rs, remote_pred(s, g, a));
    if i >= 0 {
        rs.update(i, RemoteMember { joins: rs[i].joins + 1, ..rs[i] })
    } else {
        rs.push(RemoteMember { scope: s, group: g, address: a, joins: 1 })
    }
}

/// Store after remote actor `a` leaves `(s, g)` once: nothing happens when it
/// is not a member; the group's typed values go once it has no member left.
pub open spec fn left_remote<T>(v: PgView<T>, s: Seq<char>, g: Seq<char>, a: AddressView) -> PgView<T> {
    let i = first_index(v.remote, remote_pred(s, g, a));
    if i < 0 {
        v
    } else {
        let remote = if v.remote[i].joins > 1 {
            v.remote.update(i, RemoteMember { joins: (v.remote[i].joins - 1) as nat, ..v.remote[i] })
        } else {
            v.remote.remove(i)
        };
        PgView {
            local: v.local,
            remote,
            typed: if group_occupied(v.local, remote, s, g) { v.typed } else { typed_without_group(v.typed, s, g) },
        }
    }
}

/// Remote memberships after the joins of a snapshot, in order; entries that
/// name local actors are skipped.
pub open spec fn joined_snapshot(rs: Seq<RemoteMember>, entries: Seq<(Seq<char>, Seq<char>, AddressView)>) -> Seq<RemoteMember>
    decreases entries.len(),
{
    if entries.len() == 0 {
        rs
    } else {
        let before = joined_snapshot(rs, entries.drop_last());
        let (s, g, a) = entries.last();
        if a.node is None { before } else { joined_remote(before, s, g, a) }
    }
}

/// How many times a remote actor is joined to a group, by the key of a
/// snapshot entry.
pub open spec fn key_joins<T>(v: PgView<T>, key: (Seq<char>, Seq<char>, AddressView)) -> nat {
    remote_joins(v, key.0, key.1, key.2)
}

/// How many entries of `es` are `key`.
pub open spec fn key_count(es: Seq<(Seq<char>, Seq<char>, AddressView)>, key: (Seq<char>, Seq<char>, AddressView)) -> nat
    decreases es.len(),
{
    if es.len() == 0 {
        0
    } else {
        key_count(es.drop_last(), key) + if es.last() == key { 1nat } else { 0nat }
    }
}

proof fn lemma_key_count_prefix(es: Seq<(Seq<char>, Seq<char>, AddressView)>, j: int, key: (Seq<char>, Seq<char>, AddressView))
    requires
        0 <= j <= es.len(),
    ensures
        key_count(es.take(j), key) <= key_count(es, key),
    decreases es.len(),
{
    if j < es.len() {
        assert(es.drop_last().take(j) =~= es.take(j));
        lemma_key_count_prefix(es.drop_last(), j, key);
    } else {
        assert(es.take(j) =~= es);
    }
}

proof fn lemma_remote_joins_of_position<T>(v: PgView<T>, s: Seq<char>, g: Seq<char>, a: AddressView, i: int)
    requires
        pg_wf(v),
        0 <= i < v.remote.len(),
        remote_is(v.remote[i], s, g, a),
    ensures
        remote_joins(v, s, g, a) == v.remote[i].joins,
{
    lemma_first_index(v.remote, remote_pred(s, g, a));
    let f = first_index(v.remote, remote_pred(s, g, a));
    if f != i {
        if f < i {
            assert(!remote_is(v.remote[f], v.remote[i].scope, v.remote[i].group, v.remote[i].address));
        } else {
            assert(!remote_is(v.remote[i], v.remote[f].scope, v.remote[f].group, v.remote[f].address));
        }
    }
}

/// A remote join adds one to its own count and changes no other.
proof fn lemma_remote_join_counts<T>(v: PgView<T>, s: Seq<char>, g: Seq<char>, a: AddressView, s2: Seq<char>, g2: Seq<char>, a2: AddressView)
    requires
        pg_wf(v),
        a.node is Some,
        remote_joins(v, s, g, a) < u32::MAX,
    ensures
        remote_joins(PgView { remote: joined_remote(v.remote, s, g, a), ..v }, s2, g2, a2)
            == remote_joins(v, s2, g2, a2) + (if s2 == s && g2 == g && a2 == a { 1nat } else { 0nat }),
{
    lemma_first_index(v.remote, remote_pred(s, g, a));
    lemma_first_index(v.remote, remote_pred(s2, g2, a2));
    let w = PgView { remote: joined_remote(v.remote, s, g, a), ..v };
    let i = first_index(v.remote, remote_pred(s, g, a));
    if i >= 0 {
        lemma_remote_update_wf(v, i, RemoteMember { joins: v.remote[i].joins + 1, ..v.remote[i] });
    } else {
        lemma_remote_push_wf(v, RemoteMember { scope: s, group: g, address: a, joins: 1 });
    }
    let j2 = first_index(v.remote, remote_pred(s2, g2, a2));
    if s2 == s && g2 == g && a2 == a {
        if i >= 0 {
            lemma_remote_joins_of_position(w, s, g, a, i);
        } else {
            lemma_remote_joins_of_position(w, s, g, a, v.remote.len() as int);
        }
    } else if j2 >= 0 {
        lemma_remote_joins_of_position(w, s2, g2, a2, j2);
    } else {
        assert forall|j: int| 0 <= j < w.remote.len() implies !remote_is(#[trigger] w.remote[j], s2, g2, a2) by {
            if j < v.remote.len() {
                assert(!remote_is(v.remote[j], s2, g2, a2));
            }
        }
        lemma_first_index(w.remote, remote_pred(s2, g2, a2));
    }
}

/// Abstract value of a snapshot entry.
pub open spec fn entry_view(e: PgMemberEntry) -> (Seq<char>, Seq<char>, AddressView) {
    (e.scope@, e.group@, e.address@)
}

proof fn lemma_remote_update_wf<T>(v: PgView<T>, i: int, m: RemoteMember)
    requires
        pg_wf(v),
        0 <= i < v.remote.len(),
        m.scope == v.remote[i].scope,
        m.group == v.remote[i].group,
        m.address == v.remote[i].address,
        m.joins > 0,
    ensures
        pg_wf(PgView { remote: v.remote.update(i, m), ..v }),
{
    let r = v.remote.update(i, m);
    assert forall|x: int, y: int| 0 <= x < y < r.len()
        implies !remote_is(#[trigger] r[x], r[y].scope, r[y].group, #[trigger] r[y].address) by {
        assert(!remote_is(v.remote[x], v.remote[y].scope, v.remote[y].group, v.remote[y].address));
    }
    assert forall|x: int| 0 <= x < r.len() implies (#[trigger] r[x]).address.node is Some && r[x].joins > 0 by {
        assert(v.remote[x].address.node is Some);
        assert(v.remote[x].joins > 0);
    }
}

proof fn lemma_remote_push_wf<T>(v: PgView<T>, m: RemoteMember)
    requires
        pg_wf(v),
        forall|j: int| 0 <= j < v.remote.len() ==> !remote_is(#[trigger] v.remote[j], m.scope, m.group, m.address),
        m.address.node is Some,
        m.joins > 0,
    ensures
        pg_wf(PgView { remote: v.remote.push(m), ..v }),
{
    let r = v.remote.push(m);
    assert forall|x: int, y: int| 0 <= x < y < r.len()
        implies !remote_is(#[trigger] r[x], r[y].scope, r[y].group, #[trigger] r[y].address) by {
        if y < v.remote.len() {
            assert(!remote_is(v.remote[x], v.remote[y].scope, v.remote[y].group, v.remote[y].address));
        } else {
            assert(!remote_is(v.remote[x], m.scope, m.group, m.address));
        }
    }
    assert forall|x: int| 0 <= x < r.len() implies (#[trigger] r[x]).address.node is Some && r[x].joins > 0 by {
        if x < v.remote.len() {
            assert(v.remote[x].address.node is Some);
            assert(v.remote[x].joins > 0);
        }
    }
}

proof fn lemma_remote_remove_wf<T>(v: PgView<T>, i: int)
    requires
        pg_wf(v),
        0 <= i < v.remote.len(),
    ensures
        pg_wf(PgView { remote: v.remote.remove(i), ..v }),
{
    let r = v.remote.remove(i);
    assert forall|x: int, y: int| 0 <= x < y < r.len()
        implies !remote_is(#[trigger] r[x], r[y].scope, r[y].group, #[trigger] r[y].address) by {
        let xo = if x < i { x } else { x + 1 };
        let yo = if y < i { y } else { y + 1 };
        assert(r[x] == v.remote[xo]);
        assert(r[y] == v.remote[yo]);
    }
    assert forall|x: int| 0 <= x < r.len() implies (#[trigger] r[x]).address.node is Some && r[x].joins > 0 by {
        let xo = if x < i { x } else { x + 1 };
        assert(r[x] == v.remote[xo]);
        assert(v.remote[xo].address.node is Some);
        assert(v.remote[xo].joins > 0);
    }
}

impl<T> PgStore<T> {
    fn find_remote(&self, scope: &String, group: &String, address: &ActorAddress) -> (r: Option<usize>)
        ensures
            match r {
                Some(i) => i == first_index(self@.remote, remote_pred(scope@, group@, address@)) && i < self@.remote.len(),
                None => first_index(self@.remote, remote_pred(scope@, group@, address@)) == -1,
            },
    {
        let ghost v = self@.remote;
        let ghost p = remote_pred(scope@, group@, address@);
        proof {
            lemma_first_index(v, p);
        }
        let mut i: usize = 0;
        while i < self.remote.len()
            invariant
                v == self@.remote,
                p == remote_pred(scope@, group@, address@),
                i <= v.len(),
                forall|j: int| 0 <= j < i ==> !remote_is(#[trigger] v[j], scope@, group@, address@),
            decreases v.len() - i,
        {
            let e = &self.remote[i];
            assert(v[i as int] == self.remote@[i as int]@);
            if e.address.same_as(address) && e.scope == *scope && e.group == *group {
                assert(is_first(v, p, i as int));
                return Some(i);
            }
            i += 1;
        }
        assert(forall|j: int| 0 <= j < v.len() ==> !p(#[trigger] v[j]));
        None
    }

    /// Count one more join of remote actor `address` to `(scope, group)`.
    fn join_remote(&mut self, scope: &String, group: &String, address: &ActorAddress)
        requires
            pg_wf(old(self)@),
            address@.node is Some,
            remote_joins(old(self)@, scope@, group@, address@) < u32::MAX,
        ensures
            pg_wf(final(self)@),
            final(self)@ == (PgView { remote: joined_remote(old(self)@.remote, scope@, group@, address@), ..old(self)@ }),
    {
        let ghost old_remote = self@.remote;
        match self.find_remote(scope, group, address) {
            Some(i) => {
                let joins = self.remote[i].joins;
                assert(old_remote[i as int] == self.remote@[i as int]@);
                self.remote[i].joins = joins + 1;
                proof {
                    assert(self@.remote =~= old_remote.update(i as int, RemoteMember { joins: old_remote[i as int].joins + 1, ..old_remote[i as int] }));
                    lemma_remote_update_wf(old(self)@, i as int, RemoteMember { joins: old_remote[i as int].joins + 1, ..old_remote[i as int] });
                }
            },
            None => {
                proof {
                    lemma_first_index(old_remote, remote_pred(scope@, group@, address@));
                }
                self.remote.push(RemoteEntry { scope: scope.clone(), group: group.clone(), address: address.duplicate(), joins: 1 });
                proof {
                    assert(self@.remote =~= old_remote.push(RemoteMember { scope: scope@, group: group@, address: address@, joins: 1 }));
                    lemma_remote_push_wf(old(self)@, RemoteMember { scope: scope@, group: group@, address: address@, joins: 1 });
                }
            },
        }
    }

    /// Count one leave of remote actor `address` from `(scope, group)`.
    fn leave_remote(&mut self, scope: &String, group: &String, address: &ActorAddress)
        requires
            pg_wf(old(self)@),
        ensures
            pg_wf(final(self)@),
            final(self)@ == left_remote(old(self)@, scope@, group@, address@),
    {
        let ghost v = self@;
        match self.find_remote(scope, group, address) {
            None => {},
            Some(i) => {
                let joins = self.remote[i].joins;
                assert(v.remote[i as int] == self.remote@[i as int]@);
                if joins > 1 {
                    self.remote[i].joins = joins - 1;
                    proof {
                        assert(self@.remote =~= v.remote.update(i as int, RemoteMember { joins: (v.remote[i as int].joins - 1) as nat, ..v.remote[i as int] }));
                        lemma_remote_update_wf(v, i as int, RemoteMember { joins: (v.remote[i as int].joins - 1) as nat, ..v.remote[i as int] });
                    }
                } else {
                    self.remote.remove(i);
                    proof {
                        assert(self@.remote =~= v.remote.remove(i as int));
                        lemma_remote_remove_wf(v, i as int);
                    }
                }
                let occupied = self.occupied(scope, group);
                if !occupied {
                    let anyone = ActorId::from_raw(0);
                    proof {
                        lemma_typed_after_leave_all(self@.typed, scope@, group@, anyone);
                    }
                    self.drop_typed(scope, group, anyone, true);
                }
            },
        }
    }
}

/// Apply a membership event received from a remote node. Events about
/// actors of this node are ignored: this node owns their membership.
pub fn apply_remote_pg_event<T>(store: &mut PgStore<T>, event: PgEvent)
    requires
        pg_wf(old(store)@),
        event matches PgEvent::Join { scope, group, address }
            ==> remote_joins(old(store)@, scope@, group@, address@) < u32::MAX,
        event matches PgEvent::Snapshot { entries } ==> {
            let ev = entries@.map_values(|e: PgMemberEntry| entry_view(e));
            forall|k: int| 0 <= k < ev.len() && ev[k].2.node is Some
                ==> key_joins(old(store)@, ev[k]) + #[trigger] key_count(ev, ev[k]) <= u32::MAX
        },
    ensures
        pg_wf(final(store)@),
        final(store)@ == match event {
            PgEvent::Join { scope, group, address } => if address@.node is None {
                old(store)@
            } else {
                PgView { remote: joined_remote(old(store)@.remote, scope@, group@, address@), ..old(store)@ }
            },
            PgEvent::Leave { scope, group, address } => if address@.node is None {
                old(store)@
            } else {
                left_remote(old(store)@, scope@, group@, address@)
            },
            PgEvent::Snapshot { entries } => PgView {
                remote: joined_snapshot(old(store)@.remote, entries@.map_values(|e: PgMemberEntry| entry_view(e))),
                ..old(store)@
            },
        },
{
    match event {
        PgEvent::Join { scope, group, address } => {
            if !address.is_local() {
                store.join_remote(&scope, &group, &address);
            }
        },
        PgEvent::Leave { scope, group, address } => {
            if !address.is_local() {
                store.leave_remote(&scope, &group, &address);
            }
        },
        PgEvent::Snapshot { entries } => {
            let ghost ev = entries@.map_values(|e: PgMemberEntry| entry_view(e));
            let ghost v = store@;
            let n = entries.len();
            let mut j: usize = 0;
            proof {
                assert(ev.take(0) =~= Seq::<(Seq<char>, Seq<char>, AddressView)>::empty());
            }
            while j < n
                invariant
                    n == entries@.len(),
                    ev == entries@.map_values(|e: PgMemberEntry| entry_view(e)),
                    j <= n,
                    pg_wf(v),
                    pg_wf(store@),
                    store@ == (PgView { remote: joined_snapshot(v.remote, ev.take(j as int)), ..v }),
                    forall|k: int| 0 <= k < ev.len() && ev[k].2.node is Some
                        ==> key_joins(v, ev[k]) + #[trigger] key_count(ev, ev[k]) <= u32::MAX,
                    forall|k: int| 0 <= k < ev.len() && ev[k].2.node is Some
                        ==> #[trigger] key_joins(store@, ev[k]) == key_joins(v, ev[k]) + key_count(ev.take(j as int), ev[k]),
                decreases n - j,
            {
                proof {
                    assert(ev.take(j + 1).drop_last() =~= ev.take(j as int));
                    assert(ev.take(j + 1).last() == ev[j as int]);
                }
                let e = &entries[j];
                let ghost before = store@;
                let ghost key = ev[j as int];
                assert(key == (e.scope@, e.group@, e.address@));
                if !e.address.is_local() {
                    proof {
                        lemma_key_count_prefix(ev, j + 1, key);
                        assert(key_joins(before, key) == key_joins(v, key) + key_count(ev.take(j as int), key));
                        assert(key_count(ev, key) >= key_count(ev.take(j + 1), key));
                        assert(key_joins(v, key) + key_count(ev, key) <= u32::MAX);
                    }
                    store.join_remote(&e.scope, &e.group, &e.address);
                    proof {
                        assert forall|k: int| 0 <= k < ev.len() && ev[k].2.node is Some
                            implies #[trigger] key_joins(store@, ev[k]) == key_joins(v, ev[k]) + key_count(ev.take(j + 1), ev[k]) by {
                            lemma_remote_join_counts(before, key.0, key.1, key.2, ev[k].0, ev[k].1, ev[k].2);
                            assert(key_joins(before, ev[k]) == key_joins(v, ev[k]) + key_count(ev.take(j as int), ev[k]));
                        }
                    }
                } else {
                    proof {
                        assert forall|k: int| 0 <= k < ev.len() && ev[k].2.node is Some
                            implies #[trigger] key_joins(store@, ev[k]) == key_joins(v, ev[k]) + key_count(ev.take(j + 1), ev[k]) by {
                            assert(key_joins(before, ev[k]) == key_joins(v, ev[k]) + key_count(ev.take(j as int), ev[k]));
                            assert(ev[k] != key);
                        }
                    }
                }
                j += 1;
            }
            proof {
                assert(ev.take(n as int) =~= ev);
            }
        },
    }
}

} // verus!
verus! {

/// Addresses of the remote members of group `(s, g)`, in order.
pub open spec fn remote_group_addresses(rs: Seq<RemoteMember>, s: Seq<char>, g: Seq<char>) -> Seq<AddressView> {
    rs.filter(|m: RemoteMember| m.scope == s && m.group == g).map_values(|m: RemoteMember| m.address)
}

/// Address of local actor `id`.
pub open spec fn local_address_view(id: ActorId) -> AddressView {
    AddressView { node: None, actor: id@ }
}

/// Abstract values of addresses.
pub open spec fn address_views(a: Seq<ActorAddress>) -> Seq<AddressView> {
    a.map_values(|x: ActorAddress| x@)
}

/// All member addresses of `group` in `scope`: live local members (dead ones
/// are dropped first, each member checked once with `is_alive`) followed by
/// the federated remote members. A group left with no member loses its
/// typed values.
pub fn member_addresses_scoped<T, F: Fn(ActorId) -> bool>(store: &mut PgStore<T>, scope: &str, group: &str, is_alive: &F) -> (r: Vec<ActorAddress>)
    requires
        pg_wf(old(store)@),
        forall|a: ActorId| is_alive.requires((a,)),
    ensures
        pg_wf(final(store)@),
        exists|alive: Seq<bool>| {
            &&& alive.len() == old(store)@.local.len()
            &&& forall|p: int| 0 <= p < alive.len() && in_group(old(store)@.local[p], scope@, group@)
                ==> call_ensures(is_alive, (old(store)@.local[p].id,), #[trigger] alive[p])
            &&& final(store)@.local == survivors(old(store)@.local, scope@, group@, alive)
        },
        final(store)@.remote == old(store)@.remote,
        final(store)@.typed == if group_occupied(final(store)@.local, old(store)@.remote, scope@, group@) {
            old(store)@.typed
        } else {
            typed_without_group(old(store)@.typed, scope@, group@)
        },
        address_views(r@) == group_members(final(store)@.local, scope@, group@).map_values(|id: ActorId| local_address_view(id))
            + remote_group_addresses(old(store)@.remote, scope@, group@),
{
    let scope = scope.to_owned();
    let group = group.to_owned();
    let ghost v = store@;
    let ids = store.prune_local(&scope, &group, is_alive);
    let mut out: Vec<ActorAddress> = Vec::new();
    let mut i: usize = 0;
    while i < ids.len()
        invariant
            i <= ids@.len(),
            address_views(out@) == ids@.take(i as int).map_values(|id: ActorId| local_address_view(id)),
        decreases ids@.len() - i,
    {
        let ghost old_out = out@;
        let a = ActorAddress::local(ids[i]);
        out.push(a);
        proof {
            assert(a@ == local_address_view(ids@[i as int]));
            assert(address_views(out@) =~= address_views(old_out).push(a@));
            assert(ids@.take(i + 1) =~= ids@.take(i as int).push(ids@[i as int]));
            assert(address_views(out@) =~= ids@.take(i + 1).map_values(|id: ActorId| local_address_view(id)));
        }
        i += 1;
    }
    proof {
        assert(ids@.take(ids@.len() as int) =~= ids@);
    }
    let ghost local_part = address_views(out@);
    let ghost rp = |m: RemoteMember| m.scope == scope@ && m.group == group@;
    let mut k: usize = 0;
    proof {
        reveal(Seq::filter);
        assert(v.remote.take(0) =~= Seq::<RemoteMember>::empty());
        assert(address_views(out@) =~= local_part + remote_group_addresses(v.remote.take(0), scope@, group@));
    }
    while k < store.remote.len()
        invariant
            store@.remote == v.remote,
            rp == (|m: RemoteMember| m.scope == scope@ && m.group == group@),
            k <= v.remote.len(),
            address_views(out@) == local_part + remote_group_addresses(v.remote.take(k as int), scope@, group@),
        decreases v.remote.len() - k,
    {
        proof {
            reveal(Seq::filter);
            assert(v.remote.take(k + 1).drop_last() =~= v.remote.take(k as int));
            assert(v.remote.take(k + 1).last() == v.remote[k as int]);
        }
        assert(v.remote[k as int] == store.remote@[k as int]@);
        if store.remote[k].scope == scope && store.remote[k].group == group {
            let ghost old_out = out@;
            let a = store.remote[k].address.duplicate();
            out.push(a);
            proof {
                assert(address_views(out@) =~= address_views(old_out).push(a@));
                assert(remote_group_addresses(v.remote.take(k + 1), scope@, group@) =~= remote_group_addresses(v.remote.take(k as int), scope@, group@).push(v.remote[k as int].address)) by {
                    assert(v.remote.take(k + 1).filter(rp) == v.remote.take(k as int).filter(rp).push(v.remote[k as int]));
                }
                assert(v.remote.take(k + 1).filter(rp) == v.remote.take(k as int).filter(rp).push(v.remote[k as int]));
                assert(address_views(out@) =~= local_part + remote_group_addresses(v.remote.take(k + 1), scope@, group@));
            }
        } else {
            proof {
                assert(v.remote.take(k + 1).filter(rp) == v.remote.take(k as int).filter(rp));
            }
        }
        k += 1;
    }
    proof {
        assert(v.remote.take(v.remote.len() as int) =~= v.remote);
    }
    let occupied = store.occupied(&scope, &group);
    if !occupied {
        let anyone = ActorId::from_raw(0);
        proof {
            lemma_typed_after_leave_all(store@.typed, scope@, group@, anyone);
        }
        store.drop_typed(&scope, &group, anyone, true);
    }
    out
}

/// All member addresses of `group` in the default scope.
pub fn member_addresses<T, F: Fn(ActorId) -> bool>(store: &mut PgStore<T>, group: &str, is_alive: &F) -> (r: Vec<ActorAddress>)
    requires
        pg_wf(old(store)@),
        forall|a: ActorId| is_alive.requires((a,)),
    ensures
        pg_wf(final(store)@),
        exists|alive: Seq<bool>| {
            &&& alive.len() == old(store)@.local.len()
            &&& forall|p: int| 0 <= p < alive.len() && in_group(old(store)@.local[p], default_scope(), group@)
                ==> call_ensures(is_alive, (old(store)@.local[p].id,), #[trigger] alive[p])
            &&& final(store)@.local == survivors(old(store)@.local, default_scope(), group@, alive)
        },
        final(store)@.remote == old(store)@.remote,
        final(store)@.typed == if group_occupied(final(store)@.local, old(store)@.remote, default_scope(), group@) {
            old(store)@.typed
        } else {
            typed_without_group(old(store)@.typed, default_scope(), group@)
        },
        address_views(r@) == group_members(final(store)@.local, default_scope(), group@).map_values(|id: ActorId| local_address_view(id))
            + remote_group_addresses(old(store)@.remote, default_scope(), group@),
{
    let scope = default_scope_name();
    member_addresses_scoped(store, scope.as_str(), group, is_alive)
}

} // verus!
verus! {

// ---------------------------------------------------------------------------
// Laws
// ---------------------------------------------------------------------------

/// The store after local actor `id` joins `(s, g)` once.
pub open spec fn joined<T>(v: PgView<T>, s: Seq<char>, g: Seq<char>, id: ActorId) -> PgView<T> {
    PgView { local: joined_local(v.local, s, g, id), ..v }
}

proof fn lemma_joins_of_position<T>(v: PgView<T>, s: Seq<char>, g: Seq<char>, id: ActorId, i: int)
    requires
        pg_wf(v),
        0 <= i < v.local.len(),
        local_is(v.local[i], s, g, id),
    ensures
        local_joins(v, s, g, id) == v.local[i].joins,
{
    lemma_first_index(v.local, local_pred(s, g, id));
    let f = first_index(v.local, local_pred(s, g, id));
    if f != i {
        if f < i {
            assert(!local_is(v.local[f], v.local[i].scope, v.local[i].group, v.local[i].id));
        } else {
            assert(!local_is(v.local[i], v.local[f].scope, v.local[f].group, v.local[f].id));
        }
    }
}

proof fn lemma_joins_absent<T>(v: PgView<T>, s: Seq<char>, g: Seq<char>, id: ActorId)
    requires
        forall|j: int| 0 <= j < v.local.len() ==> !local_is(#[trigger] v.local[j], s, g, id),
    ensures
        local_joins(v, s, g, id) == 0,
{
    lemma_first_index(v.local, local_pred(s, g, id));
}

/// Joins are counted per actor, group and scope: a join adds one to its own
/// count and changes no other, in particular none of another scope.
pub proof fn lemma_join_counts<T>(v: PgView<T>, s: Seq<char>, g: Seq<char>, id: ActorId, s2: Seq<char>, g2: Seq<char>, id2: ActorId)
    requires
        pg_wf(v),
        local_joins(v, s, g, id) < u32::MAX,
    ensures
        pg_wf(joined(v, s, g, id)),
        local_joins(joined(v, s, g, id), s2, g2, id2)
            == local_joins(v, s2, g2, id2) + (if s2 == s && g2 == g && id2 == id { 1nat } else { 0nat }),
{
    lemma_first_index(v.local, local_pred(s, g, id));
    lemma_first_index(v.local, local_pred(s2, g2, id2));
    let w = joined(v, s, g, id);
    let i = first_index(v.local, local_pred(s, g, id));
    if i >= 0 {
        lemma_local_update_wf(v, i, LocalMember { joins: v.local[i].joins + 1, ..v.local[i] });
    } else {
        let l = w.local;
        assert forall|x: int, y: int| 0 <= x < y < l.len()
            implies !local_is(#[trigger] l[x], l[y].scope, l[y].group, #[trigger] l[y].id) by {
            if y < v.local.len() {
                assert(!local_is(v.local[x], v.local[y].scope, v.local[y].group, v.local[y].id));
            } else {
                assert(!local_is(v.local[x], s, g, id));
            }
        }
        assert forall|x: int| 0 <= x < l.len() implies #[trigger] l[x].joins > 0 by {
            if x < v.local.len() {
                assert(v.local[x].joins > 0);
            }
        }
    }
    let j2 = first_index(v.local, local_pred(s2, g2, id2));
    if s2 == s && g2 == g && id2 == id {
        if i >= 0 {
            lemma_joins_of_position(w, s, g, id, i);
        } else {
            lemma_joins_of_position(w, s, g, id, v.local.len() as int);
        }
    } else if j2 >= 0 {
        lemma_joins_of_position(w, s2, g2, id2, j2);
    } else {
        assert forall|j: int| 0 <= j < w.local.len() implies !local_is(#[trigger] w.local[j], s2, g2, id2) by {
            if j < v.local.len() {
                assert(!local_is(v.local[j], s2, g2, id2));
            }
        }
        lemma_joins_absent(w, s2, g2, id2);
    }
}

/// A leave undoes the membership change of the join before it: the local
/// memberships are as they were, and the leave succeeds.
pub proof fn lemma_leave_undoes_join<T>(v: PgView<T>, s: Seq<char>, g: Seq<char>, id: ActorId)
    requires
        pg_wf(v),
        local_joins(v, s, g, id) < u32::MAX,
    ensures
        left(joined(v, s, g, id), s, g, id).1,
        left(joined(v, s, g, id), s, g, id).0.local == v.local,
        left(joined(v, s, g, id), s, g, id).0.remote == v.remote,
{
    lemma_join_counts(v, s, g, id, s, g, id);
    let w = joined(v, s, g, id);
    lemma_first_index(v.local, local_pred(s, g, id));
    lemma_first_index(w.local, local_pred(s, g, id));
    let i = first_index(v.local, local_pred(s, g, id));
    if i >= 0 {
        lemma_joins_of_position(w, s, g, id, i);
        assert(is_first(w.local, local_pred(s, g, id), i));
        assert(left(w, s, g, id).0.local =~= v.local);
    } else {
        let n = v.local.len() as int;
        assert forall|j: int| 0 <= j < n implies !local_is(#[trigger] w.local[j], s, g, id) by {
            assert(w.local[j] == v.local[j]);
        }
        assert(is_first(w.local, local_pred(s, g, id), n));
        assert(left(w, s, g, id).0.local =~= v.local);
    }
}

/// Leaving a group one is not a member of fails and changes nothing; a
/// member's leave succeeds and takes one from its count.
pub proof fn lemma_leave_counts<T>(v: PgView<T>, s: Seq<char>, g: Seq<char>, id: ActorId)
    requires
        pg_wf(v),
    ensures
        pg_wf(left(v, s, g, id).0),
        local_joins(v, s, g, id) == 0 ==> !left(v, s, g, id).1 && left(v, s, g, id).0 == v,
        local_joins(v, s, g, id) > 0 ==> left(v, s, g, id).1
            && local_joins(left(v, s, g, id).0, s, g, id) == local_joins(v, s, g, id) - 1,
{
    lemma_first_index(v.local, local_pred(s, g, id));
    let i = first_index(v.local, local_pred(s, g, id));
    if i >= 0 {
        let w = left(v, s, g, id).0;
        if v.local[i].joins > 1 {
            lemma_local_update_wf(v, i, LocalMember { joins: (v.local[i].joins - 1) as nat, ..v.local[i] });
            lemma_joins_of_position(PgView { local: w.local, ..v }, s, g, id, i);
        } else {
            lemma_local_remove_wf(v, i);
            let removed = PgView { local: v.local.remove(i), ..v };
            let empty = !group_occupied(v.local.remove(i), v.remote, s, g);
            lemma_filter_wf_typed(removed, |t: TypedMember<T>| !(t.scope == s && t.group == g && (t.id == id || empty)));
            assert(w == PgView { typed: removed.typed.filter(|t: TypedMember<T>| !(t.scope == s && t.group == g && (t.id == id || empty))), ..removed });
            assert forall|j: int| 0 <= j < w.local.len() implies !local_is(#[trigger] w.local[j], s, g, id) by {
                if j < i {
                    assert(w.local[j] == v.local[j]);
                    assert(!local_is(v.local[j], s, g, id));
                } else {
                    assert(w.local[j] == v.local[j + 1]);
                    assert(!local_is(v.local[i], v.local[j + 1].scope, v.local[j + 1].group, v.local[j + 1].id));
                }
            }
            lemma_joins_absent(w, s, g, id);
        }
    }
}

/// The store after `n` leaves of local actor `id` from `(s, g)`.
pub open spec fn left_times<T>(v: PgView<T>, s: Seq<char>, g: Seq<char>, id: ActorId, n: nat) -> PgView<T>
    decreases n,
{
    if n == 0 {
        v
    } else {
        left(left_times(v, s, g, id, (n - 1) as nat), s, g, id).0
    }
}

proof fn lemma_leaves_count_down<T>(v: PgView<T>, s: Seq<char>, g: Seq<char>, id: ActorId, n: nat)
    requires
        pg_wf(v),
        n <= local_joins(v, s, g, id),
    ensures
        pg_wf(left_times(v, s, g, id, n)),
        local_joins(left_times(v, s, g, id, n), s, g, id) == local_joins(v, s, g, id) - n,
    decreases n,
{
    if n > 0 {
        lemma_leaves_count_down(v, s, g, id, (n - 1) as nat);
        lemma_leave_counts(left_times(v, s, g, id, (n - 1) as nat), s, g, id);
    }
}

/// Memberships in which no actor occurs twice for one group.
pub open spec fn local_keys_distinct(ls: Seq<LocalMember>) -> bool {
    forall|i: int, j: int| 0 <= i < j < ls.len()
        ==> !local_is(#[trigger] ls[i], ls[j].scope, ls[j].group, #[trigger] ls[j].id)
}

proof fn lemma_group_members_distinct(ls: Seq<LocalMember>, s: Seq<char>, g: Seq<char>)
    requires
        local_keys_distinct(ls),
    ensures
        forall|a: int, b: int| 0 <= a < b < group_members(ls, s, g).len()
            ==> #[trigger] group_members(ls, s, g)[a] != #[trigger] group_members(ls, s, g)[b],
        forall|a: int| 0 <= a < group_members(ls, s, g).len() ==> exists|k: int|
            0 <= k < ls.len() && in_group(#[trigger] ls[k], s, g) && ls[k].id == #[trigger] group_members(ls, s, g)[a],
        forall|k: int| 0 <= k < ls.len() && in_group(#[trigger] ls[k], s, g)
            ==> group_members(ls, s, g).contains(ls[k].id),
    decreases ls.len(),
{
    if ls.len() == 0 {
        reveal(Seq::filter);
    } else {
        let d = ls.drop_last();
        let m = ls.last();
        assert(d.push(m) =~= ls);
        assert(local_keys_distinct(d)) by {
            assert forall|i: int, j: int| 0 <= i < j < d.len()
                implies !local_is(#[trigger] d[i], d[j].scope, d[j].group, #[trigger] d[j].id) by {
                assert(d[i] == ls[i] && d[j] == ls[j]);
            }
        }
        lemma_group_members_distinct(d, s, g);
        lemma_group_members_push(d, s, g, m);
        let gd = group_members(d, s, g);
        let gl = group_members(ls, s, g);
        if in_group(m, s, g) {
            assert forall|a: int| 0 <= a < gd.len() implies gd[a] != m.id by {
                let k = choose|k: int| 0 <= k < d.len() && in_group(#[trigger] d[k], s, g) && d[k].id == gd[a];
                assert(ls[k] == d[k]);
                assert(ls[ls.len() - 1] == m);
                if gd[a] == m.id {
                    assert(local_is(ls[k], ls[ls.len() - 1].scope, ls[ls.len() - 1].group, ls[ls.len() - 1].id));
                }
            }
            assert forall|a: int, b: int| 0 <= a < b < gl.len() implies #[trigger] gl[a] != #[trigger] gl[b] by {
                if b == gd.len() {
                    assert(gl[a] == gd[a]);
                } else {
                    assert(gl[a] == gd[a] && gl[b] == gd[b]);
                }
            }
            assert forall|a: int| 0 <= a < gl.len() implies exists|k: int|
                0 <= k < ls.len() && in_group(#[trigger] ls[k], s, g) && ls[k].id == #[trigger] gl[a] by {
                if a == gd.len() {
                    assert(ls[ls.len() - 1] == m);
                    assert(gl[a] == m.id);
                    assert(in_group(ls[ls.len() - 1], s, g) && ls[ls.len() - 1].id == gl[a]);
                } else {
                    assert(gl[a] == gd[a]);
                    let k = choose|k: int| 0 <= k < d.len() && in_group(#[trigger] d[k], s, g) && d[k].id == gd[a];
                    assert(ls[k] == d[k]);
                }
            }
            assert forall|k: int| 0 <= k < ls.len() && in_group(#[trigger] ls[k], s, g) implies gl.contains(ls[k].id) by {
                if k == ls.len() - 1 {
                    assert(gl[gd.len() as int] == m.id);
                } else {
                    assert(ls[k] == d[k]);
                    let a = choose|a: int| 0 <= a < gd.len() && gd[a] == d[k].id;
                    assert(gl[a] == gd[a]);
                }
            }
        } else {
            assert forall|a: int| 0 <= a < gl.len() implies exists|k: int|
                0 <= k < ls.len() && in_group(#[trigger] ls[k], s, g) && ls[k].id == #[trigger] gl[a] by {
                assert(gl[a] == gd[a]);
                let k = choose|k: int| 0 <= k < d.len() && in_group(#[trigger] d[k], s, g) && d[k].id == gd[a];
                assert(ls[k] == d[k]);
            }
            assert forall|k: int| 0 <= k < ls.len() && in_group(#[trigger] ls[k], s, g) implies gl.contains(ls[k].id) by {
                assert(k != ls.len() - 1);
                assert(ls[k] == d[k]);
            }
        }
    }
}

/// Joins are counted: after a join of an actor that had `c` outstanding joins
/// of a group, exactly `c + 1` leaves succeed, one after the other, and the
/// next one fails; the group is listed in its scope after the join, and its
/// members list the actor exactly once.
pub proof fn lemma_join_then_leaves<T>(v: PgView<T>, s: Seq<char>, g: Seq<char>, id: ActorId)
    requires
        pg_wf(v),
        local_joins(v, s, g, id) < u32::MAX,
    ensures
        groups_in_scope(joined(v, s, g, id).local, s).contains(g),
        group_members(joined(v, s, g, id).local, s, g).contains(id),
        forall|a: int, b: int| 0 <= a < b < group_members(joined(v, s, g, id).local, s, g).len()
            ==> #[trigger] group_members(joined(v, s, g, id).local, s, g)[a]
                != #[trigger] group_members(joined(v, s, g, id).local, s, g)[b],
        local_joins(joined(v, s, g, id), s, g, id) == local_joins(v, s, g, id) + 1,
        forall|n: nat| n <= local_joins(v, s, g, id) ==> #[trigger] left(left_times(joined(v, s, g, id), s, g, id, n), s, g, id).1,
        !left(left_times(joined(v, s, g, id), s, g, id, (local_joins(v, s, g, id) + 1) as nat), s, g, id).1,
{
    let c = local_joins(v, s, g, id);
    let w = joined(v, s, g, id);
    lemma_join_counts(v, s, g, id, s, g, id);
    lemma_join_lists_group(v.local, s, g, id);
    lemma_group_members_distinct(w.local, s, g);
    lemma_first_index(v.local, local_pred(s, g, id));
    let i = first_index(v.local, local_pred(s, g, id));
    let k = if i >= 0 { i } else { v.local.len() as int };
    assert(in_group(w.local[k], s, g) && w.local[k].id == id);
    assert forall|n: nat| n <= c implies #[trigger] left(left_times(w, s, g, id, n), s, g, id).1 by {
        lemma_leaves_count_down(w, s, g, id, n);
        lemma_leave_counts(left_times(w, s, g, id, n), s, g, id);
    }
    lemma_leaves_count_down(w, s, g, id, (c + 1) as nat);
    lemma_leave_counts(left_times(w, s, g, id, (c + 1) as nat), s, g, id);
}

/// After an actor exits it belongs to no group and has no typed value.
pub proof fn lemma_removed_actor_is_gone<T>(v: PgView<T>, id: ActorId, s: Seq<char>, g: Seq<char>)
    ensures
        local_joins(removed_actor(v, id), s, g, id) == 0,
        forall|k: int| 0 <= k < removed_actor(v, id).typed.len() ==> (#[trigger] removed_actor(v, id).typed[k]).id != id,
{
    let w = removed_actor(v, id);
    let p = |m: LocalMember| m.id != id;
    assert forall|j: int| 0 <= j < w.local.len() implies !local_is(#[trigger] w.local[j], s, g, id) by {
        crate::seq_util::lemma_filter_elements(v.local, p, j);
    }
    lemma_joins_absent(w, s, g, id);
    let tp = |t: TypedMember<T>| t.id != id;
    let base = drop_emptied(v.typed, actor_groups(v.local, id), w.local, v.remote);
    assert forall|k: int| 0 <= k < w.typed.len() implies (#[trigger] w.typed[k]).id != id by {
        crate::seq_util::lemma_filter_elements(base, tp, k);
    }
}

/// Non-existent groups are empty: a group no local actor has joined has no
/// local members and is not listed.
pub proof fn lemma_unjoined_group_is_empty(ls: Seq<LocalMember>, s: Seq<char>, g: Seq<char>)
    requires
        forall|k: int| 0 <= k < ls.len() ==> !in_group(#[trigger] ls[k], s, g),
    ensures
        group_members(ls, s, g).len() == 0,
        !groups_in_scope(ls, s).contains(g),
{
    let p = |m: LocalMember| in_group(m, s, g);
    if ls.filter(p).len() > 0 {
        crate::seq_util::lemma_filter_elements(ls, p, 0);
        let m = ls.filter(p)[0];
        assert(p(m));
        assert(exists|k: int| 0 <= k < ls.len() && ls[k] == m);
    }
    assert forall|k: int| 0 <= k < ls.len() implies !((#[trigger] ls[k]).scope == s && ls[k].group == g) by {
        assert(!in_group(ls[k], s, g));
    }
}

/// Groups are created on first join: after a join, the group is listed in
/// its scope.
pub proof fn lemma_join_lists_group(ls: Seq<LocalMember>, s: Seq<char>, g: Seq<char>, id: ActorId)
    ensures
        groups_in_scope(joined_local(ls, s, g, id), s).contains(g),
{
    lemma_first_index(ls, local_pred(s, g, id));
    let i = first_index(ls, local_pred(s, g, id));
    let out = joined_local(ls, s, g, id);
    if i >= 0 {
        assert(out[i].scope == s && out[i].group == g);
    } else {
        assert(out[ls.len() as int].scope == s && out[ls.len() as int].group == g);
    }
}

/// Groups are removed when empty: when the last local member of a group
/// leaves it for the last time, the group is no longer listed in its scope.
pub proof fn lemma_last_leave_unlists_group<T>(v: PgView<T>, s: Seq<char>, g: Seq<char>, id: ActorId)
    requires
        pg_wf(v),
        local_joins(v, s, g, id) == 1,
        forall|k: int| 0 <= k < v.local.len() && in_group(#[trigger] v.local[k], s, g) ==> v.local[k].id == id,
    ensures
        !groups_in_scope(left(v, s, g, id).0.local, s).contains(g),
{
    lemma_first_index(v.local, local_pred(s, g, id));
    let i = first_index(v.local, local_pred(s, g, id));
    let out = left(v, s, g, id).0.local;
    assert(out == v.local.remove(i));
    assert forall|k: int| 0 <= k < out.len() implies !((#[trigger] out[k]).scope == s && out[k].group == g) by {
        let j = if k < i { k } else { k + 1 };
        assert(out[k] == v.local[j]);
        if v.local[j].scope == s && v.local[j].group == g {
            assert(in_group(v.local[j], s, g));
            assert(v.local[j].id == id);
            if j < i {
                assert(!local_is(v.local[j], v.local[i].scope, v.local[i].group, v.local[i].id));
            } else {
                assert(!local_is(v.local[i], v.local[j].scope, v.local[j].group, v.local[j].id));
            }
        }
    }
}

} // verus!
verus! {

/// Actor ids and copies of the typed values registered in `group` of
/// `scope`, in registration order.
pub fn typed_group_entries<T: Clone>(store: &PgStore<T>, scope: &str, group: &str) -> (r: Vec<(ActorId, T)>)
    ensures
        r@.len() == typed_group(store@.typed, scope@, group@).len(),
        forall|k: int| 0 <= k < r@.len() ==> (#[trigger] r@[k]).0 == typed_group(store@.typed, scope@, group@)[k].id
            && cloned(typed_group(store@.typed, scope@, group@)[k].value, r@[k].1),
{
    let scope = scope.to_owned();
    let group = group.to_owned();
    let ghost v = store@.typed;
    let ghost p = |t: TypedMember<T>| t.scope == scope@ && t.group == group@;
    let mut out: Vec<(ActorId, T)> = Vec::new();
    let mut i: usize = 0;
    proof {
        reveal(Seq::filter);
        assert(v.take(0) =~= Seq::<TypedMember<T>>::empty());
    }
    while i < store.typed.len()
        invariant
            v == store@.typed,
            p == (|t: TypedMember<T>| t.scope == scope@ && t.group == group@),
            i <= v.len(),
            out@.len() == v.take(i as int).filter(p).len(),
            forall|k: int| 0 <= k < out@.len() ==> (#[trigger] out@[k]).0 == v.take(i as int).filter(p)[k].id
                && cloned(v.take(i as int).filter(p)[k].value, out@[k].1),
        decreases v.len() - i,
    {
        proof {
            reveal(Seq::filter);
            assert(v.take(i + 1).drop_last() =~= v.take(i as int));
            assert(v.take(i + 1).last() == v[i as int]);
        }
        assert(v[i as int] == store.typed@[i as int]@);
        if store.typed[i].scope == scope && store.typed[i].group == group {
            let c = store.typed[i].value.clone();
            out.push((store.typed[i].id, c));
            proof {
                assert(v.take(i + 1).filter(p) == v.take(i as int).filter(p).push(v[i as int]));
            }
        } else {
            proof {
                assert(v.take(i + 1).filter(p) == v.take(i as int).filter(p));
            }
        }
        i += 1;
    }
    proof {
        assert(v.take(v.len() as int) =~= v);
    }
    out
}

/// A remote leave undoes one remote join: the count of joins of `a` to
/// `(s, g)` drops by one when it was positive and stays zero otherwise;
/// other memberships keep their counts.
pub proof fn lemma_remote_leave_counts<T>(v: PgView<T>, s: Seq<char>, g: Seq<char>, a: AddressView, s2: Seq<char>, g2: Seq<char>, a2: AddressView)
    requires
        pg_wf(v),
    ensures
        pg_wf(PgView { remote: left_remote(v, s, g, a).remote, ..v }),
        remote_joins(left_remote(v, s, g, a), s, g, a)
            == if remote_joins(v, s, g, a) > 0 { (remote_joins(v, s, g, a) - 1) as nat } else { 0nat },
        !(s2 == s && g2 == g && a2 == a) ==> remote_joins(left_remote(v, s, g, a), s2, g2, a2) == remote_joins(v, s2, g2, a2),
{
    lemma_first_index(v.remote, remote_pred(s, g, a));
    lemma_first_index(v.remote, remote_pred(s2, g2, a2));
    let i = first_index(v.remote, remote_pred(s, g, a));
    let j = first_index(v.remote, remote_pred(s2, g2, a2));
    if i >= 0 {
        let w = left_remote(v, s, g, a);
        if v.remote[i].joins > 1 {
            let m = RemoteMember { joins: (v.remote[i].joins - 1) as nat, ..v.remote[i] };
            let u = PgView { remote: v.remote.update(i, m), ..v };
            lemma_remote_update_wf(v, i, m);
            assert(w.remote == u.remote);
            lemma_remote_joins_of_position(u, s, g, a, i);
            if !(s2 == s && g2 == g && a2 == a) && j >= 0 {
                assert(j != i);
                lemma_remote_joins_of_position(u, s2, g2, a2, j);
                lemma_remote_joins_of_position(v, s2, g2, a2, j);
            } else if !(s2 == s && g2 == g && a2 == a) {
                assert forall|x: int| 0 <= x < w.remote.len() implies !remote_pred(s2, g2, a2)(#[trigger] w.remote[x]) by {
                    if x != i {
                        assert(w.remote[x] == v.remote[x]);
                    }
                }
                lemma_first_index(w.remote, remote_pred(s2, g2, a2));
            }
        } else {
            let u = PgView { remote: v.remote.remove(i), ..v };
            lemma_remote_remove_wf(v, i);
            assert(w.remote == u.remote);
            assert forall|x: int| 0 <= x < w.remote.len() implies !remote_pred(s, g, a)(#[trigger] w.remote[x]) by {
                if x < i {
                    assert(w.remote[x] == v.remote[x]);
                } else {
                    assert(w.remote[x] == v.remote[x + 1]);
                    assert(!remote_is(v.remote[i], v.remote[x + 1].scope, v.remote[x + 1].group, v.remote[x + 1].address));
                }
            }
            lemma_first_index(w.remote, remote_pred(s, g, a));
            if !(s2 == s && g2 == g && a2 == a) {
                if j >= 0 {
                    assert(j != i);
                    let k = if j < i { j } else { j - 1 };
                    assert(w.remote[k] == v.remote[j]);
                    lemma_remote_joins_of_position(u, s2, g2, a2, k);
                    lemma_remote_joins_of_position(v, s2, g2, a2, j);
                } else {
                    assert forall|x: int| 0 <= x < w.remote.len() implies !remote_pred(s2, g2, a2)(#[trigger] w.remote[x]) by {
                        if x < i {
                            assert(w.remote[x] == v.remote[x]);
                        } else {
                            assert(w.remote[x] == v.remote[x + 1]);
                        }
                    }
                    lemma_first_index(w.remote, remote_pred(s2, g2, a2));
                }
            }
        }
    }
}

/// An address with no outstanding join to `(s, g)` is not listed among the
/// group's remote members.
pub proof fn lemma_unjoined_address_not_listed<T>(v: PgView<T>, s: Seq<char>, g: Seq<char>, a: AddressView)
    requires
        pg_wf(v),
        remote_joins(v, s, g, a) == 0,
    ensures
        !remote_group_addresses(v.remote, s, g).contains(a),
{
    let p = |m: RemoteMember| m.scope == s && m.group == g;
    let f = v.remote.filter(p);
    let addrs = remote_group_addresses(v.remote, s, g);
    if addrs.contains(a) {
        let k = choose|k: int| 0 <= k < addrs.len() && addrs[k] == a;
        assert(addrs[k] == f[k].address);
        crate::seq_util::lemma_filter_elements(v.remote, p, k);
        let x = choose|x: int| 0 <= x < v.remote.len() && v.remote[x] == f[k];
        assert(remote_is(v.remote[x], s, g, a));
        lemma_remote_joins_of_position(v, s, g, a, x);
        assert(v.remote[x].joins > 0);
    }
}

/// A remote member that joined once and left once is gone: after one join
/// and one leave of an address that was not a member of `(s, g)`, it has no
/// outstanding join and is not listed among the group's remote members.
pub proof fn lemma_remote_join_then_leave<T>(v: PgView<T>, s: Seq<char>, g: Seq<char>, a: AddressView)
    requires
        pg_wf(v),
        a.node is Some,
        remote_joins(v, s, g, a) == 0,
    ensures
        remote_joins(left_remote(PgView { remote: joined_remote(v.remote, s, g, a), ..v }, s, g, a), s, g, a) == 0,
        !remote_group_addresses(left_remote(PgView { remote: joined_remote(v.remote, s, g, a), ..v }, s, g, a).remote, s, g).contains(a),
{
    let w = PgView { remote: joined_remote(v.remote, s, g, a), ..v };
    lemma_remote_join_counts(v, s, g, a, s, g, a);
    lemma_first_index(v.remote, remote_pred(s, g, a));
    let i = first_index(v.remote, remote_pred(s, g, a));
    if i >= 0 {
        lemma_remote_joins_of_position(v, s, g, a, i);
        assert(false);
    }
    lemma_remote_push_wf(v, RemoteMember { scope: s, group: g, address: a, joins: 1 });
    lemma_remote_leave_counts(w, s, g, a, s, g, a);
    let z = PgView { remote: left_remote(w, s, g, a).remote, ..w };
    lemma_unjoined_address_not_listed(z, s, g, a);
}

} // verus!
