//! Typed process group helpers: join with a typed handle, list the live
//! members, and broadcast to them.

use vstd::prelude::*;
use crate::child_spec::default_scope;
use crate::error::ActorError;
use crate::ids::{ActorAddress, ActorId};
use crate::pg::{
    self, typed_group, typed_joined, joined_local, left, local_joins, pg_wf, PgCallReport, PgError, PgSendReport,
    PgStore, PgView,
};

verus! {

/// Join local actor `id` to `group` of `scope` and register `handle` as its
/// typed value there.
pub fn join_scoped<T>(store: &mut PgStore<T>, scope: &str, group: &str, id: ActorId, handle: T)
    requires
        pg_wf(old(store)@),
        local_joins(old(store)@, scope@, group@, id) < u32::MAX,
    ensures
        pg_wf(final(store)@),
        final(store)@ == (PgView {
            local: joined_local(old(store)@.local, scope@, group@, id),
            typed: typed_joined(old(store)@.typed, scope@, group@, id, handle),
            ..old(store)@
        }),
{
    pg::join_scoped(store, scope, group, id);
    pg::typed_join(store, scope, group, id, handle);
}

/// Join local actor `id` to `group` of the default scope with typed `handle`.
pub fn join<T>(store: &mut PgStore<T>, group: &str, id: ActorId, handle: T)
    requires
        pg_wf(old(store)@),
        local_joins(old(store)@, default_scope(), group@, id) < u32::MAX,
    ensures
        pg_wf(final(store)@),
        final(store)@ == (PgView {
            local: joined_local(old(store)@.local, default_scope(), group@, id),
            typed: typed_joined(old(store)@.typed, default_scope(), group@, id, handle),
            ..old(store)@
        }),
{
    let scope = crate::child_spec::default_scope_name();
    join_scoped(store, scope.as_str(), group, id, handle);
}

/// Leave `group` of `scope` once.
pub fn leave_scoped<T>(store: &mut PgStore<T>, scope: &str, group: &str, id: ActorId) -> (r: Result<(), PgError>)
    requires
        pg_wf(old(store)@),
    ensures
        pg_wf(final(store)@),
        final(store)@ == left(old(store)@, scope@, group@, id).0,
        r is Ok == left(old(store)@, scope@, group@, id).1,
{
    pg::leave_scoped(store, scope, group, id)
}

/// Leave `group` of the default scope once.
pub fn leave<T>(store: &mut PgStore<T>, group: &str, id: ActorId) -> (r: Result<(), PgError>)
    requires
        pg_wf(old(store)@),
    ensures
        pg_wf(final(store)@),
        final(store)@ == left(old(store)@, default_scope(), group@, id).0,
        r is Ok == left(old(store)@, default_scope(), group@, id).1,
{
    pg::leave(store, group, id)
}

/// Copies of the typed members of `group` in `scope` that `is_live` reports
/// live, in registration order; each member is checked once.
pub fn members_scoped<T: Clone, L: Fn(&T) -> bool>(store: &PgStore<T>, scope: &str, group: &str, is_live: &L) -> (r: Vec<T>)
    requires
        forall|t: &T| is_live.requires((t,)),
    ensures
        exists|copies: Seq<T>, live: Seq<bool>| #![trigger crate::seq_util::select(copies, live)] {
            let g = typed_group(store@.typed, scope@, group@);
            &&& copies.len() == g.len() && live.len() == g.len()
            &&& forall|k: int| 0 <= k < g.len() ==> cloned(g[k].value, #[trigger] copies[k])
            &&& forall|k: int| 0 <= k < g.len() ==> call_ensures(is_live, (&copies[k],), #[trigger] live[k])
            &&& r@ == crate::seq_util::select(copies, live)
        },
{
    let mut entries = pg::typed_group_entries(store, scope, group);
    let ghost orig = entries@;
    let ghost copies = orig.map_values(|e: (ActorId, T)| e.1);
    let ghost mut live: Seq<bool> = Seq::empty();
    let mut out: Vec<T> = Vec::new();
    let ghost mut k: int = 0;
    proof {
        assert(orig.skip(0) =~= orig);
        assert(copies.take(0) =~= Seq::<T>::empty());
    }
    while entries.len() > 0
        invariant
            0 <= k <= orig.len(),
            entries@ == orig.skip(k),
            live.len() == k,
            copies == orig.map_values(|e: (ActorId, T)| e.1),
            forall|j: int| 0 <= j < k ==> call_ensures(is_live, (&copies[j],), #[trigger] live[j]),
            out@ == crate::seq_util::select(copies.take(k), live),
            forall|t: &T| is_live.requires((t,)),
        decreases entries@.len(),
    {
        let (_id, value) = entries.remove(0);
        assert(value == copies[k]) by {
            assert(orig.skip(k)[0] == orig[k]);
        }
        let keep = is_live(&value);
        proof {
            assert(copies.take(k + 1).drop_last() =~= copies.take(k));
            assert(live.push(keep).drop_last() =~= live);
            assert(copies.take(k + 1).last() == copies[k]);
            live = live.push(keep);
        }
        if keep {
            out.push(value);
        }
        proof {
            assert(entries@ =~= orig.skip(k + 1));
            k = k + 1;
        }
    }
    proof {
        assert(orig.skip(k).len() == 0);
        assert(copies.take(k) =~= copies);
    }
    out
}

/// Copies of the live typed members of `group` in the default scope.
pub fn members<T: Clone, L: Fn(&T) -> bool>(store: &PgStore<T>, group: &str, is_live: &L) -> (r: Vec<T>)
    requires
        forall|t: &T| is_live.requires((t,)),
    ensures
        exists|copies: Seq<T>, live: Seq<bool>| #![trigger crate::seq_util::select(copies, live)] {
            let g = typed_group(store@.typed, default_scope(), group@);
            &&& copies.len() == g.len() && live.len() == g.len()
            &&& forall|k: int| 0 <= k < g.len() ==> cloned(g[k].value, #[trigger] copies[k])
            &&& forall|k: int| 0 <= k < g.len() ==> call_ensures(is_live, (&copies[k],), #[trigger] live[k])
            &&& r@ == crate::seq_util::select(copies, live)
        },
{
    let scope = crate::child_spec::default_scope_name();
    members_scoped(store, scope.as_str(), group, is_live)
}

/// Live typed members of `group` in `scope` on this node; identical to
/// [`members_scoped`] since the typed values are local.
pub fn local_members_scoped<T: Clone, L: Fn(&T) -> bool>(store: &PgStore<T>, scope: &str, group: &str, is_live: &L) -> (r: Vec<T>)
    requires
        forall|t: &T| is_live.requires((t,)),
    ensures
        exists|copies: Seq<T>, live: Seq<bool>| #![trigger crate::seq_util::select(copies, live)] {
            let g = typed_group(store@.typed, scope@, group@);
            &&& copies.len() == g.len() && live.len() == g.len()
            &&& forall|k: int| 0 <= k < g.len() ==> cloned(g[k].value, #[trigger] copies[k])
            &&& forall|k: int| 0 <= k < g.len() ==> call_ensures(is_live, (&copies[k],), #[trigger] live[k])
            &&& r@ == crate::seq_util::select(copies, live)
        },
{
    members_scoped(store, scope, group, is_live)
}

/// Live typed members of `group` in the default scope on this node.
pub fn local_members<T: Clone, L: Fn(&T) -> bool>(store: &PgStore<T>, group: &str, is_live: &L) -> (r: Vec<T>)
    requires
        forall|t: &T| is_live.requires((t,)),
    ensures
        exists|copies: Seq<T>, live: Seq<bool>| #![trigger crate::seq_util::select(copies, live)] {
            let g = typed_group(store@.typed, default_scope(), group@);
            &&& copies.len() == g.len() && live.len() == g.len()
            &&& forall|k: int| 0 <= k < g.len() ==> cloned(g[k].value, #[trigger] copies[k])
            &&& forall|k: int| 0 <= k < g.len() ==> call_ensures(is_live, (&copies[k],), #[trigger] live[k])
            &&& r@ == crate::seq_util::select(copies, live)
        },
{
    members(store, group, is_live)
}

/// How many of the outcomes `rs` are successes.
pub open spec fn ok_count<X>(rs: Seq<Result<X, ActorError>>) -> nat
    decreases rs.len(),
{
    if rs.len() == 0 {
        0
    } else {
        ok_count(rs.drop_last()) + if rs.last() is Ok { 1nat } else { 0nat }
    }
}

/// The failed outcomes of `rs`, each with the id at its position in `ids`,
/// in order.
pub open spec fn failures<X>(ids: Seq<ActorId>, rs: Seq<Result<X, ActorError>>) -> Seq<(ActorId, ActorError)>
    decreases rs.len(),
{
    if rs.len() == 0 {
        Seq::empty()
    } else {
        let before = failures(ids.drop_last(), rs.drop_last());
        match rs.last() {
            Err(e) => before.push((ids.last(), e)),
            Ok(_) => before,
        }
    }
}

/// The successful outcomes of `rs`, each with the id at its position in
/// `ids`, in order.
pub open spec fn successes<X>(ids: Seq<ActorId>, rs: Seq<Result<X, ActorError>>) -> Seq<(ActorId, X)>
    decreases rs.len(),
{
    if rs.len() == 0 {
        Seq::empty()
    } else {
        let before = successes(ids.drop_last(), rs.drop_last());
        match rs.last() {
            Ok(v) => before.push((ids.last(), v)),
            Err(_) => before,
        }
    }
}

/// The addresses of `addrs` that live on other nodes, in order.
pub open spec fn remote_only(addrs: Seq<ActorAddress>) -> Seq<ActorAddress> {
    addrs.filter(|a: ActorAddress| a@.node is Some)
}

/// The targets of a broadcast to `group` in `scope`: the ids and copies of
/// the typed members that `is_live` reports live, in registration order;
/// each member is checked once. A broadcast sends once to each of them and
/// to no one else.
pub fn live_targets_scoped<T: Clone, L: Fn(&T) -> bool>(store: &PgStore<T>, scope: &str, group: &str, is_live: &L) -> (r: Vec<(ActorId, T)>)
    requires
        forall|t: &T| is_live.requires((t,)),
    ensures
        exists|copies: Seq<T>, live: Seq<bool>| #![trigger crate::seq_util::select(copies, live)] {
            let g = typed_group(store@.typed, scope@, group@);
            &&& copies.len() == g.len() && live.len() == g.len()
            &&& forall|k: int| 0 <= k < g.len() ==> cloned(g[k].value, #[trigger] copies[k])
            &&& forall|k: int| 0 <= k < g.len() ==> call_ensures(is_live, (&copies[k],), #[trigger] live[k])
            &&& r@ == crate::seq_util::select(Seq::new(g.len(), |k: int| (g[k].id, copies[k])), live)
        },
{
    let mut entries = pg::typed_group_entries(store, scope, group);
    let ghost orig = entries@;
    let ghost g = typed_group(store@.typed, scope@, group@);
    let ghost copies = orig.map_values(|e: (ActorId, T)| e.1);
    let ghost pairs = Seq::new(g.len(), |k: int| (g[k].id, copies[k]));
    let ghost mut live: Seq<bool> = Seq::empty();
    let mut out: Vec<(ActorId, T)> = Vec::new();
    let ghost mut k: int = 0;
    proof {
        assert(orig.skip(0) =~= orig);
        assert(copies.take(0) =~= Seq::<T>::empty());
        assert(pairs.take(0) =~= Seq::<(ActorId, T)>::empty());
        assert forall|j: int| 0 <= j < orig.len() implies #[trigger] pairs[j] == orig[j] by {
            assert(orig[j].0 == g[j].id);
        }
    }
    while entries.len() > 0
        invariant
            0 <= k <= orig.len(),
            orig.len() == g.len(),
            entries@ == orig.skip(k),
            live.len() == k,
            copies == orig.map_values(|e: (ActorId, T)| e.1),
            pairs == Seq::new(g.len(), |j: int| (g[j].id, copies[j])),
            forall|j: int| 0 <= j < orig.len() ==> #[trigger] pairs[j] == orig[j],
            forall|j: int| 0 <= j < k ==> call_ensures(is_live, (&copies[j],), #[trigger] live[j]),
            out@ == crate::seq_util::select(pairs.take(k), live),
            forall|t: &T| is_live.requires((t,)),
        decreases entries@.len(),
    {
        let (id, value) = entries.remove(0);
        assert(value == copies[k] && (id, value) == pairs[k]) by {
            assert(orig.skip(k)[0] == orig[k]);
        }
        let keep = is_live(&value);
        proof {
            assert(copies.take(k + 1).drop_last() =~= copies.take(k));
            assert(pairs.take(k + 1).drop_last() =~= pairs.take(k));
            assert(live.push(keep).drop_last() =~= live);
            assert(copies.take(k + 1).last() == copies[k]);
            assert(pairs.take(k + 1).last() == pairs[k]);
            live = live.push(keep);
        }
        if keep {
            out.push((id, value));
        }
        proof {
            assert(entries@ =~= orig.skip(k + 1));
            k = k + 1;
        }
    }
    proof {
        assert(orig.skip(k).len() == 0);
        assert(copies.take(k) =~= copies);
        assert(pairs.take(k) =~= pairs);
        let witness = crate::seq_util::select(copies, live);
    }
    out
}

/// A broadcast reaches each live member once: in a well-formed store the
/// targets chosen from a group's members (any copies, any liveness flags)
/// carry distinct actor ids.
pub proof fn lemma_targets_distinct<T>(v: PgView<T>, scope: Seq<char>, group: Seq<char>, copies: Seq<T>, live: Seq<bool>)
    requires
        pg_wf(v),
        copies.len() == typed_group(v.typed, scope, group).len(),
        live.len() == typed_group(v.typed, scope, group).len(),
    ensures
        ({
            let g = typed_group(v.typed, scope, group);
            let t = crate::seq_util::select(Seq::new(g.len(), |k: int| (g[k].id, copies[k])), live);
            forall|i: int, j: int| 0 <= i < j < t.len() ==> (#[trigger] t[i]).0 != (#[trigger] t[j]).0
        }),
{
    let p = |m: pg::TypedMember<T>| m.scope == scope && m.group == group;
    let r = |a: pg::TypedMember<T>, b: pg::TypedMember<T>| !(a.scope == b.scope && a.group == b.group && a.id == b.id);
    assert forall|i: int, j: int| 0 <= i < j < v.typed.len() implies #[trigger] r(v.typed[i], v.typed[j]) by {
        assert(!pg::typed_is(v.typed[i], v.typed[j].scope, v.typed[j].group, v.typed[j].id));
    }
    crate::seq_util::lemma_filter_keeps_pairwise(v.typed, p, r);
    let g = typed_group(v.typed, scope, group);
    assert(g == v.typed.filter(p));
    let pairs = Seq::new(g.len(), |k: int| (g[k].id, copies[k]));
    let r2 = |a: (ActorId, T), b: (ActorId, T)| a.0 != b.0;
    assert forall|i: int, j: int| 0 <= i < j < pairs.len() implies #[trigger] r2(pairs[i], pairs[j]) by {
        crate::seq_util::lemma_filter_elements(v.typed, p, i);
        crate::seq_util::lemma_filter_elements(v.typed, p, j);
        assert(r(g[i], g[j]));
    }
    crate::seq_util::lemma_select_keeps_pairwise(pairs, live, r2);
    let t = crate::seq_util::select(pairs, live);
    assert forall|i: int, j: int| 0 <= i < j < t.len() implies (#[trigger] t[i]).0 != (#[trigger] t[j]).0 by {
        assert(r2(t[i], t[j]));
    }
}

/// The addresses of `addrs` on other nodes, in order: the targets of a
/// broadcast to a group's remote members.
pub fn remote_targets(addrs: &Vec<ActorAddress>) -> (r: Vec<ActorAddress>)
    ensures
        r@ == remote_only(addrs@),
{
    let mut out: Vec<ActorAddress> = Vec::new();
    let mut i: usize = 0;
    proof {
        reveal(Seq::filter);
        assert(addrs@.take(0).filter(|a: ActorAddress| a@.node is Some) =~= Seq::<ActorAddress>::empty());
    }
    while i < addrs.len()
        invariant
            i <= addrs.len(),
            out@ == remote_only(addrs@.take(i as int)),
        decreases addrs.len() - i,
    {
        proof {
            reveal(Seq::filter);
            assert(addrs@.take(i as int + 1).drop_last() =~= addrs@.take(i as int));
        }
        if !addrs[i].is_local() {
            out.push(addrs[i].duplicate());
        }
        i = i + 1;
    }
    proof {
        assert(addrs@.take(addrs.len() as int) =~= addrs@);
    }
    out
}

/// Add the outcomes of sends to `report`: `sent[k]` is what the send to the
/// actor `ids[k]` gave. Successes are counted, failures appended with the
/// actors' ids, in order.
fn add_sends(report: &mut PgSendReport, ids: Vec<ActorId>, sent: Vec<Result<(), ActorError>>)
    requires
        ids@.len() == sent@.len(),
        old(report).delivered + sent@.len() <= usize::MAX,
    ensures
        final(report).delivered == old(report).delivered + ok_count(sent@),
        final(report).failed@ == old(report).failed@ + failures(ids@, sent@),
{
    let ghost d0 = report.delivered;
    let ghost f0 = report.failed@;
    let ghost ids0 = ids@;
    let ghost rs0 = sent@;
    let mut ids = ids;
    let mut sent = sent;
    let ghost mut k: int = 0;
    proof {
        assert(ids0.skip(0) =~= ids0);
        assert(rs0.skip(0) =~= rs0);
        assert(rs0.take(0) =~= Seq::<Result<(), ActorError>>::empty());
        assert(ids0.take(0) =~= Seq::<ActorId>::empty());
    }
    while sent.len() > 0
        invariant
            0 <= k <= rs0.len(),
            ids0.len() == rs0.len(),
            ids@ == ids0.skip(k),
            sent@ == rs0.skip(k),
            d0 + rs0.len() <= usize::MAX,
            ok_count(rs0.take(k)) <= k,
            report.delivered == d0 + ok_count(rs0.take(k)),
            report.failed@ == f0 + failures(ids0.take(k), rs0.take(k)),
        decreases sent@.len(),
    {
        let id = ids.remove(0);
        let outcome = sent.remove(0);
        proof {
            assert(ids0.skip(k)[0] == ids0[k]);
            assert(rs0.skip(k)[0] == rs0[k]);
            assert(rs0.take(k + 1).drop_last() =~= rs0.take(k));
            assert(ids0.take(k + 1).drop_last() =~= ids0.take(k));
            assert(rs0.take(k + 1).last() == rs0[k]);
            assert(ids0.take(k + 1).last() == ids0[k]);
        }
        match outcome {
            Ok(()) => {
                report.delivered = report.delivered + 1;
            },
            Err(err) => {
                report.failed.push((id, err));
            },
        }
        proof {
            assert(ids@ =~= ids0.skip(k + 1));
            assert(sent@ =~= rs0.skip(k + 1));
            k = k + 1;
        }
    }
    proof {
        assert(rs0.take(k) =~= rs0);
        assert(ids0.take(k) =~= ids0);
    }
}

/// Add the outcomes of requests to `report`: `replies[k]` is what asking
/// the actor `ids[k]` gave. Replies and failures are appended with the
/// actors' ids, in order.
fn add_replies<X>(report: &mut PgCallReport<X>, ids: Vec<ActorId>, replies: Vec<Result<X, ActorError>>)
    requires
        ids@.len() == replies@.len(),
    ensures
        final(report).ok@ == old(report).ok@ + successes(ids@, replies@),
        final(report).failed@ == old(report).failed@ + failures(ids@, replies@),
{
    let ghost o0 = report.ok@;
    let ghost f0 = report.failed@;
    let ghost ids0 = ids@;
    let ghost rs0 = replies@;
    let mut ids = ids;
    let mut replies = replies;
    let ghost mut k: int = 0;
    proof {
        assert(ids0.skip(0) =~= ids0);
        assert(rs0.skip(0) =~= rs0);
        assert(rs0.take(0) =~= Seq::<Result<X, ActorError>>::empty());
        assert(ids0.take(0) =~= Seq::<ActorId>::empty());
    }
    while replies.len() > 0
        invariant
            0 <= k <= rs0.len(),
            ids0.len() == rs0.len(),
            ids@ == ids0.skip(k),
            replies@ == rs0.skip(k),
            report.ok@ == o0 + successes(ids0.take(k), rs0.take(k)),
            report.failed@ == f0 + failures(ids0.take(k), rs0.take(k)),
        decreases replies@.len(),
    {
        let id = ids.remove(0);
        let outcome = replies.remove(0);
        proof {
            assert(ids0.skip(k)[0] == ids0[k]);
            assert(rs0.skip(k)[0] == rs0[k]);
            assert(rs0.take(k + 1).drop_last() =~= rs0.take(k));
            assert(ids0.take(k + 1).drop_last() =~= ids0.take(k));
            assert(rs0.take(k + 1).last() == rs0[k]);
            assert(ids0.take(k + 1).last() == ids0[k]);
        }
        match outcome {
            Ok(v) => {
                report.ok.push((id, v));
            },
            Err(err) => {
                report.failed.push((id, err));
            },
        }
        proof {
            assert(ids@ =~= ids0.skip(k + 1));
            assert(replies@ =~= rs0.skip(k + 1));
            k = k + 1;
        }
    }
    proof {
        assert(rs0.take(k) =~= rs0);
        assert(ids0.take(k) =~= ids0);
    }
}

/// Ids of local broadcast targets.
fn target_ids<T>(targets: &Vec<(ActorId, T)>) -> (r: Vec<ActorId>)
    ensures
        r@ == targets@.map_values(|t: (ActorId, T)| t.0),
{
    let mut out: Vec<ActorId> = Vec::new();
    let mut i: usize = 0;
    while i < targets.len()
        invariant
            i <= targets.len(),
            out@ == targets@.take(i as int).map_values(|t: (ActorId, T)| t.0),
        decreases targets.len() - i,
    {
        out.push(targets[i].0);
        i = i + 1;
        assert(out@ =~= targets@.take(i as int).map_values(|t: (ActorId, T)| t.0));
    }
    assert(targets@.take(i as int) =~= targets@);
    out
}

/// Ids of remote broadcast targets.
fn address_ids(targets: &Vec<ActorAddress>) -> (r: Vec<ActorId>)
    ensures
        r@ == targets@.map_values(|a: ActorAddress| a.actor_id),
{
    let mut out: Vec<ActorId> = Vec::new();
    let mut i: usize = 0;
    while i < targets.len()
        invariant
            i <= targets.len(),
            out@ == targets@.take(i as int).map_values(|a: ActorAddress| a.actor_id),
        decreases targets.len() - i,
    {
        out.push(targets[i].actor_id);
        i = i + 1;
        assert(out@ =~= targets@.take(i as int).map_values(|a: ActorAddress| a.actor_id));
    }
    assert(targets@.take(i as int) =~= targets@);
    out
}

/// Report a broadcast to local targets: `sent[k]` is what the one send to
/// `targets[k]` gave. Deliveries are counted and failures appended with the
/// members' ids, in order.
pub fn record_sends<T>(report: &mut PgSendReport, targets: &Vec<(ActorId, T)>, sent: Vec<Result<(), ActorError>>)
    requires
        sent@.len() == targets@.len(),
        old(report).delivered + sent@.len() <= usize::MAX,
    ensures
        final(report).delivered == old(report).delivered + ok_count(sent@),
        final(report).failed@ == old(report).failed@ + failures(targets@.map_values(|t: (ActorId, T)| t.0), sent@),
{
    add_sends(report, target_ids(targets), sent);
}

/// Report a request broadcast to local targets: `replies[k]` is what the one
/// request to `targets[k]` gave. Replies and failures are appended with the
/// members' ids, in order.
pub fn record_replies<T, X>(report: &mut PgCallReport<X>, targets: &Vec<(ActorId, T)>, replies: Vec<Result<X, ActorError>>)
    requires
        replies@.len() == targets@.len(),
    ensures
        final(report).ok@ == old(report).ok@ + successes(targets@.map_values(|t: (ActorId, T)| t.0), replies@),
        final(report).failed@ == old(report).failed@ + failures(targets@.map_values(|t: (ActorId, T)| t.0), replies@),
{
    add_replies(report, target_ids(targets), replies);
}

/// Report a broadcast to remote targets: `sent[k]` is what the one send to
/// `targets[k]` gave.
pub fn record_remote_sends(report: &mut PgSendReport, targets: &Vec<ActorAddress>, sent: Vec<Result<(), ActorError>>)
    requires
        sent@.len() == targets@.len(),
        old(report).delivered + sent@.len() <= usize::MAX,
    ensures
        final(report).delivered == old(report).delivered + ok_count(sent@),
        final(report).failed@ == old(report).failed@ + failures(targets@.map_values(|a: ActorAddress| a.actor_id), sent@),
{
    add_sends(report, address_ids(targets), sent);
}

/// Report a request broadcast to remote targets: `replies[k]` is what the
/// one request to `targets[k]` gave.
pub fn record_remote_replies<X>(report: &mut PgCallReport<X>, targets: &Vec<ActorAddress>, replies: Vec<Result<X, ActorError>>)
    requires
        replies@.len() == targets@.len(),
    ensures
        final(report).ok@ == old(report).ok@ + successes(targets@.map_values(|a: ActorAddress| a.actor_id), replies@),
        final(report).failed@ == old(report).failed@ + failures(targets@.map_values(|a: ActorAddress| a.actor_id), replies@),
{
    add_replies(report, address_ids(targets), replies);
}

} // verus!
