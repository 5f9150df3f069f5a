//! Named actor registration with cluster-wide address lookup.
//!
//! Local names carry the actor's handle; names learned from other nodes
//! carry only an address. Changes to local names are announced to other
//! nodes with [`RegistryEvent`]s that the caller publishes.

use vstd::prelude::*;
use crate::ids::{ActorAddress, ActorId, AddressView};
use crate::seq_util::{first_index, is_first, lemma_first_index};

verus! {

/// Errors from named actor registration.
#[derive(Debug, Clone, PartialEq, Eq)]
pub enum NamedRegistryError {
    /// The name is already registered.
    AlreadyRegistered(String),
}

/// Registry change announced to, or received from, other nodes.
#[derive(Debug, Clone, PartialEq, Eq)]
pub enum RegistryEvent {
    Register { name: String, address: ActorAddress },
    Unregister { name: String, address: ActorAddress },
    Snapshot { entries: Vec<(String, ActorAddress)> },
}

struct NamedEntry<H> {
    name: String,
    address: ActorAddress,
    handle: Option<H>,
}

/// Abstract registration: a name, the address it stands for, and the
/// actor's handle when the actor is local.
pub struct NamedView<H> {
    pub name: Seq<char>,
    pub address: AddressView,
    pub handle: Option<H>,
}

impl<H> View for NamedEntry<H> {
    type V = NamedView<H>;

    closed spec fn view(&self) -> NamedView<H> {
        NamedView { name: self.name@, address: self.address@, handle: self.handle }
    }
}

/// Registry of actor names, with handles of type `H` for local actors.
pub struct NamedStore<H> {
    entries: Vec<NamedEntry<H>>,
}

impl<H> View for NamedStore<H> {
    type V = Seq<NamedView<H>>;

    closed spec fn view(&self) -> Seq<NamedView<H>> {
        self.entries@.map_values(|e: NamedEntry<H>| e@)
    }
}

pub open spec fn name_pred<H>(n: Seq<char>) -> spec_fn(NamedView<H>) -> bool {
    |e: NamedView<H>| e.name == n
}

/// Position of the registration of `n`, or -1.
pub open spec fn name_index<H>(v: Seq<NamedView<H>>, n: Seq<char>) -> int {
    first_index(v, name_pred(n))
}

/// Each name is registered once, and only local actors have handles.
pub open spec fn named_wf<H>(v: Seq<NamedView<H>>) -> bool {
    &&& forall|i: int, j: int| 0 <= i < j < v.len() ==> #[trigger] v[i].name != #[trigger] v[j].name
    &&& forall|i: int| 0 <= i < v.len() && (#[trigger] v[i]).handle is Some ==> v[i].address.node is None
}

/// Address registered under `n`, if any.
pub open spec fn address_of<H>(v: Seq<NamedView<H>>, n: Seq<char>) -> Option<AddressView> {
    let i = name_index(v, n);
    if i >= 0 { Some(v[i].address) } else { None }
}

/// Handle registered under `n`, if the name is local.
pub open spec fn handle_of<H>(v: Seq<NamedView<H>>, n: Seq<char>) -> Option<H> {
    let i = name_index(v, n);
    if i >= 0 { v[i].handle } else { None }
}

/// Registrations after a successful local registration of `n`.
pub open spec fn registered<H>(v: Seq<NamedView<H>>, n: Seq<char>, id: ActorId, h: H) -> Seq<NamedView<H>> {
    v.push(NamedView { name: n, address: AddressView { node: None, actor: id@ }, handle: Some(h) })
}

/// Registrations without the one of `n`.
pub open spec fn unregistered<H>(v: Seq<NamedView<H>>, n: Seq<char>) -> Seq<NamedView<H>> {
    let i = name_index(v, n);
    if i >= 0 { v.remove(i) } else { v }
}

/// Registrations after a registration received from another node: a name
/// already known keeps its entry (a local name is owned here; a conflicting
/// remote entry wins by being first), a new one is added without handle.
pub open spec fn remote_registered<H>(v: Seq<NamedView<H>>, n: Seq<char>, a: AddressView) -> Seq<NamedView<H>> {
    if name_index(v, n) >= 0 { v } else { v.push(NamedView { name: n, address: a, handle: None }) }
}

/// Registrations after an unregistration received from another node: only a
/// remote entry with the same address goes.
pub open spec fn remote_unregistered<H>(v: Seq<NamedView<H>>, n: Seq<char>, a: AddressView) -> Seq<NamedView<H>> {
    let i = name_index(v, n);
    if i >= 0 && v[i].handle is None && v[i].address == a { v.remove(i) } else { v }
}

/// Registrations after each entry of a snapshot is registered in turn.
pub open spec fn snapshot_registered<H>(v: Seq<NamedView<H>>, entries: Seq<(Seq<char>, AddressView)>) -> Seq<NamedView<H>>
    decreases entries.len(),
{
    if entries.len() == 0 {
        v
    } else {
        let before = snapshot_registered(v, entries.drop_last());
        remote_registered(before, entries.last().0, entries.last().1)
    }
}

/// A local registration names actor `id`.
pub open spec fn names_local_actor<H>(e: NamedView<H>, id: ActorId) -> bool {
    e.handle is Some && e.address.actor == id@
}

proof fn lemma_named_wf_remove<H>(v: Seq<NamedView<H>>, i: int)
    requires
        named_wf(v),
        0 <= i < v.len(),
    ensures
        named_wf(v.remove(i)),
{
    let r = v.remove(i);
    assert forall|x: int, y: int| 0 <= x < y < r.len() implies #[trigger] r[x].name != #[trigger] r[y].name by {
        let xo = if x < i { x } else { x + 1 };
        let yo = if y < i { y } else { y + 1 };
        assert(r[x] == v[xo]);
        assert(r[y] == v[yo]);
    }
    assert forall|x: int| 0 <= x < r.len() && (#[trigger] r[x]).handle is Some implies r[x].address.node is None by {
        let xo = if x < i { x } else { x + 1 };
        assert(r[x] == v[xo]);
    }
}

proof fn lemma_named_wf_push<H>(v: Seq<NamedView<H>>, e: NamedView<H>)
    requires
        named_wf(v),
        name_index(v, e.name) == -1,
        e.handle is Some ==> e.address.node is None,
    ensures
        named_wf(v.push(e)),
{
    lemma_first_index(v, name_pred::<H>(e.name));
    let r = v.push(e);
    assert forall|x: int, y: int| 0 <= x < y < r.len() implies #[trigger] r[x].name != #[trigger] r[y].name by {
        if y == v.len() {
            assert(!name_pred::<H>(e.name)(v[x]));
        }
    }
}

impl<H> NamedStore<H> {
    /// An empty registry.
    pub fn new() -> (s: Self)
        ensures
            s@.len() == 0,
            named_wf(s@),
    {
        NamedStore { entries: Vec::new() }
    }

    fn find(&self, name: &String) -> (r: Option<usize>)
        ensures
            match r {
                Some(i) => i == name_index(self@, name@) && i < self@.len(),
                None => name_index(self@, name@) == -1,
            },
    {
        let ghost v = self@;
        let ghost p = name_pred::<H>(name@);
        proof {
            lemma_first_index(v, p);
        }
        let mut i: usize = 0;
        while i < self.entries.len()
            invariant
                v == self@,
                p == name_pred::<H>(name@),
                i <= v.len(),
                forall|j: int| 0 <= j < i ==> (#[trigger] v[j]).name != name@,
            decreases v.len() - i,
        {
            assert(v[i as int] == self.entries@[i as int]@);
            if self.entries[i].name == *name {
                assert(is_first(v, p, i as int));
                return Some(i);
            }
            i += 1;
        }
        assert(forall|j: int| 0 <= j < v.len() ==> !p(#[trigger] v[j]));
        None
    }
}

/// Register local actor `id`, with handle `handle`, under `name`. On
/// success, returns the event that announces the registration to other
/// nodes; a name that is already taken, locally or remotely, is refused.
pub fn register_named<H>(store: &mut NamedStore<H>, name: &str, id: ActorId, handle: H) -> (r: Result<RegistryEvent, NamedRegistryError>)
    requires
        named_wf(old(store)@),
    ensures
        named_wf(final(store)@),
        name_index(old(store)@, name@) >= 0 ==> (final(store)@ == old(store)@
            && (r matches Err(NamedRegistryError::AlreadyRegistered(n)) && n@ == name@)),
        name_index(old(store)@, name@) < 0 ==> (final(store)@ == registered(old(store)@, name@, id, handle)
            && (r matches Ok(RegistryEvent::Register { name: n, address: a }) && n@ == name@
            && a@ == (AddressView { node: None, actor: id@ }))),
{
    let name = name.to_owned();
    let ghost v = store@;
    match store.find(&name) {
        Some(_) => Err(NamedRegistryError::AlreadyRegistered(name)),
        None => {
            let address = ActorAddress::local(id);
            let event = RegistryEvent::Register { name: name.clone(), address: address.duplicate() };
            store.entries.push(NamedEntry { name, address, handle: Some(handle) });
            proof {
                assert(store@ =~= registered(v, name@, id, handle));
                lemma_named_wf_push(v, NamedView { name: name@, address: AddressView { node: None, actor: id@ }, handle: Some(handle) });
            }
            Ok(event)
        },
    }
}

/// Address registered under `name` (local or remote).
pub fn lookup_address<H>(store: &NamedStore<H>, name: &str) -> (r: Option<ActorAddress>)
    ensures
        match r {
            Some(a) => address_of(store@, name@) == Some(a@),
            None => address_of(store@, name@) is None,
        },
{
    let name = name.to_owned();
    match store.find(&name) {
        Some(i) => {
            assert(store@[i as int] == store.entries@[i as int]@);
            Some(store.entries[i].address.duplicate())
        },
        None => None,
    }
}

/// Handle of the local actor registered under `name` (a copy).
pub fn lookup_handle<H: Clone>(store: &NamedStore<H>, name: &str) -> (r: Option<H>)
    ensures
        match r {
            Some(h) => handle_of(store@, name@) matches Some(stored) && cloned(stored, h),
            None => handle_of(store@, name@) is None,
        },
{
    let name = name.to_owned();
    match store.find(&name) {
        Some(i) => {
            assert(store@[i as int] == store.entries@[i as int]@);
            match &store.entries[i].handle {
                Some(h) => Some(h.clone()),
                None => None,
            }
        },
        None => None,
    }
}

/// Remove the registration of `name`, local or remote; returns the event
/// that announces it, or `None` when the name was not registered.
pub fn unregister_named<H>(store: &mut NamedStore<H>, name: &str) -> (r: Option<RegistryEvent>)
    requires
        named_wf(old(store)@),
    ensures
        named_wf(final(store)@),
        final(store)@ == unregistered(old(store)@, name@),
        match r {
            Some(RegistryEvent::Unregister { name: n, address: a }) => n@ == name@
                && address_of(old(store)@, name@) == Some(a@),
            Some(_) => false,
            None => name_index(old(store)@, name@) == -1,
        },
{
    let name = name.to_owned();
    let ghost v = store@;
    match store.find(&name) {
        Some(i) => {
            assert(v[i as int] == store.entries@[i as int]@);
            let entry = store.entries.remove(i);
            proof {
                assert(store@ =~= v.remove(i as int));
                lemma_named_wf_remove(v, i as int);
            }
            Some(RegistryEvent::Unregister { name, address: entry.address })
        },
        None => None,
    }
}

} // verus!
verus! {

proof fn lemma_named_wf_filter<H>(v: Seq<NamedView<H>>, p: spec_fn(NamedView<H>) -> bool)
    requires
        named_wf(v),
    ensures
        named_wf(v.filter(p)),
{
    let r = |a: NamedView<H>, b: NamedView<H>| a.name != b.name;
    let f = v.filter(p);
    assert forall|x: int, y: int| 0 <= x < y < v.len() implies #[trigger] r(v[x], v[y]) by {}
    crate::seq_util::lemma_filter_keeps_pairwise(v, p, r);
    assert forall|x: int| 0 <= x < f.len() && (#[trigger] f[x]).handle is Some implies f[x].address.node is None by {
        crate::seq_util::lemma_filter_elements(v, p, x);
        let w = choose|w: int| 0 <= w < v.len() && v[w] == f[x];
    }
    assert forall|x: int, y: int| 0 <= x < y < f.len() implies #[trigger] f[x].name != #[trigger] f[y].name by {
        assert(r(f[x], f[y]));
    }
}

/// Names of the local registrations of actor `id`, in order.
pub open spec fn names_of_actor<H>(v: Seq<NamedView<H>>, id: ActorId) -> Seq<Seq<char>> {
    v.filter(|e: NamedView<H>| names_local_actor(e, id)).map_values(|e: NamedView<H>| e.name)
}

/// Remove every local registration of actor `id` (called when it exits);
/// returns the events that announce them, one per name, in order.
pub fn remove_by_actor_id<H>(store: &mut NamedStore<H>, id: ActorId) -> (events: Vec<RegistryEvent>)
    requires
        named_wf(old(store)@),
    ensures
        named_wf(final(store)@),
        final(store)@ == old(store)@.filter(|e: NamedView<H>| !names_local_actor(e, id)),
        events@.len() == names_of_actor(old(store)@, id).len(),
        forall|k: int| 0 <= k < events@.len() ==> ((#[trigger] events@[k]) matches RegistryEvent::Unregister { name: n, address: a }
            && n@ == names_of_actor(old(store)@, id)[k] && a@ == (AddressView { node: None, actor: id@ })),
{
    let ghost v = store@;
    let ghost pdrop = |e: NamedView<H>| names_local_actor(e, id);
    let ghost pkeep = |e: NamedView<H>| !names_local_actor(e, id);
    let mut keep: Vec<bool> = Vec::new();
    let mut events: Vec<RegistryEvent> = Vec::new();
    let mut i: usize = 0;
    proof {
        reveal(Seq::filter);
        assert(v.take(0) =~= Seq::<NamedView<H>>::empty());
    }
    while i < store.entries.len()
        invariant
            v == store@,
            pdrop == (|e: NamedView<H>| names_local_actor(e, id)),
            pkeep == (|e: NamedView<H>| !names_local_actor(e, id)),
            i <= v.len(),
            keep@.len() == i,
            forall|k: int| 0 <= k < i ==> #[trigger] keep@[k] == pkeep(v[k]),
            events@.len() == names_of_actor(v.take(i as int), id).len(),
            forall|k: int| 0 <= k < events@.len() ==> ((#[trigger] events@[k]) matches RegistryEvent::Unregister { name: n, address: a }
                && n@ == names_of_actor(v.take(i as int), id)[k] && a@ == (AddressView { node: None, actor: id@ })),
        decreases v.len() - i,
    {
        proof {
            reveal(Seq::filter);
            assert(v.take(i + 1).drop_last() =~= v.take(i as int));
            assert(v.take(i + 1).last() == v[i as int]);
        }
        assert(v[i as int] == store.entries@[i as int]@);
        let e = &store.entries[i];
        proof {
            ActorId::lemma_view_injective(e.address.actor_id, id);
        }
        let mine = e.handle.is_some() && e.address.actor_id == id;
        if mine {
            events.push(RegistryEvent::Unregister { name: e.name.clone(), address: ActorAddress::local(id) });
            proof {
                assert(v.take(i + 1).filter(pdrop) == v.take(i as int).filter(pdrop).push(v[i as int]));
                assert(names_of_actor(v.take(i + 1), id) =~= names_of_actor(v.take(i as int), id).push(v[i as int].name));
            }
        } else {
            proof {
                assert(v.take(i + 1).filter(pdrop) == v.take(i as int).filter(pdrop));
            }
        }
        keep.push(!mine);
        i += 1;
    }
    proof {
        assert(v.take(v.len() as int) =~= v);
    }
    let ghost old_entries = store.entries@;
    crate::seq_util::retain_flagged(&mut store.entries, &keep);
    proof {
        crate::seq_util::lemma_select_map(old_entries, keep@, |e: NamedEntry<H>| e@);
        assert(old_entries.map_values(|e: NamedEntry<H>| e@) =~= v);
        crate::seq_util::lemma_select_is_filter(v, pkeep, keep@);
        assert(store@ =~= v.filter(pkeep));
        lemma_named_wf_filter(v, pkeep);
    }
    events
}

/// Local `(name, address)` registrations, for announcing them to other nodes.
pub fn local_snapshot<H>(store: &NamedStore<H>) -> (r: Vec<(String, ActorAddress)>)
    ensures
        r@.len() == store@.filter(|e: NamedView<H>| e.handle is Some).len(),
        forall|k: int| 0 <= k < r@.len() ==> (#[trigger] r@[k]).0@ == store@.filter(|e: NamedView<H>| e.handle is Some)[k].name
            && r@[k].1@ == store@.filter(|e: NamedView<H>| e.handle is Some)[k].address,
{
    let ghost v = store@;
    let ghost p = |e: NamedView<H>| e.handle is Some;
    let mut out: Vec<(String, ActorAddress)> = Vec::new();
    let mut i: usize = 0;
    proof {
        reveal(Seq::filter);
        assert(v.take(0) =~= Seq::<NamedView<H>>::empty());
    }
    while i < store.entries.len()
        invariant
            v == store@,
            p == (|e: NamedView<H>| e.handle is Some),
            i <= v.len(),
            out@.len() == v.take(i as int).filter(p).len(),
            forall|k: int| 0 <= k < out@.len() ==> (#[trigger] out@[k]).0@ == v.take(i as int).filter(p)[k].name
                && out@[k].1@ == v.take(i as int).filter(p)[k].address,
        decreases v.len() - i,
    {
        proof {
            reveal(Seq::filter);
            assert(v.take(i + 1).drop_last() =~= v.take(i as int));
            assert(v.take(i + 1).last() == v[i as int]);
        }
        assert(v[i as int] == store.entries@[i as int]@);
        if store.entries[i].handle.is_some() {
            out.push((store.entries[i].name.clone(), store.entries[i].address.duplicate()));
            proof {
                assert(v.take(i + 1).filter(p) == v.take(i as int).filter(p).push(v[i as int]));
            }
        } else {
            proof {
                assert(v.take(i + 1).filter(p) == v.take(i as int).filter(p));
            }
        }
        i += 1;
    }
    proof {
        assert(v.take(v.len() as int) =~= v);
    }
    out
}

impl<H> NamedStore<H> {
    fn apply_register(&mut self, name: &String, address: &ActorAddress)
        requires
            named_wf(old(self)@),
        ensures
            named_wf(final(self)@),
            final(self)@ == remote_registered(old(self)@, name@, address@),
    {
        let ghost v = self@;
        match self.find(name) {
            Some(_) => {},
            None => {
                self.entries.push(NamedEntry { name: name.clone(), address: address.duplicate(), handle: None });
                proof {
                    assert(self@ =~= v.push(NamedView { name: name@, address: address@, handle: None }));
                    lemma_named_wf_push(v, NamedView { name: name@, address: address@, handle: None });
                }
            },
        }
    }
}

/// Abstract value of a snapshot entry.
pub open spec fn named_entry_view(e: (String, ActorAddress)) -> (Seq<char>, AddressView) {
    (e.0@, e.1@)
}

/// Apply a registry event received from another node. Names owned by this
/// node are never changed by it.
pub fn apply_remote_event<H>(store: &mut NamedStore<H>, event: RegistryEvent)
    requires
        named_wf(old(store)@),
    ensures
        named_wf(final(store)@),
        final(store)@ == match event {
            RegistryEvent::Register { name, address } => remote_registered(old(store)@, name@, address@),
            RegistryEvent::Unregister { name, address } => remote_unregistered(old(store)@, name@, address@),
            RegistryEvent::Snapshot { entries } =>
                snapshot_registered(old(store)@, entries@.map_values(|e: (String, ActorAddress)| named_entry_view(e))),
        },
{
    match event {
        RegistryEvent::Register { name, address } => {
            store.apply_register(&name, &address);
        },
        RegistryEvent::Unregister { name, address } => {
            let ghost v = store@;
            match store.find(&name) {
                Some(i) => {
                    assert(v[i as int] == store.entries@[i as int]@);
                    if store.entries[i].handle.is_none() && store.entries[i].address.same_as(&address) {
                        store.entries.remove(i);
                        proof {
                            assert(store@ =~= v.remove(i as int));
                            lemma_named_wf_remove(v, i as int);
                        }
                    }
                },
                None => {},
            }
        },
        RegistryEvent::Snapshot { entries } => {
            let ghost ev = entries@.map_values(|e: (String, ActorAddress)| named_entry_view(e));
            let ghost v = store@;
            let mut j: usize = 0;
            proof {
                assert(ev.take(0) =~= Seq::<(Seq<char>, AddressView)>::empty());
            }
            while j < entries.len()
                invariant
                    ev == entries@.map_values(|e: (String, ActorAddress)| named_entry_view(e)),
                    j <= entries@.len(),
                    named_wf(store@),
                    store@ == snapshot_registered(v, ev.take(j as int)),
                decreases entries@.len() - j,
            {
                proof {
                    assert(ev.take(j + 1).drop_last() =~= ev.take(j as int));
                    assert(ev.take(j + 1).last() == ev[j as int]);
                }
                store.apply_register(&entries[j].0, &entries[j].1);
                j += 1;
            }
            proof {
                assert(ev.take(entries@.len() as int) =~= ev);
            }
        },
    }
}

// ---------------------------------------------------------------------------
// Laws
// ---------------------------------------------------------------------------

/// A successful registration is what lookups then see: the name resolves to
/// the local actor's address and handle.
pub proof fn lemma_lookup_after_register<H>(v: Seq<NamedView<H>>, n: Seq<char>, id: ActorId, h: H)
    requires
        named_wf(v),
        name_index(v, n) == -1,
    ensures
        address_of(registered(v, n, id, h), n) == Some(AddressView { node: None, actor: id@ }),
        handle_of(registered(v, n, id, h), n) == Some(h),
{
    lemma_first_index(v, name_pred::<H>(n));
    let w = registered(v, n, id, h);
    assert forall|j: int| 0 <= j < v.len() implies !name_pred::<H>(n)(#[trigger] w[j]) by {
        assert(w[j] == v[j]);
        assert(!name_pred::<H>(n)(v[j]));
    }
    assert(is_first(w, name_pred::<H>(n), v.len() as int));
    lemma_first_index(w, name_pred::<H>(n));
}

/// After unregistering a name, lookups find nothing under it.
pub proof fn lemma_lookup_after_unregister<H>(v: Seq<NamedView<H>>, n: Seq<char>)
    requires
        named_wf(v),
    ensures
        address_of(unregistered(v, n), n) is None,
        handle_of(unregistered(v, n), n) is None,
{
    lemma_first_index(v, name_pred::<H>(n));
    let i = name_index(v, n);
    if i >= 0 {
        let w = v.remove(i);
        assert forall|j: int| 0 <= j < w.len() implies !name_pred::<H>(n)(#[trigger] w[j]) by {
            if j < i {
                assert(w[j] == v[j]);
            } else {
                assert(w[j] == v[j + 1]);
                assert(v[i].name != v[j + 1].name);
            }
        }
        lemma_first_index(w, name_pred::<H>(n));
    }
}

/// Registrations received from other nodes never take over a local name.
pub proof fn lemma_remote_never_overrides_local<H>(v: Seq<NamedView<H>>, n: Seq<char>, a: AddressView, m: Seq<char>, b: AddressView)
    requires
        named_wf(v),
        handle_of(v, n) is Some,
    ensures
        address_of(remote_registered(v, m, b), n) == address_of(v, n),
        handle_of(remote_registered(v, m, b), n) == handle_of(v, n),
        address_of(remote_unregistered(v, m, b), n) == address_of(v, n),
{
    lemma_first_index(v, name_pred::<H>(n));
    lemma_first_index(v, name_pred::<H>(m));
    let i = name_index(v, n);
    let w = remote_registered(v, m, b);
    if name_index(v, m) < 0 {
        assert(w[i] == v[i]);
        assert(is_first(w, name_pred::<H>(n), i));
        lemma_first_index(w, name_pred::<H>(n));
    }
    let j = name_index(v, m);
    if j >= 0 && v[j].handle is None && v[j].address == b {
        assert(j != i);
        let u = v.remove(j);
        let k = if j < i { i - 1 } else { i };
        assert(u[k] == v[i]);
        assert forall|x: int| 0 <= x < k implies !name_pred::<H>(n)(#[trigger] u[x]) by {
            if x < j {
                assert(u[x] == v[x]);
            } else {
                assert(u[x] == v[x + 1]);
            }
        }
        assert(is_first(u, name_pred::<H>(n), k));
        lemma_first_index(u, name_pred::<H>(n));
    }
}

/// A remote unregistration removes the remote entry it names: when `n` is
/// registered by another node at address `a`, an unregistration of `n` at
/// `a` leaves `n` unresolved, and every other name resolves as before.
pub proof fn lemma_remote_unregister_removes_entry<H>(v: Seq<NamedView<H>>, n: Seq<char>, a: AddressView, m: Seq<char>)
    requires
        named_wf(v),
        handle_of(v, n) is None,
        address_of(v, n) == Some(a),
    ensures
        address_of(remote_unregistered(v, n, a), n) is None,
        handle_of(remote_unregistered(v, n, a), n) is None,
        m != n ==> address_of(remote_unregistered(v, n, a), m) == address_of(v, m),
        m != n ==> handle_of(remote_unregistered(v, n, a), m) == handle_of(v, m),
{
    lemma_first_index(v, name_pred::<H>(n));
    lemma_first_index(v, name_pred::<H>(m));
    let i = name_index(v, n);
    let w = v.remove(i);
    assert(remote_unregistered(v, n, a) == w);
    lemma_lookup_after_unregister(v, n);
    assert(unregistered(v, n) == w);
    if m != n {
        let j = name_index(v, m);
        if j >= 0 {
            assert(j != i);
            let k = if j < i { j } else { j - 1 };
            assert(w[k] == v[j]);
            assert forall|x: int| 0 <= x < k implies !name_pred::<H>(m)(#[trigger] w[x]) by {
                if x < i {
                    assert(w[x] == v[x]);
                } else {
                    assert(w[x] == v[x + 1]);
                }
            }
            assert(is_first(w, name_pred::<H>(m), k));
            lemma_first_index(w, name_pred::<H>(m));
        } else {
            assert forall|x: int| 0 <= x < w.len() implies !name_pred::<H>(m)(#[trigger] w[x]) by {
                if x < i {
                    assert(w[x] == v[x]);
                } else {
                    assert(w[x] == v[x + 1]);
                }
            }
            lemma_first_index(w, name_pred::<H>(m));
        }
    }
}

/// A registration from another node followed by its unregistration from
/// the same address leaves an unknown name unknown again.
pub proof fn lemma_remote_register_then_unregister<H>(v: Seq<NamedView<H>>, n: Seq<char>, a: AddressView)
    requires
        named_wf(v),
        name_index(v, n) == -1,
    ensures
        address_of(remote_registered(v, n, a), n) == Some(a),
        address_of(remote_unregistered(remote_registered(v, n, a), n, a), n) is None,
{
    lemma_first_index(v, name_pred::<H>(n));
    let e = NamedView { name: n, address: a, handle: None::<H> };
    let w = v.push(e);
    assert(remote_registered(v, n, a) == w);
    lemma_named_wf_push(v, e);
    assert forall|j: int| 0 <= j < v.len() implies !name_pred::<H>(n)(#[trigger] w[j]) by {
        assert(w[j] == v[j]);
        assert(!name_pred::<H>(n)(v[j]));
    }
    assert(is_first(w, name_pred::<H>(n), v.len() as int));
    lemma_first_index(w, name_pred::<H>(n));
    lemma_remote_unregister_removes_entry(w, n, a, n);
}

} // verus!
