use vstd::prelude::*;
use crate::seq_util::{retain_flagged, select};

verus! {

/// Registration of a shutdown-signal callback; the runtime unregisters it
/// when the guard is dropped.
#[derive(Debug, PartialEq, Eq, Structural)]
pub struct SignalGuard {
    id: u64,
}

impl SignalGuard {
    /// The registration id, in specifications.
    pub closed spec fn spec_id(&self) -> u64 {
        self.id
    }

    /// The registration id.
    pub fn id(&self) -> (i: u64)
        ensures
            i == self.spec_id(),
    {
        self.id
    }
}

/// Callbacks that receive OS shutdown signals, with the ids they were
/// registered under.
pub struct SignalRegistry<F> {
    next_id: u64,
    entries: Vec<(u64, F)>,
}

/// Abstract value of a [`SignalRegistry`].
pub struct SignalRegistryView<F> {
    /// Id the next registration gets.
    pub next_id: u64,
    /// Registered callbacks, oldest first.
    pub entries: Seq<(u64, F)>,
}

impl<F> View for SignalRegistry<F> {
    type V = SignalRegistryView<F>;

    closed spec fn view(&self) -> SignalRegistryView<F> {
        SignalRegistryView { next_id: self.next_id, entries: self.entries@ }
    }
}

/// Keep-flags of the entries whose id differs from `id`.
pub open spec fn other_ids<F>(entries: Seq<(u64, F)>, id: u64) -> Seq<bool> {
    Seq::new(entries.len(), |k: int| entries[k].0 != id)
}

impl<F> SignalRegistry<F> {
    /// An empty registry; ids start at 1.
    pub fn new() -> (r: Self)
        ensures
            r@.next_id == 1,
            r@.entries.len() == 0,
    {
        SignalRegistry { next_id: 1, entries: Vec::new() }
    }

    /// Register a callback; its guard carries the id it got. Ids count up
    /// from 1 (wrapping, as the shared counter does).
    pub fn register(&mut self, send: F) -> (g: SignalGuard)
        ensures
            g.spec_id() == old(self)@.next_id,
            final(self)@.next_id == old(self)@.next_id.wrapping_add(1),
            final(self)@.entries == old(self)@.entries.push((old(self)@.next_id, send)),
    {
        let id = self.next_id;
        self.next_id = self.next_id.wrapping_add(1);
        self.entries.push((id, send));
        SignalGuard { id }
    }

    /// Drop every callback registered under `id`.
    pub fn unregister(&mut self, id: u64)
        ensures
            final(self)@.next_id == old(self)@.next_id,
            final(self)@.entries == select(old(self)@.entries, other_ids(old(self)@.entries, id)),
    {
        let mut keep: Vec<bool> = Vec::new();
        let mut i: usize = 0;
        while i < self.entries.len()
            invariant
                i <= self.entries.len(),
                self@ == old(self)@,
                keep@ == other_ids(self.entries@, id).take(i as int),
            decreases self.entries.len() - i,
        {
            keep.push(self.entries[i].0 != id);
            i = i + 1;
            assert(keep@ =~= other_ids(self.entries@, id).take(i as int));
        }
        assert(keep@ =~= other_ids(self.entries@, id));
        retain_flagged(&mut self.entries, &keep);
    }

    /// The callbacks, in registration order.
    pub fn entries(&self) -> (e: &Vec<(u64, F)>)
        ensures
            e@ == self@.entries,
    {
        &self.entries
    }

    /// After an OS shutdown signal was fanned out to every callback, in
    /// order: keep the callbacks whose delivery succeeded (`delivered`, one
    /// flag per callback) and drop the others, whose actor is gone.
    pub fn retain_delivered(&mut self, delivered: &Vec<bool>)
        requires
            delivered@.len() == old(self)@.entries.len(),
        ensures
            final(self)@.next_id == old(self)@.next_id,
            final(self)@.entries == select(old(self)@.entries, delivered@),
    {
        retain_flagged(&mut self.entries, delivered);
    }
}

/// Register each callback in order; one guard per callback.
pub fn register_shutdown_on_signal<F>(registry: &mut SignalRegistry<F>, senders: Vec<F>) -> (guards: Vec<SignalGuard>)
    requires
        old(registry)@.next_id + senders@.len() <= u64::MAX,
    ensures
        guards@.len() == senders@.len(),
        forall|k: int| 0 <= k < guards@.len() ==> (#[trigger] guards@[k]).spec_id() == old(registry)@.next_id + k,
        final(registry)@.next_id == old(registry)@.next_id + senders@.len(),
        final(registry)@.entries == old(registry)@.entries + Seq::new(
            senders@.len(),
            |k: int| ((old(registry)@.next_id + k) as u64, senders@[k]),
        ),
{
    let mut guards: Vec<SignalGuard> = Vec::new();
    let mut senders = senders;
    let n = senders.len();
    let ghost all = senders@;
    let ghost pre = registry@;
    let mut k: usize = 0;
    proof {
        assert(all.skip(0) =~= all);
    }
    while senders.len() > 0
        invariant
            0 <= k <= all.len(),
            all.len() == n,
            senders@ == all.skip(k as int),
            pre.next_id + all.len() <= u64::MAX,
            guards@.len() == k,
            forall|j: int| 0 <= j < k ==> (#[trigger] guards@[j]).spec_id() == pre.next_id + j,
            registry@.next_id == pre.next_id + k,
            registry@.entries == pre.entries + Seq::new(k as nat, |j: int| ((pre.next_id + j) as u64, all[j])),
        decreases senders@.len(),
    {
        assert(k < all.len());
        let send = senders.remove(0);
        assert(send == all[k as int]) by {
            assert(all.skip(k as int)[0] == all[k as int]);
        }
        let g = registry.register(send);
        guards.push(g);
        assert(senders@ =~= all.skip(k as int + 1));
        k = k + 1;
        assert(registry@.entries =~= pre.entries + Seq::new(k as nat, |j: int| ((pre.next_id + j) as u64, all[j])));
    }
    guards
}

/// Selecting with every flag set keeps everything.
proof fn lemma_select_all<A>(s: Seq<A>, keep: Seq<bool>)
    requires
        keep.len() == s.len(),
        forall|k: int| 0 <= k < keep.len() ==> #[trigger] keep[k],
    ensures
        select(s, keep) == s,
    decreases s.len(),
{
    if s.len() > 0 {
        lemma_select_all(s.drop_last(), keep.drop_last());
        assert(keep[keep.len() - 1]);
        assert(s.drop_last().push(s.last()) =~= s);
    }
}

/// Unregistering undoes registering: when no earlier callback holds the id
/// a registration gets, dropping that id leaves exactly the earlier ones.
pub proof fn lemma_unregister_undoes_register<F>(entries: Seq<(u64, F)>, next_id: u64, send: F)
    requires
        forall|k: int| 0 <= k < entries.len() ==> (#[trigger] entries[k]).0 != next_id,
    ensures
        select(entries.push((next_id, send)), other_ids(entries.push((next_id, send)), next_id)) == entries,
{
    let s = entries.push((next_id, send));
    let keep = other_ids(s, next_id);
    assert(s.drop_last() =~= entries);
    assert(keep.drop_last() =~= other_ids(entries, next_id));
    assert forall|k: int| 0 <= k < entries.len() implies #[trigger] other_ids(entries, next_id)[k] by {
        assert(entries[k].0 != next_id);
    }
    lemma_select_all(entries, other_ids(entries, next_id));
}

} // verus!
