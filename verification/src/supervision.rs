use vstd::prelude::*;
use crate::child_spec::RestartType;
use crate::error::ExitReason;
use crate::ids::{ActorAddress, ActorId, AddressView, Locality, NodeId, locality_view};

verus! {

/// A stop request delivered to a supervised actor on its own node.
#[derive(Debug, Clone, Copy, PartialEq, Eq, Structural)]
pub enum SupervisionSignal {
    Stop,
    Shutdown,
    Kill,
}

/// Overrides applied to a named remote spec before the child starts.
#[derive(Debug, Clone, PartialEq, Eq)]
pub struct RemoteSpecOverrides {
    pub restart: Option<RestartType>,
    pub pg_scope: Option<String>,
    pub pg_group: Option<String>,
}

/// What a remote spawn request asks the placement node to start.
#[derive(Debug, Clone, PartialEq, Eq)]
pub enum RemoteSpawnSpec {
    /// A registered worker type, started from serialized init bytes.
    Worker { worker_type: String, init: Vec<u8> },
    /// A registered named child spec, with overrides.
    NamedSpec { name: String, overrides: RemoteSpecOverrides },
}

/// A supervision event exchanged between nodes.
#[derive(Debug, Clone)]
pub enum SupervisionEvent {
    Signal { target: ActorAddress, signal: SupervisionSignal },
    SpawnRequest { parent: ActorAddress, placement: NodeId, spec: RemoteSpawnSpec, link: bool },
    SpawnOk { child: ActorAddress },
    SpawnErr { error: String },
    ChildExit { child: ActorAddress, parent: ActorAddress, reason: ExitReason },
    Monitor { owner: ActorAddress, target: ActorAddress, monitor_ref: u64 },
    Demonitor { owner: ActorAddress, target: ActorAddress, monitor_ref: u64 },
    Down { owner: ActorAddress, monitor_ref: u64, child: ActorAddress, reason: ExitReason },
    Link { a: ActorAddress, b: ActorAddress },
    Unlink { a: ActorAddress, b: ActorAddress },
}

/// A supervision event with the correlation id that pairs requests and replies.
#[derive(Debug, Clone)]
pub struct SupervisionEnvelope {
    pub correlation_id: u64,
    pub event: SupervisionEvent,
}

/// Whether address `a` lives on the node named `local`.
pub open spec fn on_node(a: AddressView, local: Seq<char>) -> bool {
    a.node is None || a.node == Some(local)
}

/// Whether `a` lives on node `local`.
pub fn address_on(a: &ActorAddress, local: &NodeId) -> (b: bool)
    ensures
        b == on_node(a@, local@),
{
    match &a.locality {
        Locality::Local => true,
        Locality::Remote(n) => n.same_as(local),
    }
}

/// The node an event must be delivered to, as a locality: `None` when the
/// event is never routed (links and spawn replies travel otherwise).
pub open spec fn event_route(e: SupervisionEvent) -> Option<Option<Seq<char>>> {
    match e {
        SupervisionEvent::SpawnRequest { placement, .. } => Some(Some(placement@)),
        SupervisionEvent::Signal { target, .. } => Some(target@.node),
        SupervisionEvent::ChildExit { parent, .. } => Some(parent@.node),
        SupervisionEvent::Down { owner, .. } => Some(owner@.node),
        SupervisionEvent::Monitor { target, .. } => Some(target@.node),
        SupervisionEvent::Demonitor { target, .. } => Some(target@.node),
        _ => None,
    }
}

/// Node that should receive this supervision event, when it is routed.
pub fn route_node(event: &SupervisionEvent) -> (r: Option<Locality>)
    ensures
        match r {
            Some(l) => event_route(*event) == Some(locality_view(l)),
            None => event_route(*event) is None,
        },
{
    match event {
        SupervisionEvent::SpawnRequest { placement, .. } => Some(Locality::Remote(placement.duplicate())),
        SupervisionEvent::Signal { target, .. } => Some(target.locality.clone_locality()),
        SupervisionEvent::ChildExit { parent, .. } => Some(parent.locality.clone_locality()),
        SupervisionEvent::Down { owner, .. } => Some(owner.locality.clone_locality()),
        SupervisionEvent::Monitor { target, .. } => Some(target.locality.clone_locality()),
        SupervisionEvent::Demonitor { target, .. } => Some(target.locality.clone_locality()),
        _ => None,
    }
}

/// A demonitor travels where the monitor it cancels went: both go to the
/// target's node, whose broker holds the monitor, wherever the owner is.
pub proof fn lemma_demonitor_follows_monitor(owner: ActorAddress, target: ActorAddress, monitor_ref: u64)
    ensures
        event_route(SupervisionEvent::Demonitor { owner, target, monitor_ref })
            == event_route(SupervisionEvent::Monitor { owner, target, monitor_ref }),
        event_route(SupervisionEvent::Demonitor { owner, target, monitor_ref }) == Some(target@.node),
{
}

/// Where a published envelope goes.
#[derive(Debug)]
pub enum Route {
    /// Not routed: dropped.
    Drop,
    /// Applied by this node's broker.
    Local,
    /// Sent to the named remote node.
    Remote(NodeId),
}

/// Decide where an envelope published on node `local` goes: nowhere when the
/// event is not routed, to the local broker when it targets this node, else
/// to the target node.
pub fn route(local: &NodeId, event: &SupervisionEvent) -> (r: Route)
    ensures
        match event_route(*event) {
            None => r is Drop,
            Some(None) => r is Local,
            Some(Some(n)) => if n == local@ {
                r is Local
            } else {
                r matches Route::Remote(m) && m@ == n
            },
        },
{
    match route_node(event) {
        None => Route::Drop,
        Some(Locality::Local) => Route::Local,
        Some(Locality::Remote(n)) => {
            if n.same_as(local) {
                Route::Local
            } else {
                Route::Remote(n)
            }
        },
    }
}

/// Publish an envelope from node `local`: an event that is not routed is
/// dropped; one that targets this node goes to `apply_local`; any other goes
/// to `send_remote` with its target node. Their error is passed on.
pub fn publish_routed<E, A, S>(local: &NodeId, envelope: SupervisionEnvelope, apply_local: A, send_remote: S) -> (r: Result<(), E>)
    where
        A: FnOnce(SupervisionEnvelope) -> Result<(), E>,
        S: FnOnce(NodeId, SupervisionEnvelope) -> Result<(), E>,
    requires
        apply_local.requires((envelope,)),
        forall|n: NodeId| send_remote.requires((n, envelope)),
    ensures
        match event_route(envelope.event) {
            None => r is Ok,
            Some(None) => call_ensures(apply_local, (envelope,), r),
            Some(Some(n)) => if n == local@ {
                call_ensures(apply_local, (envelope,), r)
            } else {
                exists|m: NodeId| m@ == n && #[trigger] call_ensures(send_remote, (m, envelope), r)
            },
        },
{
    match route(local, &envelope.event) {
        Route::Drop => Ok(()),
        Route::Local => apply_local(envelope),
        Route::Remote(n) => send_remote(n, envelope),
    }
}

/// Envelope that reports a child's exit to its parent.
pub fn child_exit_envelope(child: ActorAddress, parent: ActorAddress, reason: ExitReason) -> (e: SupervisionEnvelope)
    ensures
        e.correlation_id == 0,
        e.event == (SupervisionEvent::ChildExit { child, parent, reason }),
{
    SupervisionEnvelope { correlation_id: 0, event: SupervisionEvent::ChildExit { child, parent, reason } }
}

/// Envelope that installs a link between `a` and `b`.
pub fn link_envelope(a: ActorAddress, b: ActorAddress) -> (e: SupervisionEnvelope)
    ensures
        e.correlation_id == 0,
        e.event == (SupervisionEvent::Link { a, b }),
{
    SupervisionEnvelope { correlation_id: 0, event: SupervisionEvent::Link { a, b } }
}

/// Envelope that cancels a link between `a` and `b`.
pub fn unlink_envelope(a: ActorAddress, b: ActorAddress) -> (e: SupervisionEnvelope)
    ensures
        e.correlation_id == 0,
        e.event == (SupervisionEvent::Unlink { a, b }),
{
    SupervisionEnvelope { correlation_id: 0, event: SupervisionEvent::Unlink { a, b } }
}

/// Envelope that installs a monitor of `target` owned by `owner`.
pub fn monitor_envelope(owner: ActorAddress, target: ActorAddress, monitor_ref: u64) -> (e: SupervisionEnvelope)
    ensures
        e.correlation_id == 0,
        e.event == (SupervisionEvent::Monitor { owner, target, monitor_ref }),
{
    SupervisionEnvelope { correlation_id: 0, event: SupervisionEvent::Monitor { owner, target, monitor_ref } }
}

/// Envelope that cancels a monitor.
pub fn demonitor_envelope(owner: ActorAddress, target: ActorAddress, monitor_ref: u64) -> (e: SupervisionEnvelope)
    ensures
        e.correlation_id == 0,
        e.event == (SupervisionEvent::Demonitor { owner, target, monitor_ref }),
{
    SupervisionEnvelope { correlation_id: 0, event: SupervisionEvent::Demonitor { owner, target, monitor_ref } }
}

/// Envelope that tells a monitor's owner that the monitored actor exited.
pub fn down_envelope(owner: ActorAddress, monitor_ref: u64, child: ActorAddress, reason: ExitReason) -> (e: SupervisionEnvelope)
    ensures
        e.correlation_id == 0,
        e.event == (SupervisionEvent::Down { owner, monitor_ref, child, reason }),
{
    SupervisionEnvelope { correlation_id: 0, event: SupervisionEvent::Down { owner, monitor_ref, child, reason } }
}

/// Envelope that asks the `placement` node to spawn a child of `parent`.
pub fn spawn_request_envelope(
    correlation_id: u64,
    parent: ActorAddress,
    placement: NodeId,
    spec: RemoteSpawnSpec,
    link: bool,
) -> (e: SupervisionEnvelope)
    ensures
        e.correlation_id == correlation_id,
        e.event == (SupervisionEvent::SpawnRequest { parent, placement, spec, link }),
{
    SupervisionEnvelope { correlation_id, event: SupervisionEvent::SpawnRequest { parent, placement, spec, link } }
}

/// The address of the actor with id `id` on node `local`.
pub fn address_on_node(local: &NodeId, id: ActorId) -> (a: ActorAddress)
    ensures
        a@.node == Some(local@),
        a@.actor == id@,
        a.actor_id == id,
{
    ActorAddress::on(local.duplicate(), id)
}


/// `ChildExit` envelopes that tell every remote link peer of local actor
/// `actor_id` that it exited with `reason`, in the peers' order.
pub fn remote_link_exits(actor_id: ActorId, peers: &Vec<ActorAddress>, reason: &ExitReason) -> (r: Vec<SupervisionEnvelope>)
    ensures
        r@.len() == peers@.len(),
        forall|k: int| 0 <= k < r@.len() ==> #[trigger] r@[k] == (SupervisionEnvelope {
            correlation_id: 0,
            event: SupervisionEvent::ChildExit {
                child: ActorAddress { locality: Locality::Local, actor_id },
                parent: peers@[k],
                reason: *reason,
            },
        }),
{
    let mut out: Vec<SupervisionEnvelope> = Vec::new();
    let mut i: usize = 0;
    while i < peers.len()
        invariant
            i <= peers.len(),
            out@.len() == i,
            forall|k: int| 0 <= k < i ==> #[trigger] out@[k] == (SupervisionEnvelope {
                correlation_id: 0,
                event: SupervisionEvent::ChildExit {
                    child: ActorAddress { locality: Locality::Local, actor_id },
                    parent: peers@[k],
                    reason: *reason,
                },
            }),
        decreases peers.len() - i,
    {
        out.push(child_exit_envelope(ActorAddress::local(actor_id), peers[i].duplicate(), reason.duplicate()));
        i = i + 1;
    }
    out
}

} // verus!
