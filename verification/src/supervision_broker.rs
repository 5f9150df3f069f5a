use vstd::prelude::*;
use std::collections::{HashMap, HashSet};
use crate::error::ExitReason;
use crate::ids::{ActorAddress, ActorId, AddressView, Locality, NodeId};
use crate::dynamic_supervisor::{decimal, decimal_string};
use vstd::string::StringExecFns;
use crate::supervision::{
    RemoteSpawnSpec, SupervisionEnvelope, SupervisionEvent, SupervisionSignal, address_on,
    address_on_node, child_exit_envelope, down_envelope, on_node,
};

verus! {

broadcast use vstd::std_specs::hash::group_hash_axioms;

/// Which broker operation refused an envelope or a registration.
#[derive(Debug, Clone, Copy, PartialEq, Eq, Structural)]
pub enum BrokerOp {
    Register,
    DownOwner,
    Signal,
    ChildExit,
    Monitor,
    Down,
    Link,
}

/// Why the broker refused an envelope or a registration.
#[derive(Debug, Clone)]
pub enum BrokerError {
    /// The actor the operation is about lives on another node.
    NotLocal { op: BrokerOp, node: NodeId },
    /// No local actor with this id is known to the broker.
    UnknownActor { op: BrokerOp, actor: ActorId },
    /// A registration whose handle belongs to another actor than its address.
    HandleMismatch { handle: ActorId, address: ActorId },
    /// A link of which neither end lives on this node.
    LinkNotLocal { a: ActorAddress, b: ActorAddress },
    /// No broker is installed on this node.
    NotInstalled,
}

/// Name of the node `a` lives on, `local` for an address on this node.
pub open spec fn node_text(a: ActorAddress, local: Seq<char>) -> Seq<char> {
    match a.locality {
        Locality::Local => local,
        Locality::Remote(n) => n@,
    }
}

/// `prefix`, the node `node`, `middle`, this node's name `local`, then `)`.
pub open spec fn node_phrase(prefix: Seq<char>, node: Seq<char>, middle: Seq<char>, local: Seq<char>) -> Seq<char> {
    prefix + node + middle + local + ")"@
}

/// Text of a broker refusal on node `local`.
pub open spec fn broker_error_text(e: BrokerError, local: Seq<char>) -> Seq<char> {
    match e {
        BrokerError::NotLocal { op, node } => match op {
            BrokerOp::Register => node_phrase("supervision register: address "@, node@, " is not local ("@, local),
            BrokerOp::DownOwner => node_phrase("down owner "@, node@, " is not local ("@, local),
            BrokerOp::Signal => node_phrase("supervision signal target "@, node@, " is not on this node ("@, local),
            BrokerOp::ChildExit => node_phrase("ChildExit parent "@, node@, " is not on this node ("@, local),
            BrokerOp::Monitor => node_phrase("Monitor target "@, node@, " is not on this node ("@, local),
            BrokerOp::Down => node_phrase("Down owner "@, node@, " is not on this node ("@, local),
            BrokerOp::Link => node_phrase("Link: "@, node@, " is not on this node ("@, local),
        },
        BrokerError::UnknownActor { op, actor } => match op {
            BrokerOp::Register => "supervision register: unknown local actor "@ + decimal(actor@ as nat),
            BrokerOp::DownOwner => "down owner: unknown local actor "@ + decimal(actor@ as nat),
            BrokerOp::Signal => "supervision signal: unknown local actor "@ + decimal(actor@ as nat),
            BrokerOp::ChildExit => "ChildExit: unknown local parent actor "@ + decimal(actor@ as nat),
            BrokerOp::Monitor => "Monitor: unknown local target actor "@ + decimal(actor@ as nat),
            BrokerOp::Down => "Down: unknown local owner actor "@ + decimal(actor@ as nat),
            BrokerOp::Link => "Link: unknown local actor "@ + decimal(actor@ as nat),
        },
        BrokerError::HandleMismatch { handle, address } =>
            "supervision register: handle id "@ + decimal(handle@ as nat) + " does not match address "@
                + decimal(address@ as nat),
        BrokerError::LinkNotLocal { a, b } =>
            node_phrase("Link: neither "@ + node_text(a, local) + " nor "@, node_text(b, local), " is on this node ("@, local),
        BrokerError::NotInstalled => "supervision broker not installed"@,
    }
}

fn phrase(prefix: &str, node: &str, middle: &str, local: &NodeId) -> (s: String)
    ensures
        s@ == node_phrase(prefix@, node@, middle@, local@),
{
    let mut s = prefix.to_owned();
    s.append(node);
    s.append(middle);
    s.append(local.name.as_str());
    s.append(")");
    s
}

fn with_number(prefix: &str, n: ActorId) -> (s: String)
    ensures
        s@ == prefix@ + decimal(n@ as nat),
{
    let mut s = prefix.to_owned();
    let d = decimal_string(n.raw());
    s.append(d.as_str());
    s
}

fn address_node_name(a: &ActorAddress, local: &NodeId) -> (s: String)
    ensures
        s@ == node_text(*a, local@),
{
    match &a.locality {
        Locality::Local => local.name.clone(),
        Locality::Remote(n) => n.name.clone(),
    }
}

impl BrokerError {
    /// The refusal's text on the broker of node `local`.
    pub fn message(&self, local: &NodeId) -> (s: String)
        ensures
            s@ == broker_error_text(*self, local@),
    {
        match self {
            BrokerError::NotLocal { op, node } => {
                let n = node.name.as_str();
                match op {
                    BrokerOp::Register => phrase("supervision register: address ", n, " is not local (", local),
                    BrokerOp::DownOwner => phrase("down owner ", n, " is not local (", local),
                    BrokerOp::Signal => phrase("supervision signal target ", n, " is not on this node (", local),
                    BrokerOp::ChildExit => phrase("ChildExit parent ", n, " is not on this node (", local),
                    BrokerOp::Monitor => phrase("Monitor target ", n, " is not on this node (", local),
                    BrokerOp::Down => phrase("Down owner ", n, " is not on this node (", local),
                    BrokerOp::Link => phrase("Link: ", n, " is not on this node (", local),
                }
            },
            BrokerError::UnknownActor { op, actor } => match op {
                BrokerOp::Register => with_number("supervision register: unknown local actor ", *actor),
                BrokerOp::DownOwner => with_number("down owner: unknown local actor ", *actor),
                BrokerOp::Signal => with_number("supervision signal: unknown local actor ", *actor),
                BrokerOp::ChildExit => with_number("ChildExit: unknown local parent actor ", *actor),
                BrokerOp::Monitor => with_number("Monitor: unknown local target actor ", *actor),
                BrokerOp::Down => with_number("Down: unknown local owner actor ", *actor),
                BrokerOp::Link => with_number("Link: unknown local actor ", *actor),
            },
            BrokerError::HandleMismatch { handle, address } => {
                let mut s = with_number("supervision register: handle id ", *handle);
                s.append(" does not match address ");
                let d = decimal_string(address.raw());
                s.append(d.as_str());
                s
            },
            BrokerError::LinkNotLocal { a, b } => {
                let mut head = "Link: neither ".to_owned();
                let an = address_node_name(a, local);
                head.append(an.as_str());
                head.append(" nor ");
                let bn = address_node_name(b, local);
                phrase(head.as_str(), bn.as_str(), " is on this node (", local)
            },
            BrokerError::NotInstalled => "supervision broker not installed".to_owned(),
        }
    }
}

/// A remote monitor installed on this node: its owner and its reference.
#[derive(Debug, Clone)]
pub struct MonitorKey {
    pub owner: ActorAddress,
    pub monitor_ref: u64,
}

/// Abstract value of a monitor key.
pub open spec fn key_view(k: MonitorKey) -> (AddressView, u64) {
    (k.owner@, k.monitor_ref)
}

/// Abstract value of a list of addresses.
pub open spec fn addresses_view(v: Vec<ActorAddress>) -> Seq<AddressView> {
    v@.map_values(|a: ActorAddress| a@)
}

/// Abstract state of a supervision broker.
pub struct BrokerView<H, D> {
    /// Name of this node.
    pub local: Seq<char>,
    /// Handles of the local actors registered for inbound supervision.
    pub handles: Map<u64, H>,
    /// Remote parent of each locally spawned child.
    pub parents: Map<u64, ActorAddress>,
    /// Remote monitors installed on local actors.
    pub monitors: Seq<(AddressView, u64)>,
    /// Local actors that receive remote `Down` messages.
    pub down_owners: Map<u64, D>,
    /// Exit reasons of spawned children that have exited.
    pub exited: Map<u64, ExitReason>,
    /// Remote link peers of each local actor.
    pub link_peers: Map<u64, Seq<AddressView>>,
    /// Local actors whose exit is being watched for their link peers.
    pub link_waits: Set<u64>,
    /// The broker's own handle (the parent of linked spawns), once known.
    pub broker_handle: Option<H>,
}

/// Per-node supervision broker state: the local actors it serves and the
/// remote monitors and links installed on them.
pub struct SupervisionBrokerInner<H, D> {
    local: NodeId,
    handles: HashMap<u64, H>,
    parents: HashMap<u64, ActorAddress>,
    monitors: Vec<MonitorKey>,
    down_owners: HashMap<u64, D>,
    exited: HashMap<u64, ExitReason>,
    link_peers: HashMap<u64, Vec<ActorAddress>>,
    link_waits: HashSet<u64>,
    broker_handle: Option<H>,
}

impl<H, D> View for SupervisionBrokerInner<H, D> {
    type V = BrokerView<H, D>;

    closed spec fn view(&self) -> BrokerView<H, D> {
        BrokerView {
            local: self.local@,
            handles: self.handles@,
            parents: self.parents@,
            monitors: self.monitors@.map_values(|k: MonitorKey| key_view(k)),
            down_owners: self.down_owners@,
            exited: self.exited@,
            link_peers: self.link_peers@.map_values(|v: Vec<ActorAddress>| addresses_view(v)),
            link_waits: self.link_waits@,
            broker_handle: self.broker_handle,
        }
    }
}

/// What the runtime must do after the broker took an envelope.
#[derive(Debug)]
pub enum BrokerStep {
    /// Nothing more.
    Done,
    /// Send this reply to the requesting node.
    Reply(SupervisionEnvelope),
    /// Publish this envelope.
    Publish(SupervisionEnvelope),
    /// Start the requested child here, then report with `finish_spawn`.
    Spawn { correlation_id: u64, parent: ActorAddress, spec: RemoteSpawnSpec, link: bool },
    /// Deliver this signal to the local actor.
    Signal { actor: ActorId, signal: SupervisionSignal },
    /// Complete any remote shutdown wait of `from`, then deliver its exit to
    /// the local parent.
    DeliverExit { to: ActorId, from: ActorAddress, reason: ExitReason },
    /// Deliver a `Down` message to the local owner.
    DeliverDown { owner: ActorId, monitor_ref: u64, reason: ExitReason },
    /// Watch the local target's exit for this monitor, then report with
    /// `monitor_fired`.
    WatchMonitor { owner: ActorAddress, target: ActorAddress, monitor_ref: u64 },
    /// Watch the local actor's exit for its link peers, then report with
    /// `link_exit_fired`.
    WatchLinks { local: ActorAddress },
}

impl<H, D> SupervisionBrokerInner<H, D> {
    /// An empty broker for node `local`.
    pub fn new(local: NodeId) -> (b: Self)
        ensures
            b@.local == local@,
            b@.handles == Map::<u64, H>::empty(),
            b@.parents == Map::<u64, ActorAddress>::empty(),
            b@.monitors == Seq::<(AddressView, u64)>::empty(),
            b@.down_owners == Map::<u64, D>::empty(),
            b@.exited == Map::<u64, ExitReason>::empty(),
            b@.link_peers == Map::<u64, Seq<AddressView>>::empty(),
            b@.link_waits == Set::<u64>::empty(),
            b@.broker_handle is None,
    {
        let b = SupervisionBrokerInner {
            local,
            handles: HashMap::new(),
            parents: HashMap::new(),
            monitors: Vec::new(),
            down_owners: HashMap::new(),
            exited: HashMap::new(),
            link_peers: HashMap::new(),
            link_waits: HashSet::new(),
            broker_handle: None,
        };
        assert(b@.monitors =~= Seq::<(AddressView, u64)>::empty());
        assert(b@.link_peers =~= Map::<u64, Seq<AddressView>>::empty());
        b
    }

    /// This broker's node.
    pub fn local_node(&self) -> (n: &NodeId)
        ensures
            n@ == self@.local,
    {
        &self.local
    }

    /// A copy of the handle of a registered local actor.
    pub fn local_handle(&self, actor_id: ActorId) -> (r: Option<H>)
        where
            H: Clone,
        ensures
            match r {
                Some(h) => self@.handles.contains_key(actor_id@) && cloned(self@.handles[actor_id@], h),
                None => !self@.handles.contains_key(actor_id@),
            },
    {
        match self.handles.get(&actor_id.raw()) {
            Some(h) => Some(h.clone()),
            None => None,
        }
    }

    /// The delivery callback of a local `Down` owner.
    pub fn down_owner(&self, actor_id: ActorId) -> (r: Option<&D>)
        ensures
            match r {
                Some(d) => self@.down_owners.contains_key(actor_id@) && *d == self@.down_owners[actor_id@],
                None => !self@.down_owners.contains_key(actor_id@),
            },
    {
        self.down_owners.get(&actor_id.raw())
    }

    /// The broker's own handle, the parent of linked spawns, once known.
    pub fn broker_handle(&self) -> (r: Option<&H>)
        ensures
            match r {
                Some(h) => self@.broker_handle == Some(*h),
                None => self@.broker_handle is None,
            },
    {
        self.broker_handle.as_ref()
    }

    /// Record the broker's own handle.
    pub fn set_broker_handle(&mut self, handle: H)
        ensures
            final(self)@ == (BrokerView { broker_handle: Some(handle), ..old(self)@ }),
    {
        self.broker_handle = Some(handle);
        assert(self@.monitors =~= old(self)@.monitors);
        assert(self@.link_peers =~= old(self)@.link_peers);
    }
}


/// The node of an address that does not live on this node.
fn remote_node_of(a: &ActorAddress) -> (n: NodeId)
    requires
        a@.node is Some,
    ensures
        a@.node == Some(n@),
{
    match &a.locality {
        Locality::Remote(n) => n.duplicate(),
        Locality::Local => NodeId::new(String::new()),
    }
}

/// `r` is the refusal of `op` because `a` lives on another node.
pub open spec fn refused_not_local<T>(r: Result<T, BrokerError>, op: BrokerOp, a: AddressView) -> bool {
    r matches Err(BrokerError::NotLocal { op: o, node }) && o == op && a.node == Some(node@)
}

/// `r` is the refusal of `op` because no local actor `actor` is known.
pub open spec fn refused_unknown<T>(r: Result<T, BrokerError>, op: BrokerOp, actor: ActorId) -> bool {
    r matches Err(BrokerError::UnknownActor { op: o, actor: x }) && o == op && x == actor
}

/// Outcome of registering a local actor for inbound supervision.
pub open spec fn registered_actor<H, D>(
    pre: BrokerView<H, D>,
    address: ActorAddress,
    handle_id: ActorId,
    handle: H,
    post: BrokerView<H, D>,
    r: Result<(), BrokerError>,
) -> bool {
    if !on_node(address@, pre.local) {
        refused_not_local(r, BrokerOp::Register, address@) && post == pre
    } else if handle_id != address.actor_id {
        r matches Err(BrokerError::HandleMismatch { handle, address: a })
            && handle == handle_id && a == address.actor_id && post == pre
    } else {
        r is Ok && post == (BrokerView { handles: pre.handles.insert(handle_id@, handle), ..pre })
    }
}

impl<H, D> SupervisionBrokerInner<H, D> {
    /// Register a local actor for inbound signals and child-exit delivery;
    /// refused when the address is not on this node or the handle belongs to
    /// another actor.
    pub fn register(&mut self, address: &ActorAddress, handle_id: ActorId, handle: H) -> (r: Result<(), BrokerError>)
        ensures
            registered_actor(old(self)@, *address, handle_id, handle, final(self)@, r),
    {
        if !address_on(address, &self.local) {
            return Err(BrokerError::NotLocal { op: BrokerOp::Register, node: remote_node_of(address) });
        }
        if handle_id != address.actor_id {
            return Err(BrokerError::HandleMismatch { handle: handle_id, address: address.actor_id });
        }
        self.handles.insert(handle_id.raw(), handle);
        assert(self@.monitors =~= old(self)@.monitors);
        assert(self@.link_peers =~= old(self)@.link_peers);
        assert(self@.handles =~= old(self)@.handles.insert(handle_id@, handle));
        Ok(())
    }

    /// Register a local actor to receive remote `Down` messages through
    /// `send_down`; refused when the address is not on this node.
    pub fn register_down_owner(&mut self, address: &ActorAddress, send_down: D) -> (r: Result<(), BrokerError>)
        ensures
            !on_node(address@, old(self)@.local) ==> refused_not_local(r, BrokerOp::DownOwner, address@)
                && final(self)@ == old(self)@,
            on_node(address@, old(self)@.local) ==> r is Ok && final(self)@ == (BrokerView {
                down_owners: old(self)@.down_owners.insert(address@.actor, send_down),
                ..old(self)@
            }),
    {
        if !address_on(address, &self.local) {
            return Err(BrokerError::NotLocal { op: BrokerOp::DownOwner, node: remote_node_of(address) });
        }
        self.down_owners.insert(address.actor_id.raw(), send_down);
        assert(self@.monitors =~= old(self)@.monitors);
        assert(self@.link_peers =~= old(self)@.link_peers);
        Ok(())
    }

    /// Forget a local actor: its handle and its remote parent.
    pub fn unregister(&mut self, actor_id: ActorId)
        ensures
            final(self)@ == (BrokerView {
                handles: old(self)@.handles.remove(actor_id@),
                parents: old(self)@.parents.remove(actor_id@),
                ..old(self)@
            }),
    {
        self.handles.remove(&actor_id.raw());
        self.parents.remove(&actor_id.raw());
        assert(self@.monitors =~= old(self)@.monitors);
        assert(self@.link_peers =~= old(self)@.link_peers);
    }
}


/// Text of the refusal of a spawn request placed on another node.
pub open spec fn placement_mismatch_text(placement: Seq<char>, local: Seq<char>) -> Seq<char> {
    "placement node "@ + placement + " does not match local node "@ + local
}

/// Text of the refusal of a linked spawn before the broker knows its own handle.
pub open spec fn broker_not_ready_text() -> Seq<char> {
    "supervision broker not ready"@
}

fn placement_mismatch_message(placement: &NodeId, local: &NodeId) -> (s: String)
    ensures
        s@ == placement_mismatch_text(placement@, local@),
{
    let mut s = "placement node ".to_owned();
    s.append(placement.name.as_str());
    s.append(" does not match local node ");
    s.append(local.name.as_str());
    s
}

/// `e` is the reply to request `correlation_id` refusing the spawn with `text`.
pub open spec fn is_spawn_err(e: SupervisionEnvelope, correlation_id: u64, text: Seq<char>) -> bool {
    &&& e.correlation_id == correlation_id
    &&& e.event matches SupervisionEvent::SpawnErr { error } && error@ == text
}

/// Outcome of a spawn request placed on `placement`.
pub open spec fn spawn_requested<H, D>(
    pre: BrokerView<H, D>,
    correlation_id: u64,
    parent: ActorAddress,
    placement: NodeId,
    spec: RemoteSpawnSpec,
    link: bool,
    r: Result<BrokerStep, BrokerError>,
) -> bool {
    if placement@ != pre.local {
        r matches Ok(BrokerStep::Reply(e)) && is_spawn_err(e, correlation_id, placement_mismatch_text(placement@, pre.local))
    } else if link && pre.broker_handle is None {
        r matches Ok(BrokerStep::Reply(e)) && is_spawn_err(e, correlation_id, broker_not_ready_text())
    } else {
        r == Ok::<BrokerStep, BrokerError>(BrokerStep::Spawn { correlation_id, parent, spec, link })
    }
}

/// Outcome of a signal for `target`.
pub open spec fn signal_requested<H, D>(
    pre: BrokerView<H, D>,
    target: ActorAddress,
    signal: SupervisionSignal,
    r: Result<BrokerStep, BrokerError>,
) -> bool {
    if !on_node(target@, pre.local) {
        refused_not_local(r, BrokerOp::Signal, target@)
    } else if !pre.handles.contains_key(target@.actor) {
        refused_unknown(r, BrokerOp::Signal, target.actor_id)
    } else {
        r == Ok::<BrokerStep, BrokerError>(BrokerStep::Signal { actor: target.actor_id, signal })
    }
}

/// Outcome of a child-exit report for the local `parent`.
pub open spec fn child_exit_reported<H, D>(
    pre: BrokerView<H, D>,
    child: ActorAddress,
    parent: ActorAddress,
    reason: ExitReason,
    r: Result<BrokerStep, BrokerError>,
) -> bool {
    if !on_node(parent@, pre.local) {
        refused_not_local(r, BrokerOp::ChildExit, parent@)
    } else if !pre.handles.contains_key(parent@.actor) {
        refused_unknown(r, BrokerOp::ChildExit, parent.actor_id)
    } else {
        r == Ok::<BrokerStep, BrokerError>(BrokerStep::DeliverExit { to: parent.actor_id, from: child, reason })
    }
}

/// Outcome of a `Down` message for the local `owner`.
pub open spec fn down_reported<H, D>(
    pre: BrokerView<H, D>,
    owner: ActorAddress,
    monitor_ref: u64,
    reason: ExitReason,
    r: Result<BrokerStep, BrokerError>,
) -> bool {
    if !on_node(owner@, pre.local) {
        refused_not_local(r, BrokerOp::Down, owner@)
    } else if !pre.down_owners.contains_key(owner@.actor) {
        refused_unknown(r, BrokerOp::Down, owner.actor_id)
    } else {
        r == Ok::<BrokerStep, BrokerError>(BrokerStep::DeliverDown { owner: owner.actor_id, monitor_ref, reason })
    }
}

impl<H, D> SupervisionBrokerInner<H, D> {
    fn apply_spawn(
        &self,
        correlation_id: u64,
        parent: ActorAddress,
        placement: NodeId,
        spec: RemoteSpawnSpec,
        link: bool,
    ) -> (r: Result<BrokerStep, BrokerError>)
        ensures
            spawn_requested(self@, correlation_id, parent, placement, spec, link, r),
    {
        if !placement.same_as(&self.local) {
            let error = placement_mismatch_message(&placement, &self.local);
            return Ok(BrokerStep::Reply(SupervisionEnvelope { correlation_id, event: SupervisionEvent::SpawnErr { error } }));
        }
        if link && self.broker_handle.is_none() {
            let error = "supervision broker not ready".to_owned();
            return Ok(BrokerStep::Reply(SupervisionEnvelope { correlation_id, event: SupervisionEvent::SpawnErr { error } }));
        }
        Ok(BrokerStep::Spawn { correlation_id, parent, spec, link })
    }

    /// Report the outcome of a spawn the broker asked for: a started child is
    /// registered with its remote parent and acknowledged; a failure is
    /// replied with its message.
    pub fn finish_spawn(
        &mut self,
        correlation_id: u64,
        parent: ActorAddress,
        outcome: Result<(ActorId, H), String>,
    ) -> (reply: SupervisionEnvelope)
        ensures
            reply.correlation_id == correlation_id,
            match outcome {
                Ok((id, h)) => {
                    &&& (reply.event matches SupervisionEvent::SpawnOk { child }
                        && child@.node == Some(old(self)@.local) && child.actor_id == id)
                    &&& final(self)@ == spawn_registered(old(self)@, id@, h, parent)
                },
                Err(e) => reply.event == (SupervisionEvent::SpawnErr { error: e }) && final(self)@ == old(self)@,
            },
    {
        match outcome {
            Ok((id, h)) => {
                let child = address_on_node(&self.local, id);
                self.handles.insert(id.raw(), h);
                self.parents.insert(id.raw(), parent);
                assert(self@.monitors =~= old(self)@.monitors);
                assert(self@.link_peers =~= old(self)@.link_peers);
                SupervisionEnvelope { correlation_id, event: SupervisionEvent::SpawnOk { child } }
            },
            Err(error) => SupervisionEnvelope { correlation_id, event: SupervisionEvent::SpawnErr { error } },
        }
    }

    fn apply_signal(&self, target: ActorAddress, signal: SupervisionSignal) -> (r: Result<BrokerStep, BrokerError>)
        ensures
            signal_requested(self@, target, signal, r),
    {
        if !address_on(&target, &self.local) {
            return Err(BrokerError::NotLocal { op: BrokerOp::Signal, node: remote_node_of(&target) });
        }
        if !self.handles.contains_key(&target.actor_id.raw()) {
            return Err(BrokerError::UnknownActor { op: BrokerOp::Signal, actor: target.actor_id });
        }
        Ok(BrokerStep::Signal { actor: target.actor_id, signal })
    }

    fn apply_child_exit(&self, child: ActorAddress, parent: ActorAddress, reason: ExitReason) -> (r: Result<BrokerStep, BrokerError>)
        ensures
            child_exit_reported(self@, child, parent, reason, r),
    {
        if !address_on(&parent, &self.local) {
            return Err(BrokerError::NotLocal { op: BrokerOp::ChildExit, node: remote_node_of(&parent) });
        }
        if !self.handles.contains_key(&parent.actor_id.raw()) {
            return Err(BrokerError::UnknownActor { op: BrokerOp::ChildExit, actor: parent.actor_id });
        }
        Ok(BrokerStep::DeliverExit { to: parent.actor_id, from: child, reason })
    }

    fn apply_down(&self, owner: ActorAddress, monitor_ref: u64, reason: ExitReason) -> (r: Result<BrokerStep, BrokerError>)
        ensures
            down_reported(self@, owner, monitor_ref, reason, r),
    {
        if !address_on(&owner, &self.local) {
            return Err(BrokerError::NotLocal { op: BrokerOp::Down, node: remote_node_of(&owner) });
        }
        if !self.down_owners.contains_key(&owner.actor_id.raw()) {
            return Err(BrokerError::UnknownActor { op: BrokerOp::Down, actor: owner.actor_id });
        }
        Ok(BrokerStep::DeliverDown { owner: owner.actor_id, monitor_ref, reason })
    }
}


/// `s` with every occurrence of `x` taken out, the rest in order.
pub open spec fn without<T>(s: Seq<T>, x: T) -> Seq<T>
    decreases s.len(),
{
    if s.len() == 0 {
        s
    } else {
        let rest = without(s.drop_last(), x);
        if s.last() == x {
            rest
        } else {
            rest.push(s.last())
        }
    }
}

/// `s` with `x` added at the end unless it already occurs.
pub open spec fn with_unique<T>(s: Seq<T>, x: T) -> Seq<T> {
    if s.contains(x) {
        s
    } else {
        s.push(x)
    }
}

/// Taking `x` out keeps every other element and no `x`.
pub proof fn lemma_without_contains<T>(s: Seq<T>, x: T, y: T)
    ensures
        without(s, x).contains(y) <==> (s.contains(y) && y != x),
    decreases s.len(),
{
    if s.len() > 0 {
        lemma_without_contains(s.drop_last(), x, y);
        let rest = without(s.drop_last(), x);
        if s.contains(y) && y != x {
            let i = choose|i: int| 0 <= i < s.len() && s[i] == y;
            if i < s.len() - 1 {
                assert(s.drop_last()[i] == y);
            }
        }
        if without(s, x).contains(y) {
            if s.last() != x {
                if rest.push(s.last()).contains(y) && !rest.contains(y) {
                    let j = choose|j: int| 0 <= j < rest.push(s.last()).len() && rest.push(s.last())[j] == y;
                    assert(j == rest.len());
                    assert(s[s.len() - 1] == y);
                }
            }
            if rest.contains(y) {
                let j = choose|j: int| 0 <= j < s.drop_last().len() && s.drop_last()[j] == y;
                assert(s[j] == y);
            }
        }
        if s.contains(y) && y != x && s.last() != x {
            assert(rest.push(s.last())[rest.len() as int] == s.last());
            if !rest.contains(y) {
                let i = choose|i: int| 0 <= i < s.len() && s[i] == y;
                if i < s.len() - 1 {
                    assert(s.drop_last()[i] == y);
                } else {
                    assert(rest.push(s.last())[rest.len() as int] == y);
                }
            } else {
                let j = choose|j: int| 0 <= j < rest.len() && rest[j] == y;
                assert(rest.push(s.last())[j] == y);
            }
        }
    }
}

/// Adding `x` at the end adds exactly `x` to what a sequence contains.
pub proof fn lemma_push_contains<T>(s: Seq<T>, x: T, y: T)
    ensures
        s.push(x).contains(y) <==> (s.contains(y) || x == y),
{
    if s.contains(y) {
        let j = choose|j: int| 0 <= j < s.len() && s[j] == y;
        assert(s.push(x)[j] == y);
    }
    if x == y {
        assert(s.push(x)[s.len() as int] == y);
    }
    if s.push(x).contains(y) && x != y {
        let j = choose|j: int| 0 <= j < s.push(x).len() && s.push(x)[j] == y;
        assert(j < s.len());
        assert(s[j] == y);
    }
}

/// Remove every monitor with key `(owner, monitor_ref)`; says whether there was one.
fn remove_monitor_key(v: &mut Vec<MonitorKey>, owner: &ActorAddress, monitor_ref: u64) -> (found: bool)
    ensures
        final(v)@.map_values(|k: MonitorKey| key_view(k)) == without(old(v)@.map_values(|k: MonitorKey| key_view(k)), (owner@, monitor_ref)),
        found == old(v)@.map_values(|k: MonitorKey| key_view(k)).contains((owner@, monitor_ref)),
{
    let ghost key = (owner@, monitor_ref);
    let ghost s = old(v)@.map_values(|k: MonitorKey| key_view(k));
    let mut out: Vec<MonitorKey> = Vec::new();
    let mut found = false;
    let mut i: usize = 0;
    assert(s.take(0) =~= Seq::<(AddressView, u64)>::empty());
    while i < v.len()
        invariant
            i <= v.len(),
            v@ == old(v)@,
            s == old(v)@.map_values(|k: MonitorKey| key_view(k)),
            key == (owner@, monitor_ref),
            out@.map_values(|k: MonitorKey| key_view(k)) == without(s.take(i as int), key),
            found == s.take(i as int).contains(key),
        decreases v.len() - i,
    {
        let k = &v[i];
        let same = k.monitor_ref == monitor_ref && k.owner.same_as(owner);
        proof {
            assert(s.take(i as int + 1) =~= s.take(i as int).push(key_view(v@[i as int])));
            assert(s.take(i as int + 1).drop_last() =~= s.take(i as int));
            lemma_push_contains(s.take(i as int), key_view(v@[i as int]), key);
        }
        if same {
            found = true;
        } else {
            out.push(MonitorKey { owner: k.owner.duplicate(), monitor_ref: k.monitor_ref });
            assert(out@.map_values(|k: MonitorKey| key_view(k)) =~= without(s.take(i as int), key).push(key_view(v@[i as int])));
        }
        i = i + 1;
    }
    assert(s.take(v.len() as int) =~= s);
    *v = out;
    found
}

/// Add a monitor with key `(owner, monitor_ref)` unless one is installed.
fn add_monitor_key(v: &mut Vec<MonitorKey>, owner: &ActorAddress, monitor_ref: u64)
    ensures
        final(v)@.map_values(|k: MonitorKey| key_view(k)) == with_unique(old(v)@.map_values(|k: MonitorKey| key_view(k)), (owner@, monitor_ref)),
{
    let ghost key = (owner@, monitor_ref);
    let ghost s = old(v)@.map_values(|k: MonitorKey| key_view(k));
    let mut i: usize = 0;
    while i < v.len()
        invariant
            i <= v.len(),
            v@ == old(v)@,
            s == old(v)@.map_values(|k: MonitorKey| key_view(k)),
            key == (owner@, monitor_ref),
            forall|j: int| 0 <= j < i ==> s[j] != key,
        decreases v.len() - i,
    {
        if v[i].monitor_ref == monitor_ref && v[i].owner.same_as(owner) {
            assert(s[i as int] == key);
            return;
        }
        i = i + 1;
    }
    v.push(MonitorKey { owner: owner.duplicate(), monitor_ref });
    assert(v@.map_values(|k: MonitorKey| key_view(k)) =~= s.push(key));
}

/// Add `a` to a list of link peers unless it is there.
fn add_peer(v: &mut Vec<ActorAddress>, a: &ActorAddress)
    ensures
        addresses_view(*final(v)) == with_unique(addresses_view(*old(v)), a@),
{
    let ghost s = addresses_view(*old(v));
    let mut i: usize = 0;
    while i < v.len()
        invariant
            i <= v.len(),
            v@ == old(v)@,
            s == addresses_view(*old(v)),
            forall|j: int| 0 <= j < i ==> s[j] != a@,
        decreases v.len() - i,
    {
        if v[i].same_as(a) {
            assert(s[i as int] == a@);
            return;
        }
        i = i + 1;
    }
    v.push(a.duplicate());
    assert(addresses_view(*v) =~= s.push(a@));
}

/// Take every occurrence of `a` out of a list of link peers.
fn remove_peer(v: &Vec<ActorAddress>, a: &ActorAddress) -> (out: Vec<ActorAddress>)
    ensures
        addresses_view(out) == without(addresses_view(*v), a@),
{
    let ghost s = addresses_view(*v);
    let mut out: Vec<ActorAddress> = Vec::new();
    let mut i: usize = 0;
    assert(s.take(0) =~= Seq::<AddressView>::empty());
    while i < v.len()
        invariant
            i <= v.len(),
            s == addresses_view(*v),
            addresses_view(out) == without(s.take(i as int), a@),
        decreases v.len() - i,
    {
        proof {
            assert(s.take(i as int + 1).drop_last() =~= s.take(i as int));
        }
        if !v[i].same_as(a) {
            out.push(v[i].duplicate());
            assert(addresses_view(out) =~= without(s.take(i as int), a@).push(v@[i as int]@));
        }
        i = i + 1;
    }
    assert(s.take(v.len() as int) =~= s);
    out
}

/// The link peers of local actor `id`, none when it has no entry.
pub open spec fn peers_of<H, D>(v: BrokerView<H, D>, id: u64) -> Seq<AddressView> {
    if v.link_peers.contains_key(id) {
        v.link_peers[id]
    } else {
        Seq::empty()
    }
}

/// The `Down` envelope for a monitor.
pub open spec fn down_value(owner: ActorAddress, monitor_ref: u64, child: ActorAddress, reason: ExitReason) -> SupervisionEnvelope {
    SupervisionEnvelope { correlation_id: 0, event: SupervisionEvent::Down { owner, monitor_ref, child, reason } }
}

/// The `ChildExit` envelope from `child` to `parent`.
pub open spec fn child_exit_value(child: ActorAddress, parent: ActorAddress, reason: ExitReason) -> SupervisionEnvelope {
    SupervisionEnvelope { correlation_id: 0, event: SupervisionEvent::ChildExit { child, parent, reason } }
}

/// Outcome of a remote monitor request for local `target`; `exit_of` tells
/// whether a live handle's actor has already exited.
pub open spec fn monitor_requested<H, D, F: Fn(&H) -> Option<ExitReason>>(
    pre: BrokerView<H, D>,
    owner: ActorAddress,
    target: ActorAddress,
    monitor_ref: u64,
    exit_of: F,
    post: BrokerView<H, D>,
    r: Result<BrokerStep, BrokerError>,
) -> bool {
    let key = (owner@, monitor_ref);
    if !on_node(target@, pre.local) {
        refused_not_local(r, BrokerOp::Monitor, target@) && post == pre
    } else if !pre.handles.contains_key(target@.actor) {
        if pre.exited.contains_key(target@.actor) {
            &&& post == pre
            &&& r == Ok::<BrokerStep, BrokerError>(
                BrokerStep::Publish(down_value(owner, monitor_ref, target, pre.exited[target@.actor])),
            )
        } else {
            refused_unknown(r, BrokerOp::Monitor, target.actor_id) && post == pre
        }
    } else {
        let h = pre.handles[target@.actor];
        ||| (r matches Ok(BrokerStep::Publish(e)) && e.event matches SupervisionEvent::Down { reason, .. }
            && call_ensures(exit_of, (&h,), Some(reason))
            && e == down_value(owner, monitor_ref, target, reason)
            && post == (BrokerView { monitors: without(pre.monitors, key), ..pre }))
        ||| (call_ensures(exit_of, (&h,), None::<ExitReason>)
            && r == Ok::<BrokerStep, BrokerError>(BrokerStep::WatchMonitor { owner, target, monitor_ref })
            && post == (BrokerView { monitors: with_unique(pre.monitors, key), ..pre }))
    }
}

/// The broker state after a link between `local` and `remote` is recorded.
pub open spec fn peer_added<H, D>(pre: BrokerView<H, D>, local: ActorAddress, remote: ActorAddress) -> BrokerView<H, D> {
    BrokerView {
        link_peers: pre.link_peers.insert(local@.actor, with_unique(peers_of(pre, local@.actor), remote@)),
        ..pre
    }
}

/// Outcome of a link request between `a` and `b`, from the side of the end
/// that lives on this node.
pub open spec fn link_requested<H, D, F: Fn(&H) -> Option<ExitReason>>(
    pre: BrokerView<H, D>,
    a: ActorAddress,
    b: ActorAddress,
    exit_of: F,
    post: BrokerView<H, D>,
    r: Result<BrokerStep, BrokerError>,
) -> bool {
    if !on_node(a@, pre.local) && !on_node(b@, pre.local) {
        &&& r matches Err(BrokerError::LinkNotLocal { a: x, b: y }) && x == a && y == b
        &&& post == pre
    } else {
        let local = if on_node(a@, pre.local) { a } else { b };
        let remote = if on_node(a@, pre.local) { b } else { a };
        let id = local@.actor;
        let linked = peer_added(pre, local, remote);
        if pre.exited.contains_key(id) {
            &&& post == linked
            &&& r == Ok::<BrokerStep, BrokerError>(BrokerStep::Publish(child_exit_value(local, remote, pre.exited[id])))
        } else if !pre.handles.contains_key(id) {
            post == linked && refused_unknown(r, BrokerOp::Link, local.actor_id)
        } else {
            let h = pre.handles[id];
            ||| (r matches Ok(BrokerStep::Publish(e)) && e.event matches SupervisionEvent::ChildExit { reason, .. }
                && call_ensures(exit_of, (&h,), Some(reason))
                && e == child_exit_value(local, remote, reason)
                && post == linked)
            ||| (call_ensures(exit_of, (&h,), None::<ExitReason>) && if pre.link_waits.contains(id) {
                r == Ok::<BrokerStep, BrokerError>(BrokerStep::Done) && post == linked
            } else {
                &&& r == Ok::<BrokerStep, BrokerError>(BrokerStep::WatchLinks { local })
                &&& post == (BrokerView { link_waits: pre.link_waits.insert(id), ..linked })
            })
        }
    }
}

/// The broker state after an unlink between `a` and `b`.
pub open spec fn unlinked<H, D>(pre: BrokerView<H, D>, a: ActorAddress, b: ActorAddress) -> BrokerView<H, D> {
    if !on_node(a@, pre.local) && !on_node(b@, pre.local) {
        pre
    } else {
        let local = if on_node(a@, pre.local) { a } else { b };
        let remote = if on_node(a@, pre.local) { b } else { a };
        if pre.link_peers.contains_key(local@.actor) {
            BrokerView {
                link_peers: pre.link_peers.insert(local@.actor, without(pre.link_peers[local@.actor], remote@)),
                ..pre
            }
        } else {
            pre
        }
    }
}

impl<H, D> SupervisionBrokerInner<H, D> {
    fn apply_monitor<F: Fn(&H) -> Option<ExitReason>>(
        &mut self,
        owner: ActorAddress,
        target: ActorAddress,
        monitor_ref: u64,
        exit_of: &F,
    ) -> (r: Result<BrokerStep, BrokerError>)
        requires
            forall|h: &H| exit_of.requires((h,)),
        ensures
            monitor_requested(old(self)@, owner, target, monitor_ref, *exit_of, final(self)@, r),
    {
        if !address_on(&target, &self.local) {
            return Err(BrokerError::NotLocal { op: BrokerOp::Monitor, node: remote_node_of(&target) });
        }
        let id = target.actor_id.raw();
        let exited_now = match self.handles.get(&id) {
            None => {
                return match self.exited.get(&id) {
                    Some(reason) => Ok(BrokerStep::Publish(down_envelope(owner, monitor_ref, target, reason.duplicate()))),
                    None => Err(BrokerError::UnknownActor { op: BrokerOp::Monitor, actor: target.actor_id }),
                };
            },
            Some(h) => exit_of(h),
        };
        match exited_now {
            Some(reason) => {
                remove_monitor_key(&mut self.monitors, &owner, monitor_ref);
                assert(self@.link_peers =~= old(self)@.link_peers);
                Ok(BrokerStep::Publish(down_envelope(owner, monitor_ref, target, reason)))
            },
            None => {
                add_monitor_key(&mut self.monitors, &owner, monitor_ref);
                assert(self@.link_peers =~= old(self)@.link_peers);
                Ok(BrokerStep::WatchMonitor { owner, target, monitor_ref })
            },
        }
    }

    fn apply_demonitor(&mut self, owner: ActorAddress, monitor_ref: u64)
        ensures
            final(self)@ == (BrokerView { monitors: without(old(self)@.monitors, (owner@, monitor_ref)), ..old(self)@ }),
    {
        remove_monitor_key(&mut self.monitors, &owner, monitor_ref);
        assert(self@.link_peers =~= old(self)@.link_peers);
    }

    /// The watched target of a monitor has exited: the monitor is consumed and
    /// its `Down` envelope is returned, unless it was cancelled meanwhile.
    pub fn monitor_fired(
        &mut self,
        owner: ActorAddress,
        target: ActorAddress,
        monitor_ref: u64,
        reason: ExitReason,
    ) -> (r: Option<SupervisionEnvelope>)
        ensures
            final(self)@ == (BrokerView { monitors: without(old(self)@.monitors, (owner@, monitor_ref)), ..old(self)@ }),
            old(self)@.monitors.contains((owner@, monitor_ref)) ==> r == Some(down_value(owner, monitor_ref, target, reason)),
            !old(self)@.monitors.contains((owner@, monitor_ref)) ==> r is None,
    {
        let found = remove_monitor_key(&mut self.monitors, &owner, monitor_ref);
        assert(self@.link_peers =~= old(self)@.link_peers);
        if found {
            Some(down_envelope(owner, monitor_ref, target, reason))
        } else {
            None
        }
    }

    fn add_link_peer(&mut self, local: &ActorAddress, remote: &ActorAddress)
        ensures
            final(self)@ == peer_added(old(self)@, *local, *remote),
    {
        let id = local.actor_id.raw();
        let mut peers = match self.link_peers.remove(&id) {
            Some(v) => v,
            None => Vec::new(),
        };
        assert(addresses_view(peers) == peers_of(old(self)@, id)) by {
            if !old(self)@.link_peers.contains_key(id) {
                assert(addresses_view(peers) =~= Seq::<AddressView>::empty());
            }
        }
        add_peer(&mut peers, remote);
        self.link_peers.insert(id, peers);
        assert(self@.link_peers =~= peer_added(old(self)@, *local, *remote).link_peers);
        assert(self@.monitors =~= old(self)@.monitors);
    }

    fn apply_link<F: Fn(&H) -> Option<ExitReason>>(&mut self, a: ActorAddress, b: ActorAddress, exit_of: &F) -> (r: Result<BrokerStep, BrokerError>)
        requires
            forall|h: &H| exit_of.requires((h,)),
        ensures
            link_requested(old(self)@, a, b, *exit_of, final(self)@, r),
    {
        let (local, remote) = if address_on(&a, &self.local) {
            (a, b)
        } else if address_on(&b, &self.local) {
            (b, a)
        } else {
            return Err(BrokerError::LinkNotLocal { a, b });
        };
        self.add_link_peer(&local, &remote);
        let id = local.actor_id.raw();
        match self.exited.get(&id) {
            Some(reason) => {
                let reason = reason.duplicate();
                return Ok(BrokerStep::Publish(child_exit_envelope(local, remote, reason)));
            },
            None => {},
        }
        let exited_now = match self.handles.get(&id) {
            None => {
                return Err(BrokerError::UnknownActor { op: BrokerOp::Link, actor: local.actor_id });
            },
            Some(h) => exit_of(h),
        };
        if let Some(reason) = exited_now {
            return Ok(BrokerStep::Publish(child_exit_envelope(local, remote, reason)));
        }
        if self.link_waits.contains(&id) {
            return Ok(BrokerStep::Done);
        }
        self.link_waits.insert(id);
        assert(self@.link_peers =~= peer_added(old(self)@, local, remote).link_peers);
        assert(self@.monitors =~= old(self)@.monitors);
        Ok(BrokerStep::WatchLinks { local })
    }

    fn apply_unlink(&mut self, a: ActorAddress, b: ActorAddress)
        ensures
            final(self)@ == unlinked(old(self)@, a, b),
    {
        let (local, remote) = if address_on(&a, &self.local) {
            (a, b)
        } else if address_on(&b, &self.local) {
            (b, a)
        } else {
            return;
        };
        let id = local.actor_id.raw();
        match self.link_peers.remove(&id) {
            Some(peers) => {
                let kept = remove_peer(&peers, &remote);
                self.link_peers.insert(id, kept);
                assert(self@.link_peers =~= unlinked(old(self)@, local, remote).link_peers);
                assert(self@.monitors =~= old(self)@.monitors);
            },
            None => {
                assert(self@.link_peers =~= old(self)@.link_peers);
                assert(self@.monitors =~= old(self)@.monitors);
            },
        }
    }
}

impl<H, D> SupervisionBrokerInner<H, D> {
    /// A local actor whose exit was watched for its link peers has exited:
    /// the watch and the peers are consumed, and one `ChildExit` envelope per
    /// peer, in the order the peers were linked, is returned.
    pub fn link_exit_fired(&mut self, local: &ActorAddress, reason: &ExitReason) -> (r: Vec<SupervisionEnvelope>)
        ensures
            final(self)@ == (BrokerView {
                link_waits: old(self)@.link_waits.remove(local@.actor),
                link_peers: old(self)@.link_peers.remove(local@.actor),
                ..old(self)@
            }),
            r.len() == peers_of(old(self)@, local@.actor).len(),
            forall|i: int| 0 <= i < r.len() ==> (#[trigger] r@[i]).correlation_id == 0
                && (r@[i].event matches SupervisionEvent::ChildExit { child, parent, reason: x }
                    && child == *local && parent@ == peers_of(old(self)@, local@.actor)[i] && x == *reason),
    {
        let id = local.actor_id.raw();
        self.link_waits.remove(&id);
        let peers = match self.link_peers.remove(&id) {
            Some(v) => v,
            None => Vec::new(),
        };
        assert(addresses_view(peers) == peers_of(old(self)@, id)) by {
            if !old(self)@.link_peers.contains_key(id) {
                assert(addresses_view(peers) =~= Seq::<AddressView>::empty());
            }
        }
        assert(self@.link_peers =~= old(self)@.link_peers.remove(id));
        assert(self@.monitors =~= old(self)@.monitors);
        let mut out: Vec<SupervisionEnvelope> = Vec::new();
        let mut i: usize = 0;
        while i < peers.len()
            invariant
                i <= peers.len(),
                addresses_view(peers) == peers_of(old(self)@, local@.actor),
                out.len() == i,
                forall|j: int| 0 <= j < i ==> (#[trigger] out@[j]).correlation_id == 0
                    && (out@[j].event matches SupervisionEvent::ChildExit { child, parent, reason: x }
                        && child == *local && parent@ == peers@[j]@ && x == *reason),
            decreases peers.len() - i,
        {
            out.push(child_exit_envelope(local.duplicate(), peers[i].duplicate(), reason.duplicate()));
            i = i + 1;
        }
        out
    }

    /// A locally spawned child with a remote parent has exited: it is
    /// forgotten, its reason is kept for late monitors and links, and the
    /// `ChildExit` envelope for its parent is returned. Children without a
    /// remote parent are left alone.
    pub fn propagate_child_exit(&mut self, from: ActorId, reason: ExitReason) -> (r: Option<SupervisionEnvelope>)
        ensures
            !old(self)@.parents.contains_key(from@) ==> r is None && final(self)@ == old(self)@,
            old(self)@.parents.contains_key(from@) ==> {
                &&& final(self)@ == exit_recorded(old(self)@, from@, reason)
                &&& r matches Some(e) && exit_report(old(self)@, from, reason, e)
            },
    {
        let id = from.raw();
        let parent = match self.parents.get(&id) {
            Some(p) => p.duplicate(),
            None => return None,
        };
        let child = address_on_node(&self.local, from);
        self.unregister(from);
        self.exited.insert(id, reason.duplicate());
        assert(self@.link_peers =~= old(self)@.link_peers);
        assert(self@.monitors =~= old(self)@.monitors);
        Some(child_exit_envelope(child, parent, reason))
    }

    /// Take an inbound supervision envelope: decide what it changes here and
    /// what the runtime must do next. `exit_of` tells whether the actor of a
    /// live handle has already exited.
    pub fn apply<F: Fn(&H) -> Option<ExitReason>>(&mut self, envelope: SupervisionEnvelope, exit_of: &F) -> (r: Result<BrokerStep, BrokerError>)
        requires
            forall|h: &H| exit_of.requires((h,)),
        ensures
            match envelope.event {
                SupervisionEvent::Signal { target, signal } =>
                    signal_requested(old(self)@, target, signal, r) && final(self)@ == old(self)@,
                SupervisionEvent::SpawnRequest { parent, placement, spec, link } =>
                    spawn_requested(old(self)@, envelope.correlation_id, parent, placement, spec, link, r)
                        && final(self)@ == old(self)@,
                SupervisionEvent::ChildExit { child, parent, reason } =>
                    child_exit_reported(old(self)@, child, parent, reason, r) && final(self)@ == old(self)@,
                SupervisionEvent::Monitor { owner, target, monitor_ref } =>
                    monitor_requested(old(self)@, owner, target, monitor_ref, *exit_of, final(self)@, r),
                SupervisionEvent::Demonitor { owner, target, monitor_ref } =>
                    r == Ok::<BrokerStep, BrokerError>(BrokerStep::Done) && final(self)@ == (BrokerView {
                        monitors: without(old(self)@.monitors, (owner@, monitor_ref)),
                        ..old(self)@
                    }),
                SupervisionEvent::Down { owner, monitor_ref, child, reason } =>
                    down_reported(old(self)@, owner, monitor_ref, reason, r) && final(self)@ == old(self)@,
                SupervisionEvent::Link { a, b } => link_requested(old(self)@, a, b, *exit_of, final(self)@, r),
                SupervisionEvent::Unlink { a, b } =>
                    r == Ok::<BrokerStep, BrokerError>(BrokerStep::Done) && final(self)@ == unlinked(old(self)@, a, b),
                _ => r == Ok::<BrokerStep, BrokerError>(BrokerStep::Done) && final(self)@ == old(self)@,
            },
    {
        match envelope.event {
            SupervisionEvent::Signal { target, signal } => self.apply_signal(target, signal),
            SupervisionEvent::SpawnRequest { parent, placement, spec, link } =>
                self.apply_spawn(envelope.correlation_id, parent, placement, spec, link),
            SupervisionEvent::ChildExit { child, parent, reason } => self.apply_child_exit(child, parent, reason),
            SupervisionEvent::Monitor { owner, target, monitor_ref } =>
                self.apply_monitor(owner, target, monitor_ref, exit_of),
            SupervisionEvent::Demonitor { owner, target: _, monitor_ref } => {
                self.apply_demonitor(owner, monitor_ref);
                Ok(BrokerStep::Done)
            },
            SupervisionEvent::Down { owner, monitor_ref, child: _, reason } =>
                self.apply_down(owner, monitor_ref, reason),
            SupervisionEvent::Link { a, b } => self.apply_link(a, b, exit_of),
            SupervisionEvent::Unlink { a, b } => {
                self.apply_unlink(a, b);
                Ok(BrokerStep::Done)
            },
            _ => Ok(BrokerStep::Done),
        }
    }
}

/// The broker state after a spawned child `id` with handle `h` and remote
/// `parent` is registered.
pub open spec fn spawn_registered<H, D>(pre: BrokerView<H, D>, id: u64, h: H, parent: ActorAddress) -> BrokerView<H, D> {
    BrokerView { handles: pre.handles.insert(id, h), parents: pre.parents.insert(id, parent), ..pre }
}

/// The broker state after spawned child `id` exited with `reason`.
pub open spec fn exit_recorded<H, D>(pre: BrokerView<H, D>, id: u64, reason: ExitReason) -> BrokerView<H, D> {
    BrokerView {
        handles: pre.handles.remove(id),
        parents: pre.parents.remove(id),
        exited: pre.exited.insert(id, reason),
        ..pre
    }
}

/// The envelope that reports the exit of spawned child `from` with `reason`
/// to its remote parent, as broker state `v` records that parent.
pub open spec fn exit_report<H, D>(v: BrokerView<H, D>, from: ActorId, reason: ExitReason, e: SupervisionEnvelope) -> bool {
    &&& e.correlation_id == 0
    &&& e.event matches SupervisionEvent::ChildExit { child, parent, reason: x }
        && child@.node == Some(v.local) && child.actor_id == from
        && parent == v.parents[from@] && x == reason
}

/// A child spawned here for a remote parent reports its exit to that parent:
/// once registered, the child has a parent, so propagating its exit gives an
/// envelope, and that envelope is a `ChildExit` from the child, on this node,
/// to the parent it was spawned for, with the exit reason.
pub proof fn lemma_spawned_child_exit_reaches_parent<H, D>(
    pre: BrokerView<H, D>,
    id: ActorId,
    h: H,
    parent: ActorAddress,
    reason: ExitReason,
    e: SupervisionEnvelope,
)
    requires
        exit_report(spawn_registered(pre, id@, h, parent), id, reason, e),
    ensures
        spawn_registered(pre, id@, h, parent).parents.contains_key(id@),
        e.event matches SupervisionEvent::ChildExit { child, parent: p, reason: x }
            && child.actor_id == id && child@.node == Some(pre.local) && p == parent && x == reason,
{
}

/// A monitor that arrives after a spawned child exited is answered at once
/// with a `Down` carrying the child's recorded exit reason, and changes nothing.
pub proof fn lemma_late_monitor_sees_exit_reason<H, D, F: Fn(&H) -> Option<ExitReason>>(
    pre: BrokerView<H, D>,
    reason: ExitReason,
    owner: ActorAddress,
    target: ActorAddress,
    monitor_ref: u64,
    exit_of: F,
    post: BrokerView<H, D>,
    r: Result<BrokerStep, BrokerError>,
)
    requires
        on_node(target@, pre.local),
        monitor_requested(exit_recorded(pre, target@.actor, reason), owner, target, monitor_ref, exit_of, post, r),
    ensures
        r == Ok::<BrokerStep, BrokerError>(BrokerStep::Publish(down_value(owner, monitor_ref, target, reason))),
        post == exit_recorded(pre, target@.actor, reason),
{
}

/// A link that arrives after a spawned child exited is answered at once with
/// a `ChildExit` to the remote end, carrying the recorded exit reason.
pub proof fn lemma_late_link_sees_exit_reason<H, D, F: Fn(&H) -> Option<ExitReason>>(
    pre: BrokerView<H, D>,
    reason: ExitReason,
    local: ActorAddress,
    remote: ActorAddress,
    exit_of: F,
    post: BrokerView<H, D>,
    r: Result<BrokerStep, BrokerError>,
)
    requires
        on_node(local@, pre.local),
        link_requested(exit_recorded(pre, local@.actor, reason), local, remote, exit_of, post, r),
    ensures
        r == Ok::<BrokerStep, BrokerError>(BrokerStep::Publish(child_exit_value(local, remote, reason))),
{
}

/// A cancelled monitor never fires: after a monitor is installed and then
/// cancelled, its key is no longer installed.
pub proof fn lemma_demonitor_cancels_monitor(monitors: Seq<(AddressView, u64)>, key: (AddressView, u64))
    ensures
        !without(with_unique(monitors, key), key).contains(key),
{
    lemma_without_contains(with_unique(monitors, key), key, key);
}

/// Unlinking undoes linking: after `local` is linked to `remote` and then
/// unlinked, `remote` is no longer among the link peers of `local`, and the
/// other peers are those it had before.
pub proof fn lemma_unlink_undoes_link<H, D>(pre: BrokerView<H, D>, local: ActorAddress, remote: ActorAddress, other: AddressView)
    requires
        on_node(local@, pre.local),
    ensures
        !peers_of(unlinked(peer_added(pre, local, remote), local, remote), local@.actor).contains(remote@),
        other != remote@ ==> (peers_of(unlinked(peer_added(pre, local, remote), local, remote), local@.actor).contains(other)
            <==> peers_of(pre, local@.actor).contains(other)),
{
    let s = peers_of(pre, local@.actor);
    lemma_without_contains(with_unique(s, remote@), remote@, remote@);
    lemma_without_contains(with_unique(s, remote@), remote@, other);
    lemma_push_contains(s, remote@, other);
}

/// Install the local broker into the node's broker slot.
pub fn install_supervision_broker<H, D>(slot: &mut Option<SupervisionBrokerInner<H, D>>, inner: SupervisionBrokerInner<H, D>)
    ensures
        *final(slot) == Some(inner),
{
    *slot = Some(inner);
}

/// Register a local actor with the installed broker.
pub fn register_supervision_actor<H, D>(
    slot: &mut Option<SupervisionBrokerInner<H, D>>,
    address: &ActorAddress,
    handle_id: ActorId,
    handle: H,
) -> (r: Result<(), BrokerError>)
    ensures
        *old(slot) is None ==> (r matches Err(BrokerError::NotInstalled)) && *final(slot) is None,
        *old(slot) is Some ==> *final(slot) is Some
            && registered_actor((*old(slot))->0@, *address, handle_id, handle, (*final(slot))->0@, r),
{
    match slot {
        Some(inner) => inner.register(address, handle_id, handle),
        None => Err(BrokerError::NotInstalled),
    }
}

/// Register a local `Down` owner with the installed broker.
pub fn register_down_owner<H, D>(
    slot: &mut Option<SupervisionBrokerInner<H, D>>,
    address: &ActorAddress,
    send_down: D,
) -> (r: Result<(), BrokerError>)
    ensures
        *old(slot) is None ==> (r matches Err(BrokerError::NotInstalled)) && *final(slot) is None,
        *old(slot) is Some ==> *final(slot) is Some && {
            let pre = (*old(slot))->0@;
            let post = (*final(slot))->0@;
            &&& !on_node(address@, pre.local) ==> refused_not_local(r, BrokerOp::DownOwner, address@) && post == pre
            &&& on_node(address@, pre.local) ==> r is Ok && post == (BrokerView {
                down_owners: pre.down_owners.insert(address@.actor, send_down),
                ..pre
            })
        },
{
    match slot {
        Some(inner) => inner.register_down_owner(address, send_down),
        None => Err(BrokerError::NotInstalled),
    }
}

/// The handle of a local actor registered with the installed broker, if any.
pub fn local_handle<H: Clone, D>(slot: &Option<SupervisionBrokerInner<H, D>>, actor_id: ActorId) -> (r: Option<H>)
    ensures
        match slot {
            None => r is None,
            Some(inner) => match r {
                Some(h) => inner@.handles.contains_key(actor_id@) && cloned(inner@.handles[actor_id@], h),
                None => !inner@.handles.contains_key(actor_id@),
            },
        },
{
    match slot {
        Some(inner) => inner.local_handle(actor_id),
        None => None,
    }
}

} // verus!
