use vstd::prelude::*;

verus! {

/// Identifier of an actor, unique within one node.
#[derive(Clone, Copy, Debug, PartialEq, Eq, PartialOrd, Ord, Hash, Structural)]
pub struct ActorId {
    raw: u64,
}

impl View for ActorId {
    type V = u64;

    closed spec fn view(&self) -> u64 {
        self.raw
    }
}

impl ActorId {
    /// The actor id with the given raw number.
    pub fn from_raw(raw: u64) -> (id: ActorId)
        ensures
            id@ == raw,
    {
        ActorId { raw }
    }

    /// The raw number of this id.
    pub fn raw(&self) -> (raw: u64)
        ensures
            raw == self@,
    {
        self.raw
    }

    /// Two ids are equal exactly when their raw numbers are.
    pub proof fn lemma_view_injective(a: ActorId, b: ActorId)
        ensures
            a == b <==> a@ == b@,
    {
    }
}

/// Name of a cluster node.
#[derive(Clone, Debug, PartialEq, Eq, Hash)]
pub struct NodeId {
    pub name: String,
}

impl View for NodeId {
    type V = Seq<char>;

    open spec fn view(&self) -> Seq<char> {
        self.name@
    }
}

impl NodeId {
    /// The node with the given name.
    pub fn new(name: String) -> (n: NodeId)
        ensures
            n@ == name@,
    {
        NodeId { name }
    }

    /// Whether two node ids name the same node.
    pub fn same_as(&self, other: &NodeId) -> (b: bool)
        ensures
            b == (self@ == other@),
    {
        self.name == other.name
    }

    /// A copy of this node id.
    pub fn duplicate(&self) -> (n: NodeId)
        ensures
            n == *self,
            n@ == self@,
    {
        NodeId { name: self.name.clone() }
    }
}

/// Where an actor lives: on this node, or on a named remote node.
#[derive(Clone, Debug, PartialEq, Eq, Hash)]
pub enum Locality {
    Local,
    Remote(NodeId),
}

/// Abstract value of a [`Locality`]: `None` for this node, else the remote node's name.
pub open spec fn locality_view(l: Locality) -> Option<Seq<char>> {
    match l {
        Locality::Local => None,
        Locality::Remote(n) => Some(n@),
    }
}

impl Locality {
    /// A copy of this locality.
    pub fn clone_locality(&self) -> (l: Locality)
        ensures
            l == *self,
            locality_view(l) == locality_view(*self),
    {
        match self {
            Locality::Local => Locality::Local,
            Locality::Remote(n) => Locality::Remote(n.duplicate()),
        }
    }
}

/// Cluster-wide address of an actor: its node and its id there.
#[derive(Clone, Debug, PartialEq, Eq, Hash)]
pub struct ActorAddress {
    pub locality: Locality,
    pub actor_id: ActorId,
}

/// Abstract value of an [`ActorAddress`].
pub struct AddressView {
    pub node: Option<Seq<char>>,
    pub actor: u64,
}

impl View for ActorAddress {
    type V = AddressView;

    open spec fn view(&self) -> AddressView {
        AddressView { node: locality_view(self.locality), actor: self.actor_id@ }
    }
}

impl ActorAddress {
    /// Address of an actor on this node.
    pub fn local(actor_id: ActorId) -> (a: ActorAddress)
        ensures
            a@.node is None,
            a@.actor == actor_id@,
            a.actor_id == actor_id,
    {
        ActorAddress { locality: Locality::Local, actor_id }
    }

    /// Address of an actor on node `node`.
    pub fn on(node: NodeId, actor_id: ActorId) -> (a: ActorAddress)
        ensures
            a@.node == Some(node@),
            a@.actor == actor_id@,
            a.actor_id == actor_id,
    {
        ActorAddress { locality: Locality::Remote(node), actor_id }
    }

    /// Whether the actor lives on this node.
    pub fn is_local(&self) -> (b: bool)
        ensures
            b == (self@.node is None),
    {
        match &self.locality {
            Locality::Local => true,
            Locality::Remote(_) => false,
        }
    }

    /// Whether two addresses name the same actor.
    pub fn same_as(&self, other: &ActorAddress) -> (b: bool)
        ensures
            b == (self@ == other@),
    {
        proof {
            ActorId::lemma_view_injective(self.actor_id, other.actor_id);
        }
        if self.actor_id != other.actor_id {
            return false;
        }
        match (&self.locality, &other.locality) {
            (Locality::Local, Locality::Local) => true,
            (Locality::Remote(a), Locality::Remote(b)) => a.same_as(b),
            _ => false,
        }
    }

    /// A copy of this address.
    pub fn duplicate(&self) -> (a: ActorAddress)
        ensures
            a == *self,
            a@ == self@,
            a.actor_id == self.actor_id,
    {
        let locality = match &self.locality {
            Locality::Local => Locality::Local,
            Locality::Remote(n) => Locality::Remote(n.duplicate()),
        };
        ActorAddress { locality, actor_id: self.actor_id }
    }
}

} // verus!
