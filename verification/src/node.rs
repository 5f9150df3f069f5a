use vstd::prelude::*;

verus! {

/// Errors building a cluster node.
#[derive(Debug, Clone, PartialEq, Eq)]
pub enum NodeError {
    /// The transport failed, with its message.
    Transport(String),
    /// The node name was already fixed before the build.
    NameAlreadySet,
}

/// What a node build starts from: whether a name was asked for and took
/// effect, whether a listen address is set, and how many peers and
/// signal-shutdown roots are configured.
#[derive(Debug, Clone, Copy, PartialEq, Eq, Structural)]
pub struct NodeConfig {
    pub name_requested: bool,
    pub name_applied: bool,
    pub listen: bool,
    pub peers: usize,
    pub shutdown_handles: usize,
}

/// What a node build sets up.
#[derive(Debug, Clone, Copy, PartialEq, Eq, Structural)]
pub struct NodePlan {
    /// The node exchanges registry and process group state with others.
    pub federated: bool,
    /// A TCP transport to the peers is created (otherwise remote sends fail).
    pub tcp_transport: bool,
    /// Registry and process group changes are broadcast to the peers.
    pub install_sync_hooks: bool,
    /// An inbound listener is bound.
    pub bind_listener: bool,
    /// OS shutdown signals are dispatched to the configured roots.
    pub signal_dispatch: bool,
}

/// Decide what a node build sets up: a name that did not take effect
/// refuses the build; the node is federated when it listens or has peers;
/// a TCP transport exists when it has peers, and then broadcasts changes
/// when federated; a listener is bound when a listen address is set; signal
/// dispatch runs when shutdown roots are configured.
pub fn plan_node(config: &NodeConfig) -> (r: Result<NodePlan, NodeError>)
    ensures
        config.name_requested && !config.name_applied ==> r == Err::<NodePlan, NodeError>(NodeError::NameAlreadySet),
        !(config.name_requested && !config.name_applied) ==> r == Ok::<NodePlan, NodeError>(NodePlan {
            federated: config.listen || config.peers > 0,
            tcp_transport: config.peers > 0,
            install_sync_hooks: config.peers > 0 && (config.listen || config.peers > 0),
            bind_listener: config.listen,
            signal_dispatch: config.shutdown_handles > 0,
        }),
{
    if config.name_requested && !config.name_applied {
        return Err(NodeError::NameAlreadySet);
    }
    let federated = config.listen || config.peers > 0;
    let tcp_transport = config.peers > 0;
    Ok(NodePlan {
        federated,
        tcp_transport,
        install_sync_hooks: tcp_transport && federated,
        bind_listener: config.listen,
        signal_dispatch: config.shutdown_handles > 0,
    })
}

} // verus!
