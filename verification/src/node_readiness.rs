use vstd::prelude::*;

verus! {

/// Snapshot of the components a cluster node's health depends on.
#[derive(Debug, Clone, Copy, PartialEq, Eq, Structural)]
pub struct NodeReadiness {
    /// The global router is installed.
    pub router_installed: bool,
    /// A listener is active.
    pub listener_active: bool,
    /// The node runs a supervision broker.
    pub supervision_enabled: bool,
    /// The supervision broker actor is alive.
    pub broker_alive: bool,
    /// Number of configured remote peers.
    pub peers_configured: usize,
    /// A listen address was configured.
    pub listen_configured: bool,
}

impl NodeReadiness {
    /// Whether the components this node's configuration requires are
    /// healthy: with supervision enabled the broker must be alive, and with a
    /// listen address configured a listener must be active.
    pub fn is_ready(&self) -> (b: bool)
        ensures
            b == ((!self.supervision_enabled || self.broker_alive) && (!self.listen_configured || self.listener_active)),
    {
        let broker_ok = !self.supervision_enabled || self.broker_alive;
        let listener_ok = !self.listen_configured || self.listener_active;
        broker_ok && listener_ok
    }
}

} // verus!
