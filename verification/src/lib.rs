use vstd::prelude::*;

pub mod child_spec;
pub mod dynamic_supervisor;
pub mod error;
pub mod ids;
pub mod mailbox;
pub mod named_registry;
pub mod node;
pub mod node_readiness;
pub mod observability;
pub mod pg;
pub mod pool;
pub mod remote;
pub mod seq_util;
pub mod shutdown_signal;
pub mod static_supervisor;
pub mod strings;
pub mod supervision;
pub mod supervision_broker;
pub mod supervisor;
pub mod time;
pub mod typed_pg;
pub mod wire;

verus! {
} // verus!
