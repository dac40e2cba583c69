//! Bootstraps a simulated network of drones, clients and servers: validates the
//! declared topology, allocates the channels of every node, binds each node to the
//! send-endpoints of its neighbours and gates the start of the simulation behind a
//! small state machine.

pub mod network_init;
pub mod types;
pub mod utils;

pub use network_init::{DroneType, NetworkInitializer};
pub use types::{channel, parsed_nodes};
pub use utils::{errors, parser, topology};
