use crate::types::parsed_nodes::{NodeId, NodeType};
use vstd::prelude::*;

verus! {

/// Why a configuration was refused.
#[derive(Debug, PartialEq)]
pub enum ConfigError {
    /// The configuration file at this path could not be read.
    FileReadError(String),
    /// The configuration file at this path does not hold a topology.
    ParseError(String),
    /// The first node lists the second as a neighbour although the second is the node
    /// itself, is listed twice, or does not exist.
    InvalidNodeConnection(NodeId, NodeId),
    /// The first node lists the second as a neighbour, the second does not list the first.
    UnidirectionalConnection(NodeId, NodeId),
    /// Two nodes share an identifier.
    DuplicatedNodeId,
    /// The topology holds no node.
    EmptyTopology,
    /// The client has more than two neighbours.
    ClientWithMoreThanTwoConnections(NodeId),
    /// The server has fewer than two neighbours.
    ServerWithLessThanTwoConnections(NodeId),
}

/// Why a node could not be wired.
#[derive(Debug, PartialEq)]
pub enum ChannelError {
    /// No channel was allocated for this node.
    ChannelNotFound(NodeId),
}

/// Why the simulation could not be started.
#[derive(Debug, PartialEq)]
pub enum SimulationError {
    /// The three handles of the controller have not all been exported yet, or the
    /// simulation is running already.
    NotInitialized,
    /// The selection leaves no factory for a category that has a node.
    NoFactoryAvailable(NodeType),
    /// A node of the topology has no channel.
    Wiring(ChannelError),
}

} // verus!
