use vstd::prelude::*;

verus! {

/// Identifier of a node, unique over drones, clients and servers together.
pub type NodeId = u8;

/// The category of a node.
#[derive(Debug, Clone, Copy, PartialEq, Eq, Structural)]
pub enum NodeType {
    Drone,
    Client,
    Server,
}

/// What the topology rules read of a node: its category, its identifier and the
/// identifiers it declares as neighbours, in declaration order.
pub struct NodeSpec {
    pub kind: NodeType,
    pub id: NodeId,
    pub neighbors: Seq<NodeId>,
}

/// A drone as declared in the configuration.
#[derive(Debug)]
pub struct ParsedDrone {
    pub id: NodeId,
    pub connected_drone_ids: Vec<NodeId>,
    /// Packet drop rate, as the bit pattern of the single-precision number that the
    /// configuration gives.
    pub pdr: u32,
}

/// A client as declared in the configuration.
#[derive(Debug)]
pub struct ParsedClient {
    pub id: NodeId,
    pub connected_drone_ids: Vec<NodeId>,
}

/// A server as declared in the configuration.
#[derive(Debug)]
pub struct ParsedServer {
    pub id: NodeId,
    pub connected_drone_ids: Vec<NodeId>,
}

/// A declared node that can be wired: it has an identifier and a list of neighbours.
pub trait Initializable {
    /// The node's identifier.
    spec fn node_id(&self) -> NodeId;

    /// The identifiers the node declares as neighbours.
    spec fn neighbors(&self) -> Seq<NodeId>;

    fn id(&self) -> (id: &NodeId)
        ensures
            *id == self.node_id(),
    ;

    fn connected_drone_ids(&self) -> (ids: &Vec<NodeId>)
        ensures
            ids@ == self.neighbors(),
    ;
}

impl Initializable for ParsedDrone {
    open spec fn node_id(&self) -> NodeId {
        self.id
    }

    open spec fn neighbors(&self) -> Seq<NodeId> {
        self.connected_drone_ids@
    }

    fn id(&self) -> (id: &NodeId) {
        &self.id
    }

    fn connected_drone_ids(&self) -> (ids: &Vec<NodeId>) {
        &self.connected_drone_ids
    }
}

impl Initializable for ParsedClient {
    open spec fn node_id(&self) -> NodeId {
        self.id
    }

    open spec fn neighbors(&self) -> Seq<NodeId> {
        self.connected_drone_ids@
    }

    fn id(&self) -> (id: &NodeId) {
        &self.id
    }

    fn connected_drone_ids(&self) -> (ids: &Vec<NodeId>) {
        &self.connected_drone_ids
    }
}

impl Initializable for ParsedServer {
    open spec fn node_id(&self) -> NodeId {
        self.id
    }

    open spec fn neighbors(&self) -> Seq<NodeId> {
        self.connected_drone_ids@
    }

    fn id(&self) -> (id: &NodeId) {
        &self.id
    }

    fn connected_drone_ids(&self) -> (ids: &Vec<NodeId>) {
        &self.connected_drone_ids
    }
}

/// A declared node as the topology rules see it.
pub trait Node {
    /// What the rules read of the node.
    spec fn spec_node(&self) -> NodeSpec;

    fn id(&self) -> (id: NodeId)
        ensures
            id == self.spec_node().id,
    ;

    fn connected_drone_ids(&self) -> (ids: &Vec<NodeId>)
        ensures
            ids@ == self.spec_node().neighbors,
    ;

    fn node_type(&self) -> (kind: NodeType)
        ensures
            kind == self.spec_node().kind,
    ;
}

impl Node for ParsedDrone {
    open spec fn spec_node(&self) -> NodeSpec {
        NodeSpec { kind: NodeType::Drone, id: self.id, neighbors: self.connected_drone_ids@ }
    }

    fn id(&self) -> (id: NodeId) {
        self.id
    }

    fn connected_drone_ids(&self) -> (ids: &Vec<NodeId>) {
        &self.connected_drone_ids
    }

    fn node_type(&self) -> (kind: NodeType) {
        NodeType::Drone
    }
}

impl Node for ParsedClient {
    open spec fn spec_node(&self) -> NodeSpec {
        NodeSpec { kind: NodeType::Client, id: self.id, neighbors: self.connected_drone_ids@ }
    }

    fn id(&self) -> (id: NodeId) {
        self.id
    }

    fn connected_drone_ids(&self) -> (ids: &Vec<NodeId>) {
        &self.connected_drone_ids
    }

    fn node_type(&self) -> (kind: NodeType) {
        NodeType::Client
    }
}

impl Node for ParsedServer {
    open spec fn spec_node(&self) -> NodeSpec {
        NodeSpec { kind: NodeType::Server, id: self.id, neighbors: self.connected_drone_ids@ }
    }

    fn id(&self) -> (id: NodeId) {
        self.id
    }

    fn connected_drone_ids(&self) -> (ids: &Vec<NodeId>) {
        &self.connected_drone_ids
    }

    fn node_type(&self) -> (kind: NodeType) {
        NodeType::Server
    }
}

/// The view of a list of nodes of one category.
pub open spec fn specs_of<T: Node>(nodes: Seq<T>) -> Seq<NodeSpec> {
    Seq::new(nodes.len(), |i: int| nodes[i].spec_node())
}

} // verus!
