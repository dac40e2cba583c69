//! The network: its topology, the channels of its nodes, and the start of the
//! simulation.

pub mod getters;
pub mod lifecycle;
pub mod net_utils;

pub use lifecycle::{Export, Lifecycle, State};

use crate::types::channel::Channel;
use crate::types::parsed_nodes::{
    specs_of, Initializable, NodeId, NodeSpec, NodeType, ParsedClient, ParsedDrone, ParsedServer,
};
use crate::utils::errors::{ConfigError, SimulationError};
use crate::utils::parser::{topology_of, Parser};
use crate::utils::topology::{
    has_node, id_set, invalid_in, is_link, lemma_id_count, lemma_id_set_joined, one_way_in,
    verdict, well_formed,
};
use crossbeam::channel::{Receiver, Sender};
use net_utils::{
    accepts_all, allow_list, built_by, category_failure, check_entities, command_senders,
    eq_is_equality, filter_nodes, filtered, has_channels, ids_of, initialize_entities,
    lemma_filtered_members, neighbor_senders, open_channels, senders_of, wired,
};
use std::collections::HashMap;
use vstd::prelude::*;

verus! {

broadcast use vstd::std_specs::hash::group_hash_axioms;

/// How many configurations there are for audio clients to run with.
pub const CLIENT_AUDIO_CONFIGURATIONS_NUM: usize = 1;

/// How many configurations there are for servers to run with.
pub const SERVER_CONFIGURATIONS_NUM: usize = 1;

/// The drone implementations a network can be populated with.
#[derive(Debug, Clone, Copy, Eq, Hash)]
pub enum DroneType {
    DrOnes,
    RustBustersDrone,
    RustDrone,
    RustRoveri,
    RustDoIt,
    LockheedRustin,
    CppEnjoyersDrone,
    SkyLinkDrone,
    RustyDrone,
    NullPointerDrone,
}

impl PartialEq for DroneType {
    fn eq(&self, other: &Self) -> (same: bool) {
        match (self, other) {
            (DroneType::DrOnes, DroneType::DrOnes) => true,
            (DroneType::RustBustersDrone, DroneType::RustBustersDrone) => true,
            (DroneType::RustDrone, DroneType::RustDrone) => true,
            (DroneType::RustRoveri, DroneType::RustRoveri) => true,
            (DroneType::RustDoIt, DroneType::RustDoIt) => true,
            (DroneType::LockheedRustin, DroneType::LockheedRustin) => true,
            (DroneType::CppEnjoyersDrone, DroneType::CppEnjoyersDrone) => true,
            (DroneType::SkyLinkDrone, DroneType::SkyLinkDrone) => true,
            (DroneType::RustyDrone, DroneType::RustyDrone) => true,
            (DroneType::NullPointerDrone, DroneType::NullPointerDrone) => true,
            _ => false,
        }
    }
}

impl vstd::std_specs::cmp::PartialEqSpecImpl for DroneType {
    open spec fn obeys_eq_spec() -> bool {
        true
    }

    open spec fn eq_spec(&self, other: &Self) -> bool {
        *self == *other
    }
}

/// Owns the topology, the channels of every node and the shared event channel, and
/// gates the start of the simulation. `P` is the type of the packets that nodes
/// exchange, `C` that of the commands sent to a node, `E` that of the events sent by
/// the nodes.
#[verifier::reject_recursive_types(P)]
#[verifier::reject_recursive_types(C)]
#[verifier::reject_recursive_types(E)]
pub struct NetworkInitializer<P, C, E> {
    lifecycle: Lifecycle,
    parser: Parser,
    channel_map: HashMap<NodeId, Channel<P>>,
    drone_command_map: HashMap<NodeId, Channel<C>>,
    node_event: Channel<E>,
}

impl<P, C, E> NetworkInitializer<P, C, E> {
    /// The state and the handles taken.
    pub closed spec fn lifecycle(&self) -> Lifecycle {
        self.lifecycle
    }

    /// The declared nodes.
    pub closed spec fn nodes(&self) -> Parser {
        self.parser
    }

    /// The data channel of each node.
    pub closed spec fn data_channels(&self) -> Map<NodeId, Channel<P>> {
        self.channel_map@
    }

    /// The command channel of each node.
    pub closed spec fn command_channels(&self) -> Map<NodeId, Channel<C>> {
        self.drone_command_map@
    }

    /// The event channel that all nodes share.
    pub closed spec fn event_channel(&self) -> Channel<E> {
        self.node_event
    }

    /// Every declared node has a data channel and a command channel.
    pub open spec fn is_wired(&self) -> bool {
        &&& wired(self.nodes().drones@, self.data_channels(), self.command_channels())
        &&& wired(self.nodes().clients@, self.data_channels(), self.command_channels())
        &&& wired(self.nodes().servers@, self.data_channels(), self.command_channels())
    }

    /// What stops the construction of the nodes, if anything, with the given numbers
    /// of factories at hand: the categories are looked at in the order drones,
    /// clients, servers.
    pub open spec fn wiring_failure(
        &self,
        drone_factories: nat,
        client_factories: nat,
        server_factories: nat,
    ) -> Option<SimulationError> {
        let of_drones = category_failure(
            NodeType::Drone,
            self.nodes().drones@,
            drone_factories,
            self.data_channels(),
            self.command_channels(),
        );
        let of_clients = category_failure(
            NodeType::Client,
            self.nodes().clients@,
            client_factories,
            self.data_channels(),
            self.command_channels(),
        );
        let of_servers = category_failure(
            NodeType::Server,
            self.nodes().servers@,
            server_factories,
            self.data_channels(),
            self.command_channels(),
        );
        if of_drones is Some {
            of_drones
        } else if of_clients is Some {
            of_clients
        } else {
            of_servers
        }
    }

    /// What refuses a start, if anything: the state first, then the wiring.
    pub open spec fn start_failure(
        &self,
        drone_factories: nat,
        client_factories: nat,
        server_factories: nat,
    ) -> Option<SimulationError> {
        if self.lifecycle().state != State::Initialized {
            Some(SimulationError::NotInitialized)
        } else {
            self.wiring_failure(drone_factories, client_factories, server_factories)
        }
    }

    /// The nodes were built from the channels of `self`: each category has one entity
    /// per declared node, in declaration order, and the `i`-th is built by the factory
    /// at `i` modulo the number of factories of its category.
    pub open spec fn built<FD, FC, FS, D, K, S>(
        &self,
        drone_factories: Seq<FD>,
        client_factories: Seq<FC>,
        server_factories: Seq<FS>,
        entities: (Vec<D>, Vec<K>, Vec<S>),
    ) -> bool where
        FD: Fn(&ParsedDrone, Sender<E>, Receiver<C>, HashMap<NodeId, Sender<P>>, Receiver<P>) -> D,
        FC: Fn(&ParsedClient, Sender<E>, Receiver<C>, HashMap<NodeId, Sender<P>>, Receiver<P>) -> K,
        FS: Fn(&ParsedServer, Sender<E>, Receiver<C>, HashMap<NodeId, Sender<P>>, Receiver<P>) -> S,
     {
        &&& entities.0@.len() == self.nodes().drones@.len()
        &&& entities.1@.len() == self.nodes().clients@.len()
        &&& entities.2@.len() == self.nodes().servers@.len()
        &&& forall|i: int|
            0 <= i < entities.0@.len() ==> built_by(
                drone_factories[i % (drone_factories.len() as int)],
                self.nodes().drones@[i],
                self.data_channels(),
                self.command_channels(),
                self.event_channel(),
                #[trigger] entities.0@[i],
            )
        &&& forall|i: int|
            0 <= i < entities.1@.len() ==> built_by(
                client_factories[i % (client_factories.len() as int)],
                self.nodes().clients@[i],
                self.data_channels(),
                self.command_channels(),
                self.event_channel(),
                #[trigger] entities.1@[i],
            )
        &&& forall|i: int|
            0 <= i < entities.2@.len() ==> built_by(
                server_factories[i % (server_factories.len() as int)],
                self.nodes().servers@[i],
                self.data_channels(),
                self.command_channels(),
                self.event_channel(),
                #[trigger] entities.2@[i],
            )
    }
}

/// The identifiers of the nodes of the three lists are the identifiers of the topology
/// that the lists make.
pub proof fn lemma_ids_of_records(
    drones: Seq<ParsedDrone>,
    clients: Seq<ParsedClient>,
    servers: Seq<ParsedServer>,
)
    ensures
        ids_of(drones).union(ids_of(clients)).union(ids_of(servers)) == id_set(
            topology_of(drones, clients, servers),
        ),
{
    let d = specs_of(drones);
    let c = specs_of(clients);
    let s = specs_of(servers);
    let t = topology_of(drones, clients, servers);
    lemma_id_set_joined(d, c);
    lemma_id_set_joined(d + c, s);
    assert forall|id: NodeId| ids_of(drones).contains(id) <==> id_set(d).contains(id) by {
        if ids_of(drones).contains(id) {
            let i = choose|i: int| 0 <= i < drones.len() && (#[trigger] drones[i]).node_id() == id;
            assert(d[i].id == id);
        }
        if has_node(d, id) {
            let i = choose|i: int| 0 <= i < d.len() && (#[trigger] d[i]).id == id;
            assert(drones[i].node_id() == id);
        }
    }
    assert forall|id: NodeId| ids_of(clients).contains(id) <==> id_set(c).contains(id) by {
        if ids_of(clients).contains(id) {
            let i = choose|i: int|
                0 <= i < clients.len() && (#[trigger] clients[i]).node_id() == id;
            assert(c[i].id == id);
        }
        if has_node(c, id) {
            let i = choose|i: int| 0 <= i < c.len() && (#[trigger] c[i]).id == id;
            assert(clients[i].node_id() == id);
        }
    }
    assert forall|id: NodeId| ids_of(servers).contains(id) <==> id_set(s).contains(id) by {
        if ids_of(servers).contains(id) {
            let i = choose|i: int|
                0 <= i < servers.len() && (#[trigger] servers[i]).node_id() == id;
            assert(s[i].id == id);
        }
        if has_node(s, id) {
            let i = choose|i: int| 0 <= i < s.len() && (#[trigger] s[i]).id == id;
            assert(servers[i].node_id() == id);
        }
    }
    assert(ids_of(drones).union(ids_of(clients)).union(ids_of(servers)) =~= id_set(t));
}

impl<P, C, E> NetworkInitializer<P, C, E> {
    /// A network for the topology of the given records, validated, with the channels
    /// of every node allocated; without records, an empty network. The network is
    /// `Instantiated` and no handle has been taken.
    pub fn new(records: Option<(Vec<ParsedDrone>, Vec<ParsedClient>, Vec<ParsedServer>)>) -> (r:
        Result<Self, ConfigError>)
        ensures
            match records {
                None => r matches Ok(net) && net.nodes()@.len() == 0,
                Some(given) => match r {
                    Ok(net) => {
                        &&& verdict(net.nodes()@) is Ok
                        &&& net.nodes().drones == given.0
                        &&& net.nodes().clients == given.1
                        &&& net.nodes().servers == given.2
                    },
                    Err(e) => verdict(topology_of(given.0@, given.1@, given.2@)) == Err::<
                        (),
                        ConfigError,
                    >(e),
                },
            },
            r matches Ok(net) ==> {
                &&& net.lifecycle() == Lifecycle::fresh()
                &&& net.data_channels().dom() == id_set(net.nodes()@)
                &&& net.command_channels().dom() == id_set(net.nodes()@)
                &&& net.data_channels().len() == net.nodes()@.len()
                &&& net.command_channels().len() == net.nodes()@.len()
                &&& net.is_wired()
            },
    {
        let parser = match Parser::new(records) {
            Ok(parser) => parser,
            Err(e) => {
                return Err(e);
            },
        };
        let mut net_init = NetworkInitializer {
            lifecycle: Lifecycle {
                state: State::Instantiated,
                channels: false,
                controller_recv: false,
                controller_senders: false,
            },
            parser,
            channel_map: HashMap::new(),
            drone_command_map: HashMap::new(),
            node_event: Channel::default(),
        };
        net_init.create_channels();
        proof {
            assert(net_init.data_channels().dom() =~= id_set(net_init.nodes()@));
            assert(net_init.command_channels().dom() =~= id_set(net_init.nodes()@));
            net_init.lemma_covered_is_wired();
            lemma_id_count(net_init.nodes()@);
        }
        Ok(net_init)
    }

    /// Allocates a data channel and a command channel for every declared node, and
    /// the event channel that all of them share.
    fn create_channels(&mut self)
        ensures
            final(self).lifecycle() == old(self).lifecycle(),
            final(self).nodes() == old(self).nodes(),
            final(self).data_channels().dom() == old(self).data_channels().dom().union(
                id_set(old(self).nodes()@),
            ),
            final(self).command_channels().dom() == old(self).command_channels().dom().union(
                id_set(old(self).nodes()@),
            ),
    {
        proof {
            lemma_ids_of_records(self.parser.drones@, self.parser.clients@, self.parser.servers@);
        }
        open_channels(
            self.parser.drones.as_slice(),
            &mut self.channel_map,
            &mut self.drone_command_map,
        );
        open_channels(
            self.parser.clients.as_slice(),
            &mut self.channel_map,
            &mut self.drone_command_map,
        );
        open_channels(
            self.parser.servers.as_slice(),
            &mut self.channel_map,
            &mut self.drone_command_map,
        );
        self.node_event = Channel::default();
        proof {
            let ids = id_set(self.parser@);
            assert(self.channel_map@.dom() =~= old(self).channel_map@.dom().union(ids));
            assert(self.drone_command_map@.dom() =~= old(self).drone_command_map@.dom().union(ids));
        }
    }

    /// A network whose two maps of channels cover the identifiers of its topology is
    /// wired.
    pub proof fn lemma_covered_is_wired(&self)
        requires
            id_set(self.nodes()@).subset_of(self.data_channels().dom()),
            id_set(self.nodes()@).subset_of(self.command_channels().dom()),
        ensures
            self.is_wired(),
    {
        let drones = self.nodes().drones@;
        let clients = self.nodes().clients@;
        let servers = self.nodes().servers@;
        let ids = id_set(self.nodes()@);
        lemma_ids_of_records(drones, clients, servers);
        assert forall|i: int| 0 <= i < drones.len() implies has_channels(
            (#[trigger] drones[i]).node_id(),
            self.data_channels(),
            self.command_channels(),
        ) by {
            assert(ids_of(drones).contains(drones[i].node_id()));
            assert(ids.contains(drones[i].node_id()));
        }
        assert forall|i: int| 0 <= i < clients.len() implies has_channels(
            (#[trigger] clients[i]).node_id(),
            self.data_channels(),
            self.command_channels(),
        ) by {
            assert(ids_of(clients).contains(clients[i].node_id()));
            assert(ids.contains(clients[i].node_id()));
        }
        assert forall|i: int| 0 <= i < servers.len() implies has_channels(
            (#[trigger] servers[i]).node_id(),
            self.data_channels(),
            self.command_channels(),
        ) by {
            assert(ids_of(servers).contains(servers[i].node_id()));
            assert(ids.contains(servers[i].node_id()));
        }
    }

    /// Builds every declared node. The factories of drones and of clients are first
    /// cut down to those that the allow-list of their category keeps; then the
    /// `i`-th node of a category is built by the factory at `i` modulo the number of
    /// factories left. Nothing is built unless every category can be: on failure the
    /// network is as before. On success the data channels are consumed: the map of
    /// data channels is empty afterwards.
    fn initialize_network<T, FD, FC, FS, D, K, S>(
        &mut self,
        selected_drones: Option<Vec<DroneType>>,
        drone_factories: Vec<(DroneType, FD)>,
        selected_clients: Option<Vec<T>>,
        client_factories: Vec<(T, FC)>,
        server_factories: Vec<FS>,
    ) -> (r: Result<(Vec<D>, Vec<K>, Vec<S>), SimulationError>) where
        T: PartialEq,
        FD: Fn(&ParsedDrone, Sender<E>, Receiver<C>, HashMap<NodeId, Sender<P>>, Receiver<P>) -> D,
        FC: Fn(&ParsedClient, Sender<E>, Receiver<C>, HashMap<NodeId, Sender<P>>, Receiver<P>) -> K,
        FS: Fn(&ParsedServer, Sender<E>, Receiver<C>, HashMap<NodeId, Sender<P>>, Receiver<P>) -> S,

        requires
            eq_is_equality::<T>(),
            forall|k: int|
                0 <= k < drone_factories.len() ==> accepts_all((#[trigger] drone_factories@[k]).1),
            forall|k: int|
                0 <= k < client_factories.len() ==> accepts_all(
                    (#[trigger] client_factories@[k]).1,
                ),
            forall|k: int|
                0 <= k < server_factories.len() ==> accepts_all(#[trigger] server_factories@[k]),
        ensures
            ({
                let of_drones = filtered(allow_list(selected_drones), drone_factories@);
                let of_clients = filtered(allow_list(selected_clients), client_factories@);
                let failure = old(self).wiring_failure(
                    of_drones.len(),
                    of_clients.len(),
                    server_factories@.len(),
                );
                match r {
                    Ok(entities) => {
                        &&& failure is None
                        &&& old(self).built(of_drones, of_clients, server_factories@, entities)
                        &&& final(self).data_channels() == Map::<NodeId, Channel<P>>::empty()
                        &&& final(self).lifecycle() == old(self).lifecycle()
                        &&& final(self).nodes() == old(self).nodes()
                        &&& final(self).command_channels() == old(self).command_channels()
                        &&& final(self).event_channel() == old(self).event_channel()
                    },
                    Err(e) => failure == Some(e) && *final(self) == *old(self),
                }
            }),
    {
        proof {
            lemma_filtered_members(allow_list(selected_drones), drone_factories@);
            lemma_filtered_members(allow_list(selected_clients), client_factories@);
        }
        let filtered_drones = filter_nodes(selected_drones, drone_factories);
        let filtered_clients = filter_nodes(selected_clients, client_factories);

        match check_entities(
            NodeType::Drone,
            self.parser.drones.as_slice(),
            filtered_drones.len(),
            &self.channel_map,
            &self.drone_command_map,
        ) {
            Err(e) => {
                return Err(e);
            },
            Ok(()) => {},
        }
        match check_entities(
            NodeType::Client,
            self.parser.clients.as_slice(),
            filtered_clients.len(),
            &self.channel_map,
            &self.drone_command_map,
        ) {
            Err(e) => {
                return Err(e);
            },
            Ok(()) => {},
        }
        match check_entities(
            NodeType::Server,
            self.parser.servers.as_slice(),
            server_factories.len(),
            &self.channel_map,
            &self.drone_command_map,
        ) {
            Err(e) => {
                return Err(e);
            },
            Ok(()) => {},
        }

        let initialized_drones = initialize_entities(
            self.parser.drones.as_slice(),
            &self.channel_map,
            &self.drone_command_map,
            &self.node_event,
            filtered_drones.as_slice(),
        );
        let initialized_clients = initialize_entities(
            self.parser.clients.as_slice(),
            &self.channel_map,
            &self.drone_command_map,
            &self.node_event,
            filtered_clients.as_slice(),
        );
        let initialized_servers = initialize_entities(
            self.parser.servers.as_slice(),
            &self.channel_map,
            &self.drone_command_map,
            &self.node_event,
            server_factories.as_slice(),
        );

        self.channel_map.clear();
        Ok((initialized_drones, initialized_clients, initialized_servers))
    }

    /// Starts the simulation: from `Initialized`, builds every declared node and
    /// moves to `Running`; the caller runs the nodes it is handed. From any other
    /// state the start is refused with `NotInitialized`. A refused or failed start
    /// leaves the network as it was.
    pub fn run_simulation<T, FD, FC, FS, D, K, S>(
        &mut self,
        selected_drones: Option<Vec<DroneType>>,
        drone_factories: Vec<(DroneType, FD)>,
        selected_clients: Option<Vec<T>>,
        client_factories: Vec<(T, FC)>,
        server_factories: Vec<FS>,
    ) -> (r: Result<(Vec<D>, Vec<K>, Vec<S>), SimulationError>) where
        T: PartialEq,
        FD: Fn(&ParsedDrone, Sender<E>, Receiver<C>, HashMap<NodeId, Sender<P>>, Receiver<P>) -> D,
        FC: Fn(&ParsedClient, Sender<E>, Receiver<C>, HashMap<NodeId, Sender<P>>, Receiver<P>) -> K,
        FS: Fn(&ParsedServer, Sender<E>, Receiver<C>, HashMap<NodeId, Sender<P>>, Receiver<P>) -> S,

        requires
            eq_is_equality::<T>(),
            forall|k: int|
                0 <= k < drone_factories.len() ==> accepts_all((#[trigger] drone_factories@[k]).1),
            forall|k: int|
                0 <= k < client_factories.len() ==> accepts_all(
                    (#[trigger] client_factories@[k]).1,
                ),
            forall|k: int|
                0 <= k < server_factories.len() ==> accepts_all(#[trigger] server_factories@[k]),
        ensures
            old(self).lifecycle().state == State::Instantiated ==> r matches Err(
                SimulationError::NotInitialized,
            ),
            ({
                let of_drones = filtered(allow_list(selected_drones), drone_factories@);
                let of_clients = filtered(allow_list(selected_clients), client_factories@);
                let failure = old(self).start_failure(
                    of_drones.len(),
                    of_clients.len(),
                    server_factories@.len(),
                );
                match r {
                    Ok(entities) => {
                        &&& failure is None
                        &&& old(self).built(of_drones, of_clients, server_factories@, entities)
                        &&& Ok::<Lifecycle, SimulationError>(final(self).lifecycle()) == old(
                            self,
                        ).lifecycle().after_start()
                        &&& final(self).data_channels() == Map::<NodeId, Channel<P>>::empty()
                        &&& final(self).nodes() == old(self).nodes()
                        &&& final(self).command_channels() == old(self).command_channels()
                        &&& final(self).event_channel() == old(self).event_channel()
                    },
                    Err(e) => failure == Some(e) && *final(self) == *old(self),
                }
            }),
    {
        match self.lifecycle.state {
            State::Initialized => {},
            _ => {
                return Err(SimulationError::NotInitialized);
            },
        }
        let built = self.initialize_network(
            selected_drones,
            drone_factories,
            selected_clients,
            client_factories,
            server_factories,
        );
        if built.is_ok() {
            self.lifecycle.state = State::Running;
        }
        built
    }

    /// Names the nodes that a shutdown has to reach: while the simulation runs, the
    /// send-endpoint of the command channel of every node, for the caller to send its
    /// shutdown command on; in any other state nothing. The state does not change:
    /// nothing leads out of `Running`.
    pub fn stop_simulation(&mut self) -> (to_notify: HashMap<NodeId, Sender<C>>)
        ensures
            *final(self) == *old(self),
            to_notify@ == if old(self).lifecycle().state == State::Running {
                command_senders(old(self).command_channels())
            } else {
                Map::<NodeId, Sender<C>>::empty()
            },
    {
        match self.lifecycle.state {
            State::Running => senders_of(&self.drone_command_map),
            _ => HashMap::new(),
        }
    }
}

/// In a well-formed topology whose nodes all have a data channel, the two ends of
/// every declared link can send to each other: each is handed the send-endpoint of
/// the data channel whose receive-endpoint the other is built with.
pub proof fn lemma_linked_nodes_reach_each_other<P>(
    t: Seq<NodeSpec>,
    channels: Map<NodeId, Channel<P>>,
    i: int,
    j: int,
)
    requires
        well_formed(t),
        channels.dom() == id_set(t),
        is_link(t, i, j),
    ensures
        ({
            let from = t[i];
            let to = from.neighbors[j];
            &&& neighbor_senders(channels, from.neighbors).contains_key(to)
            &&& neighbor_senders(channels, from.neighbors)[to] == channels[to].sender
            &&& exists|m: int|
                {
                    &&& 0 <= m < t.len()
                    &&& (#[trigger] t[m]).id == to
                    &&& neighbor_senders(channels, t[m].neighbors).contains_key(from.id)
                    &&& neighbor_senders(channels, t[m].neighbors)[from.id]
                        == channels[from.id].sender
                }
        }),
{
    let from = t[i];
    let to = from.neighbors[j];
    let invalid = invalid_in(t);
    let one_way = one_way_in(t);
    assert(!invalid(t[i], j));
    assert(!one_way(t[i], j));
    assert(has_node(t, to));
    assert(id_set(t).contains(to));
    assert(from.neighbors.contains(to));
    let m = choose|m: int| 0 <= m < t.len() && (#[trigger] t[m]).id == to;
    assert(t[m].neighbors.contains(from.id));
    assert(has_node(t, from.id));
    assert(id_set(t).contains(from.id));
}

impl<P, C, E> NetworkInitializer<P, C, E> {
    /// An `Initialized` network whose nodes all have their channels starts, provided
    /// that every category with a node has a factory.
    pub proof fn lemma_ready_network_starts(
        &self,
        drone_factories: nat,
        client_factories: nat,
        server_factories: nat,
    )
        requires
            self.lifecycle().state == State::Initialized,
            self.is_wired(),
            self.nodes().drones@.len() > 0 ==> drone_factories > 0,
            self.nodes().clients@.len() > 0 ==> client_factories > 0,
            self.nodes().servers@.len() > 0 ==> server_factories > 0,
        ensures
            self.start_failure(drone_factories, client_factories, server_factories) is None,
    {
    }
}

} // verus!
