use crossbeam::channel::{unbounded, Receiver, Sender};
use network_initializer::channel::Channel;
use network_initializer::errors::{ChannelError, ConfigError, SimulationError};
use network_initializer::network_init::net_utils::{
    bind_senders, check_entities, configuration_number, filter_nodes, initialize_entities,
    open_channels, senders_of,
};
use network_initializer::network_init::{Export, Lifecycle, State};
use network_initializer::parsed_nodes::{
    Initializable, Node, NodeType, ParsedClient, ParsedDrone, ParsedServer,
};
use network_initializer::{DroneType, NetworkInitializer};
use std::collections::HashMap;

type Net = NetworkInitializer<u32, u32, u32>;

type Records = (Vec<ParsedDrone>, Vec<ParsedClient>, Vec<ParsedServer>);

/// What a factory of these tests builds: the node's identifier, the name of the
/// factory, and everything the factory was handed.
struct Built {
    id: u8,
    factory: &'static str,
    pdr: u32,
    events: Sender<u32>,
    commands: Receiver<u32>,
    senders: HashMap<u8, Sender<u32>>,
    packets: Receiver<u32>,
}

type DroneFactory =
    Box<dyn Fn(&ParsedDrone, Sender<u32>, Receiver<u32>, HashMap<u8, Sender<u32>>, Receiver<u32>) -> Built>;
type ClientFactory =
    Box<dyn Fn(&ParsedClient, Sender<u32>, Receiver<u32>, HashMap<u8, Sender<u32>>, Receiver<u32>) -> Built>;
type ServerFactory =
    Box<dyn Fn(&ParsedServer, Sender<u32>, Receiver<u32>, HashMap<u8, Sender<u32>>, Receiver<u32>) -> Built>;

fn drone_factory(name: &'static str) -> DroneFactory {
    Box::new(move |node, events, commands, senders, packets| Built {
        id: node.id,
        factory: name,
        pdr: node.pdr,
        events,
        commands,
        senders,
        packets,
    })
}

fn client_factory(name: &'static str) -> ClientFactory {
    Box::new(move |node, events, commands, senders, packets| Built {
        id: node.id,
        factory: name,
        pdr: 0,
        events,
        commands,
        senders,
        packets,
    })
}

fn server_factory(name: &'static str) -> ServerFactory {
    Box::new(move |node, events, commands, senders, packets| Built {
        id: node.id,
        factory: name,
        pdr: 0,
        events,
        commands,
        senders,
        packets,
    })
}

fn drone_factories() -> Vec<(DroneType, DroneFactory)> {
    vec![
        (DroneType::DrOnes, drone_factory("dr_ones")),
        (DroneType::RustBustersDrone, drone_factory("rustbusters")),
        (DroneType::SkyLinkDrone, drone_factory("skylink")),
    ]
}

fn client_factories() -> Vec<(&'static str, ClientFactory)> {
    vec![("song", client_factory("song")), ("video", client_factory("video"))]
}

fn server_factories() -> Vec<ServerFactory> {
    vec![server_factory("server")]
}

fn drone(id: u8, connected: &[u8]) -> ParsedDrone {
    ParsedDrone { id, connected_drone_ids: connected.to_vec(), pdr: u32::from(id) * 100 }
}

fn client(id: u8, connected: &[u8]) -> ParsedClient {
    ParsedClient { id, connected_drone_ids: connected.to_vec() }
}

fn server(id: u8, connected: &[u8]) -> ParsedServer {
    ParsedServer { id, connected_drone_ids: connected.to_vec() }
}

/// Four drones in a ring, clients 10 and 11, server 20.
fn ring() -> Records {
    (
        vec![
            drone(1, &[2, 4, 10]),
            drone(2, &[1, 3, 10, 20]),
            drone(3, &[2, 4, 11, 20]),
            drone(4, &[3, 1, 11]),
        ],
        vec![client(10, &[1, 2]), client(11, &[3, 4])],
        vec![server(20, &[2, 3])],
    )
}

fn ring_edges() -> Vec<(u8, u8)> {
    let (drones, clients, servers) = ring();
    let mut edges = Vec::new();
    for d in &drones {
        for n in &d.connected_drone_ids {
            edges.push((d.id, *n));
        }
    }
    for c in &clients {
        for n in &c.connected_drone_ids {
            edges.push((c.id, *n));
        }
    }
    for s in &servers {
        for n in &s.connected_drone_ids {
            edges.push((s.id, *n));
        }
    }
    edges
}

fn initialized(records: Records) -> Net {
    let mut net = Net::new(Some(records)).unwrap();
    let _ = net.get_channels();
    let _ = net.get_controller_recv();
    let _ = net.get_controller_senders();
    net
}

fn start(net: &mut Net) -> Result<(Vec<Built>, Vec<Built>, Vec<Built>), SimulationError> {
    net.run_simulation(None, drone_factories(), None, client_factories(), server_factories())
}

fn sorted_keys<V>(map: &HashMap<u8, V>) -> Vec<u8> {
    let mut keys: Vec<u8> = map.keys().copied().collect();
    keys.sort_unstable();
    keys
}

#[test]
fn new_network_is_instantiated() {
    let net = Net::new(Some(ring())).unwrap();
    assert_eq!(net.state(), State::Instantiated);
}

#[test]
fn network_without_records_is_empty() {
    let mut net = Net::new(None).unwrap();
    assert_eq!(net.state(), State::Instantiated);
    assert!(net.get_nodes().0.is_empty());
    assert!(net.get_nodes().1.is_empty());
    assert!(net.get_nodes().2.is_empty());
    assert!(net.get_channels().is_empty());
    assert!(net.get_controller_senders().is_empty());
}

#[test]
fn new_network_refuses_an_invalid_topology() {
    let refused = Net::new(Some((vec![drone(1, &[2])], vec![], vec![])));
    assert_eq!(refused.err().unwrap(), ConfigError::InvalidNodeConnection(1, 2));
}

#[test]
fn get_nodes_gives_the_declared_nodes() {
    let net = Net::new(Some(ring())).unwrap();
    let (drones, clients, servers) = net.get_nodes();
    assert_eq!(drones.iter().map(|d| d.id).collect::<Vec<u8>>(), vec![1, 2, 3, 4]);
    assert_eq!(clients.iter().map(|c| c.id).collect::<Vec<u8>>(), vec![10, 11]);
    assert_eq!(servers.iter().map(|s| s.id).collect::<Vec<u8>>(), vec![20]);
    assert_eq!(drones[2].connected_drone_ids, vec![2, 4, 11, 20]);
    assert_eq!(drones[2].pdr, 300);
}

#[test]
fn fabric_has_one_data_and_one_command_channel_per_node() {
    let mut net = Net::new(Some(ring())).unwrap();
    let channels = net.get_channels();
    let commands = net.get_controller_senders();
    assert_eq!(channels.len(), 7);
    assert_eq!(commands.len(), 7);
    assert_eq!(sorted_keys(&channels), vec![1, 2, 3, 4, 10, 11, 20]);
    assert_eq!(sorted_keys(&commands), vec![1, 2, 3, 4, 10, 11, 20]);
}

#[test]
fn channels_start_empty_and_are_distinct() {
    let mut net = Net::new(Some(ring())).unwrap();
    let channels = net.get_channels();
    for channel in channels.values() {
        assert!(channel.receiver.is_empty());
    }
    channels[&1].sender.send(77).unwrap();
    assert_eq!(channels[&1].receiver.try_recv(), Ok(77));
    for (id, channel) in &channels {
        assert!(channel.receiver.is_empty(), "channel of node {id}");
    }
    assert!(!channels[&1].sender.same_channel(&channels[&2].sender));
}

#[test]
fn exported_data_channels_are_those_of_the_nodes() {
    let mut net = Net::new(Some(ring())).unwrap();
    let channels = net.get_channels();
    let _ = net.get_controller_recv();
    let _ = net.get_controller_senders();
    let (drones, clients, servers) = start(&mut net).unwrap();
    for node in drones.iter().chain(clients.iter()).chain(servers.iter()) {
        channels[&node.id].sender.send(u32::from(node.id) + 1000).unwrap();
    }
    for node in drones.iter().chain(clients.iter()).chain(servers.iter()) {
        assert_eq!(node.packets.try_recv(), Ok(u32::from(node.id) + 1000));
        assert!(node.packets.is_empty());
    }
}

#[test]
fn command_senders_reach_the_command_receiver_of_their_node() {
    let mut net = Net::new(Some(ring())).unwrap();
    let _ = net.get_channels();
    let _ = net.get_controller_recv();
    let commands = net.get_controller_senders();
    let (drones, clients, servers) = start(&mut net).unwrap();
    for (id, sender) in &commands {
        sender.send(u32::from(*id) * 3).unwrap();
    }
    for node in drones.iter().chain(clients.iter()).chain(servers.iter()) {
        assert_eq!(node.commands.try_recv(), Ok(u32::from(node.id) * 3));
        assert!(node.commands.is_empty());
    }
}

#[test]
fn events_of_all_nodes_reach_the_controller() {
    let mut net = Net::new(Some(ring())).unwrap();
    let _ = net.get_channels();
    let events = net.get_controller_recv();
    let _ = net.get_controller_senders();
    let (drones, clients, servers) = start(&mut net).unwrap();
    let mut expected = Vec::new();
    for node in drones.iter().chain(clients.iter()).chain(servers.iter()) {
        node.events.send(u32::from(node.id)).unwrap();
        expected.push(u32::from(node.id));
    }
    let mut received: Vec<u32> = events.try_iter().collect();
    received.sort_unstable();
    expected.sort_unstable();
    assert_eq!(received, expected);
}

#[test]
fn every_node_is_handed_the_senders_of_its_neighbours() {
    let mut net = initialized(ring());
    let (drones, clients, servers) = start(&mut net).unwrap();
    let mut nodes: HashMap<u8, &Built> = HashMap::new();
    for node in drones.iter().chain(clients.iter()).chain(servers.iter()) {
        nodes.insert(node.id, node);
    }
    assert_eq!(sorted_keys(&nodes[&1].senders), vec![2, 4, 10]);
    assert_eq!(sorted_keys(&nodes[&2].senders), vec![1, 3, 10, 20]);
    assert_eq!(sorted_keys(&nodes[&10].senders), vec![1, 2]);
    assert_eq!(sorted_keys(&nodes[&20].senders), vec![2, 3]);
}

#[test]
fn both_ends_of_every_edge_reach_each_other() {
    let mut net = initialized(ring());
    let (drones, clients, servers) = start(&mut net).unwrap();
    let mut nodes: HashMap<u8, &Built> = HashMap::new();
    for node in drones.iter().chain(clients.iter()).chain(servers.iter()) {
        nodes.insert(node.id, node);
    }
    for (from, to) in ring_edges() {
        let message = u32::from(from) * 256 + u32::from(to);
        nodes[&from].senders[&to].send(message).unwrap();
        assert_eq!(nodes[&to].packets.try_recv(), Ok(message));
        let answer = message + 100_000;
        nodes[&to].senders[&from].send(answer).unwrap();
        assert_eq!(nodes[&from].packets.try_recv(), Ok(answer));
    }
    for node in nodes.values() {
        assert!(node.packets.is_empty());
    }
}

#[test]
fn start_is_refused_while_instantiated() {
    let mut net = Net::new(Some(ring())).unwrap();
    assert_eq!(start(&mut net).err().unwrap(), SimulationError::NotInitialized);
    assert_eq!(net.state(), State::Instantiated);
    let _ = net.get_channels();
    assert_eq!(start(&mut net).err().unwrap(), SimulationError::NotInitialized);
    let _ = net.get_controller_recv();
    assert_eq!(start(&mut net).err().unwrap(), SimulationError::NotInitialized);
    assert_eq!(net.state(), State::Instantiated);
    assert_eq!(net.get_channels().len(), 7);
}

#[test]
fn three_exports_initialize_in_any_order() {
    let orders: [[u8; 3]; 6] =
        [[0, 1, 2], [0, 2, 1], [1, 0, 2], [1, 2, 0], [2, 0, 1], [2, 1, 0]];
    for order in orders {
        let mut net = Net::new(Some(ring())).unwrap();
        for (taken, step) in order.iter().enumerate() {
            assert_eq!(net.state(), State::Instantiated, "after {taken} exports");
            match step {
                0 => {
                    let _ = net.get_channels();
                }
                1 => {
                    let _ = net.get_controller_recv();
                }
                _ => {
                    let _ = net.get_controller_senders();
                }
            }
        }
        assert_eq!(net.state(), State::Initialized);
    }
}

#[test]
fn start_after_three_exports_runs() {
    let mut net = initialized(ring());
    assert_eq!(net.state(), State::Initialized);
    let (drones, clients, servers) = start(&mut net).unwrap();
    assert_eq!(net.state(), State::Running);
    assert_eq!(drones.iter().map(|n| n.id).collect::<Vec<u8>>(), vec![1, 2, 3, 4]);
    assert_eq!(clients.iter().map(|n| n.id).collect::<Vec<u8>>(), vec![10, 11]);
    assert_eq!(servers.iter().map(|n| n.id).collect::<Vec<u8>>(), vec![20]);
    assert_eq!(drones[3].pdr, 400);
}

#[test]
fn repeated_export_counts_once() {
    let mut net = Net::new(Some(ring())).unwrap();
    for _ in 0..5 {
        assert_eq!(net.get_channels().len(), 7);
    }
    assert_eq!(net.state(), State::Instantiated);
    for _ in 0..5 {
        assert_eq!(net.get_controller_senders().len(), 7);
    }
    assert_eq!(net.state(), State::Instantiated);
    let _ = net.get_controller_recv();
    assert_eq!(net.state(), State::Initialized);
    let _ = net.get_controller_recv();
    let _ = net.get_channels();
    assert_eq!(net.state(), State::Initialized);
}

#[test]
fn many_exports_do_not_fail() {
    let mut net = Net::new(Some(ring())).unwrap();
    for _ in 0..300 {
        let _ = net.get_controller_recv();
    }
    assert_eq!(net.state(), State::Instantiated);
}

#[test]
fn second_start_is_refused_and_changes_nothing() {
    let mut net = initialized(ring());
    assert!(start(&mut net).is_ok());
    assert_eq!(start(&mut net).err().unwrap(), SimulationError::NotInitialized);
    assert_eq!(net.state(), State::Running);
}

#[test]
fn data_channels_are_consumed_by_the_start() {
    let mut net = initialized(ring());
    assert_eq!(net.get_channels().len(), 7);
    assert!(start(&mut net).is_ok());
    assert!(net.get_channels().is_empty());
    assert_eq!(net.get_controller_senders().len(), 7);
    assert_eq!(net.state(), State::Running);
}

#[test]
fn nodes_are_assigned_to_factories_round_robin() {
    let mut net = initialized(ring());
    let (drones, clients, servers) = start(&mut net).unwrap();
    let names: Vec<&str> = drones.iter().map(|n| n.factory).collect();
    assert_eq!(names, vec!["dr_ones", "rustbusters", "skylink", "dr_ones"]);
    let names: Vec<&str> = clients.iter().map(|n| n.factory).collect();
    assert_eq!(names, vec!["song", "video"]);
    assert_eq!(servers[0].factory, "server");
}

#[test]
fn allow_list_restricts_the_factories() {
    let mut net = initialized(ring());
    let (drones, clients, _) = net
        .run_simulation(
            Some(vec![DroneType::SkyLinkDrone, DroneType::DrOnes, DroneType::RustDoIt]),
            drone_factories(),
            Some(vec!["video"]),
            client_factories(),
            server_factories(),
        )
        .unwrap();
    let names: Vec<&str> = drones.iter().map(|n| n.factory).collect();
    assert_eq!(names, vec!["dr_ones", "skylink", "dr_ones", "skylink"]);
    let names: Vec<&str> = clients.iter().map(|n| n.factory).collect();
    assert_eq!(names, vec!["video", "video"]);
}

#[test]
fn allow_list_that_excludes_every_drone_factory_fails() {
    let mut net = initialized(ring());
    let refused = net.run_simulation(
        Some(vec![DroneType::NullPointerDrone]),
        drone_factories(),
        None,
        client_factories(),
        server_factories(),
    );
    assert_eq!(refused.err().unwrap(), SimulationError::NoFactoryAvailable(NodeType::Drone));
    assert_eq!(net.state(), State::Initialized);
    assert_eq!(net.get_channels().len(), 7);
    assert!(start(&mut net).is_ok());
}

#[test]
fn empty_allow_list_of_clients_fails() {
    let mut net = initialized(ring());
    let refused = net.run_simulation(
        None,
        drone_factories(),
        Some(vec![]),
        client_factories(),
        server_factories(),
    );
    assert_eq!(refused.err().unwrap(), SimulationError::NoFactoryAvailable(NodeType::Client));
}

#[test]
fn missing_server_factory_fails() {
    let mut net = initialized(ring());
    let refused =
        net.run_simulation(
        None,
        drone_factories(),
        None,
        client_factories(),
        Vec::<ServerFactory>::new(),
    );
    assert_eq!(refused.err().unwrap(), SimulationError::NoFactoryAvailable(NodeType::Server));
}

#[test]
fn drones_are_looked_at_before_clients() {
    let mut net = initialized(ring());
    let refused = net.run_simulation(
        Some(vec![]),
        drone_factories(),
        Some(vec![]),
        client_factories(),
        Vec::<ServerFactory>::new(),
    );
    assert_eq!(refused.err().unwrap(), SimulationError::NoFactoryAvailable(NodeType::Drone));
}

#[test]
fn category_without_node_needs_no_factory() {
    let records = (vec![drone(1, &[2]), drone(2, &[1])], vec![], vec![]);
    let mut net = initialized(records);
    let built = net.run_simulation(
        None,
        drone_factories(),
        Some(vec![]),
        client_factories(),
        Vec::<ServerFactory>::new(),
    );
    let (drones, clients, servers) = built.unwrap();
    assert_eq!(drones.len(), 2);
    assert!(clients.is_empty());
    assert!(servers.is_empty());
    assert_eq!(net.state(), State::Running);
}

#[test]
fn not_initialized_wins_over_missing_factories() {
    let mut net = Net::new(Some(ring())).unwrap();
    let refused = net.run_simulation(
        Some(vec![]),
        drone_factories(),
        None,
        client_factories(),
        server_factories(),
    );
    assert_eq!(refused.err().unwrap(), SimulationError::NotInitialized);
}

#[test]
fn set_path_replaces_the_nodes_and_keeps_the_channels() {
    let mut net = Net::new(Some(ring())).unwrap();
    let records = (vec![drone(1, &[2]), drone(2, &[1])], vec![], vec![]);
    assert_eq!(net.set_path(Some(records)), Ok(()));
    assert_eq!(net.get_nodes().0.len(), 2);
    assert!(net.get_nodes().1.is_empty());
    assert_eq!(net.get_channels().len(), 7);
    assert_eq!(net.state(), State::Instantiated);
}

#[test]
fn set_path_refuses_an_invalid_topology_and_changes_nothing() {
    let mut net = Net::new(Some(ring())).unwrap();
    let refused = net.set_path(Some((vec![drone(1, &[1])], vec![], vec![])));
    assert_eq!(refused, Err(ConfigError::InvalidNodeConnection(1, 1)));
    assert_eq!(net.get_nodes().0.len(), 4);
    assert_eq!(net.get_nodes().2.len(), 1);
}

#[test]
fn set_path_without_records_empties_the_topology() {
    let mut net = initialized(ring());
    assert_eq!(net.set_path(None), Ok(()));
    assert!(net.get_nodes().0.is_empty());
    let (drones, clients, servers) = start(&mut net).unwrap();
    assert!(drones.is_empty() && clients.is_empty() && servers.is_empty());
}

#[test]
fn node_without_channel_stops_the_start() {
    let mut net = initialized(ring());
    let records = (vec![drone(1, &[2]), drone(2, &[1, 30]), drone(30, &[2])], vec![], vec![]);
    assert_eq!(net.set_path(Some(records)), Ok(()));
    let refused = start(&mut net);
    assert_eq!(
        refused.err().unwrap(),
        SimulationError::Wiring(ChannelError::ChannelNotFound(30))
    );
    assert_eq!(net.state(), State::Initialized);
    assert_eq!(net.get_channels().len(), 7);
}

#[test]
fn stop_names_no_node_before_the_start() {
    let mut net = initialized(ring());
    assert!(net.stop_simulation().is_empty());
    assert_eq!(net.state(), State::Initialized);
}

#[test]
fn stop_names_every_node_while_running() {
    let mut net = initialized(ring());
    let (drones, clients, servers) = start(&mut net).unwrap();
    let to_notify = net.stop_simulation();
    assert_eq!(sorted_keys(&to_notify), vec![1, 2, 3, 4, 10, 11, 20]);
    assert_eq!(net.state(), State::Running);
    for (id, sender) in &to_notify {
        sender.send(u32::from(*id) + 9).unwrap();
    }
    for node in drones.iter().chain(clients.iter()).chain(servers.iter()) {
        assert_eq!(node.commands.try_recv(), Ok(u32::from(node.id) + 9));
    }
}

#[test]
fn filter_nodes_without_list_keeps_all_in_order() {
    let kept = filter_nodes(None::<Vec<u8>>, vec![(3, "a"), (1, "b"), (3, "c")]);
    assert_eq!(kept, vec!["a", "b", "c"]);
}

#[test]
fn filter_nodes_keeps_listed_tags_in_factory_order() {
    let factories = vec![(3u8, "a"), (1, "b"), (2, "c"), (3, "d")];
    assert_eq!(filter_nodes(Some(vec![2, 3]), factories), vec!["a", "c", "d"]);
}

#[test]
fn filter_nodes_with_empty_list_keeps_nothing() {
    let kept = filter_nodes(Some(Vec::<u8>::new()), vec![(3u8, "a"), (1, "b")]);
    assert!(kept.is_empty());
}

#[test]
fn filter_nodes_on_drone_types() {
    let factories = vec![
        (DroneType::RustRoveri, 1),
        (DroneType::LockheedRustin, 2),
        (DroneType::CppEnjoyersDrone, 3),
        (DroneType::RustyDrone, 4),
        (DroneType::RustDrone, 5),
    ];
    let selected = Some(vec![DroneType::RustDrone, DroneType::LockheedRustin]);
    assert_eq!(filter_nodes(selected, factories), vec![2, 5]);
}

#[test]
fn drone_types_compare_by_variant() {
    let all = [
        DroneType::DrOnes,
        DroneType::RustBustersDrone,
        DroneType::RustDrone,
        DroneType::RustRoveri,
        DroneType::RustDoIt,
        DroneType::LockheedRustin,
        DroneType::CppEnjoyersDrone,
        DroneType::SkyLinkDrone,
        DroneType::RustyDrone,
        DroneType::NullPointerDrone,
    ];
    for (i, a) in all.iter().enumerate() {
        for (j, b) in all.iter().enumerate() {
            assert_eq!(a == b, i == j);
        }
    }
}

#[test]
fn bind_senders_gives_the_senders_of_the_listed_channels() {
    let mut channels: HashMap<u8, Channel<u32>> = HashMap::new();
    for id in [1u8, 2, 3] {
        channels.insert(id, Channel::default());
    }
    let senders = bind_senders(&channels, &vec![3, 1]);
    assert_eq!(sorted_keys(&senders), vec![1, 3]);
    senders[&3].send(33).unwrap();
    senders[&1].send(11).unwrap();
    assert_eq!(channels[&3].receiver.try_recv(), Ok(33));
    assert_eq!(channels[&1].receiver.try_recv(), Ok(11));
    assert!(channels[&2].receiver.is_empty());
    assert!(senders[&1].same_channel(&channels[&1].sender));
}

#[test]
fn bind_senders_leaves_out_a_neighbour_without_channel() {
    let mut channels: HashMap<u8, Channel<u32>> = HashMap::new();
    channels.insert(1, Channel::default());
    let senders = bind_senders(&channels, &vec![1, 9, 1]);
    assert_eq!(sorted_keys(&senders), vec![1]);
    assert!(bind_senders(&channels, &Vec::new()).is_empty());
}

#[test]
fn open_channels_adds_both_channels_of_each_node() {
    let mut data: HashMap<u8, Channel<u32>> = HashMap::new();
    let mut commands: HashMap<u8, Channel<u8>> = HashMap::new();
    data.insert(50, Channel::default());
    open_channels(&[client(4, &[]), client(6, &[])], &mut data, &mut commands);
    assert_eq!(sorted_keys(&data), vec![4, 6, 50]);
    assert_eq!(sorted_keys(&commands), vec![4, 6]);
}

#[test]
fn check_entities_reports_what_stops_a_category() {
    let mut data: HashMap<u8, Channel<u32>> = HashMap::new();
    let mut commands: HashMap<u8, Channel<u32>> = HashMap::new();
    let nodes = [server(4, &[]), server(6, &[]), server(8, &[])];
    open_channels(&nodes[..1], &mut data, &mut commands);
    data.insert(6, Channel::default());
    assert_eq!(
        check_entities(NodeType::Server, &nodes, 0, &data, &commands),
        Err(SimulationError::NoFactoryAvailable(NodeType::Server))
    );
    assert_eq!(
        check_entities(NodeType::Server, &nodes, 2, &data, &commands),
        Err(SimulationError::Wiring(ChannelError::ChannelNotFound(6)))
    );
    assert_eq!(check_entities(NodeType::Server, &nodes[..1], 1, &data, &commands), Ok(()));
    assert_eq!(check_entities(NodeType::Server, &nodes[..0], 0, &data, &commands), Ok(()));
}

#[test]
fn initialize_entities_builds_each_node_from_its_own_endpoints() {
    let mut data: HashMap<u8, Channel<u32>> = HashMap::new();
    let mut commands: HashMap<u8, Channel<u32>> = HashMap::new();
    let nodes = [client(4, &[6]), client(6, &[4, 8]), client(8, &[6])];
    open_channels(&nodes, &mut data, &mut commands);
    let events: Channel<u32> = Channel::default();
    let factories = [client_factory("a"), client_factory("b")];
    let built = initialize_entities(&nodes, &data, &commands, &events, &factories);
    assert_eq!(built.iter().map(|n| n.id).collect::<Vec<u8>>(), vec![4, 6, 8]);
    assert_eq!(built.iter().map(|n| n.factory).collect::<Vec<&str>>(), vec!["a", "b", "a"]);
    assert_eq!(sorted_keys(&built[1].senders), vec![4, 8]);
    built[1].senders[&8].send(1).unwrap();
    assert_eq!(built[2].packets.try_recv(), Ok(1));
    commands[&4].sender.send(2).unwrap();
    assert_eq!(built[0].commands.try_recv(), Ok(2));
    built[2].events.send(3).unwrap();
    assert_eq!(events.receiver.try_recv(), Ok(3));
    data[&6].sender.send(4).unwrap();
    assert_eq!(built[1].packets.try_recv(), Ok(4));
}

#[test]
fn channel_new_pairs_the_given_endpoints() {
    let (tx, rx) = unbounded::<u32>();
    let channel = Channel::new(tx.clone(), rx);
    assert!(channel.sender.same_channel(&tx));
    tx.send(5).unwrap();
    assert_eq!(channel.receiver.try_recv(), Ok(5));
}

#[test]
fn channel_default_is_a_fresh_empty_channel() {
    let a: Channel<u32> = Channel::default();
    let b: Channel<u32> = Channel::default();
    assert!(a.receiver.is_empty());
    assert!(!a.sender.same_channel(&b.sender));
    a.sender.send(1).unwrap();
    assert_eq!(a.receiver.try_recv(), Ok(1));
    assert!(b.receiver.is_empty());
}

#[test]
fn channel_clone_is_a_handle_on_the_same_channel() {
    let a: Channel<u32> = Channel::default();
    let b = a.clone();
    assert!(a.sender.same_channel(&b.sender));
    assert!(a.receiver.same_channel(&b.receiver));
    b.sender.send(8).unwrap();
    assert_eq!(a.receiver.try_recv(), Ok(8));
}

#[test]
fn lifecycle_records_each_export_once() {
    let mut lifecycle = Lifecycle {
        state: State::Instantiated,
        channels: false,
        controller_recv: false,
        controller_senders: false,
    };
    lifecycle.record(Export::ControllerSenders);
    lifecycle.record(Export::ControllerSenders);
    lifecycle.record(Export::ControllerSenders);
    assert_eq!(lifecycle.state, State::Instantiated);
    assert!(lifecycle.controller_senders && !lifecycle.channels && !lifecycle.controller_recv);
    lifecycle.record(Export::Channels);
    assert_eq!(lifecycle.state, State::Instantiated);
    lifecycle.record(Export::ControllerRecv);
    assert_eq!(lifecycle.state, State::Initialized);
    lifecycle.record(Export::Channels);
    assert_eq!(lifecycle.state, State::Initialized);
}

#[test]
fn lifecycle_never_leaves_running() {
    let mut lifecycle = Lifecycle {
        state: State::Running,
        channels: true,
        controller_recv: true,
        controller_senders: true,
    };
    lifecycle.record(Export::Channels);
    lifecycle.record(Export::ControllerRecv);
    lifecycle.record(Export::ControllerSenders);
    assert_eq!(lifecycle.state, State::Running);
}

#[test]
fn declared_nodes_answer_for_their_fields() {
    let d = drone(3, &[1, 2]);
    let c = client(4, &[3]);
    let s = server(5, &[3, 1]);
    assert_eq!(Node::id(&d), 3);
    assert_eq!(Node::id(&c), 4);
    assert_eq!(Node::id(&s), 5);
    assert_eq!(Node::connected_drone_ids(&d), &vec![1, 2]);
    assert_eq!(Node::connected_drone_ids(&c), &vec![3]);
    assert_eq!(Node::connected_drone_ids(&s), &vec![3, 1]);
    assert_eq!(d.node_type(), NodeType::Drone);
    assert_eq!(c.node_type(), NodeType::Client);
    assert_eq!(s.node_type(), NodeType::Server);
    assert_eq!(*Initializable::id(&d), 3);
    assert_eq!(*Initializable::id(&c), 4);
    assert_eq!(*Initializable::id(&s), 5);
    assert_eq!(Initializable::connected_drone_ids(&d), &vec![1, 2]);
    assert_eq!(Initializable::connected_drone_ids(&c), &vec![3]);
    assert_eq!(Initializable::connected_drone_ids(&s), &vec![3, 1]);
}

#[test]
fn configurations_are_taken_in_turn() {
    assert_eq!(configuration_number(0, 1), 1);
    assert_eq!(configuration_number(7, 1), 1);
    assert_eq!(configuration_number(0, 5), 1);
    assert_eq!(configuration_number(4, 5), 5);
    assert_eq!(configuration_number(5, 5), 1);
    assert_eq!(configuration_number(13, 5), 4);
    assert_eq!(configuration_number(usize::MAX, usize::MAX), 1);
}

#[test]
fn senders_of_gives_a_sender_for_every_channel() {
    let mut channels: HashMap<u8, Channel<u32>> = HashMap::new();
    assert!(senders_of(&channels).is_empty());
    for id in [9u8, 200, 0] {
        channels.insert(id, Channel::default());
    }
    let senders = senders_of(&channels);
    assert_eq!(sorted_keys(&senders), vec![0, 9, 200]);
    for (id, sender) in &senders {
        sender.send(u32::from(*id) + 1).unwrap();
    }
    for (id, channel) in &channels {
        assert_eq!(channel.receiver.try_recv(), Ok(u32::from(*id) + 1));
        assert!(channel.receiver.is_empty());
    }
}
