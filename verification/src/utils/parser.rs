use crate::types::parsed_nodes::{
    specs_of, Node, NodeId, NodeSpec, NodeType, ParsedClient, ParsedDrone, ParsedServer,
};
use crate::utils::errors::ConfigError;
use crate::utils::topology::{
    degree_ok, degrees_ok, distinct_ids, first_degree_offender, first_link, has_node, id_set,
    invalid_among, invalid_in, is_link, lemma_distinct_joined, lemma_duplicate_behind,
    lemma_duplicate_in_front, lemma_first_link_behind, lemma_first_link_in_front,
    lemma_id_set_joined, lemma_no_link_joined, lemma_verdict_degree, lemma_verdict_invalid,
    lemma_verdict_one_way, neighbor_invalid, neighbor_one_way, no_link, one_way_in, verdict,
    well_formed,
};
use std::collections::{HashMap, HashSet};
use vstd::prelude::*;

verus! {

broadcast use vstd::std_specs::hash::group_hash_axioms;

/// The declared topology: the nodes of each category in declaration order.
#[derive(Debug)]
pub struct Parser {
    pub drones: Vec<ParsedDrone>,
    pub clients: Vec<ParsedClient>,
    pub servers: Vec<ParsedServer>,
}

/// The topology that three lists of declared nodes make: drones first, then clients,
/// then servers.
pub open spec fn topology_of(
    drones: Seq<ParsedDrone>,
    clients: Seq<ParsedClient>,
    servers: Seq<ParsedServer>,
) -> Seq<NodeSpec> {
    specs_of(drones) + specs_of(clients) + specs_of(servers)
}

impl View for Parser {
    type V = Seq<NodeSpec>;

    open spec fn view(&self) -> Seq<NodeSpec> {
        topology_of(self.drones@, self.clients@, self.servers@)
    }
}

/// The map gives, for each identifier of `t` and for no other, the neighbours that the
/// node of that identifier declares.
pub open spec fn lookup_of(lookup: Map<NodeId, &Vec<NodeId>>, t: Seq<NodeSpec>) -> bool {
    &&& forall|id: NodeId| #[trigger] lookup.contains_key(id) <==> has_node(t, id)
    &&& forall|m: int|
        0 <= m < t.len() ==> lookup.contains_key((#[trigger] t[m]).id) && lookup[t[m].id]@
            == t[m].neighbors
}

/// Adds the identifiers of the nodes to `all_ids`. Says whether all of them were new:
/// it stops at the first that was not.
fn collect_ids<T: Node>(nodes: &[T], all_ids: &mut HashSet<NodeId>) -> (fresh: bool)
    ensures
        fresh ==> {
            &&& distinct_ids(specs_of(nodes@))
            &&& forall|a: int|
                0 <= a < nodes.len() ==> !old(all_ids)@.contains(
                    (#[trigger] specs_of(nodes@)[a]).id,
                )
            &&& final(all_ids)@ == old(all_ids)@.union(id_set(specs_of(nodes@)))
        },
        !fresh ==> !distinct_ids(specs_of(nodes@)) || exists|a: int|
            0 <= a < nodes.len() && old(all_ids)@.contains((#[trigger] specs_of(nodes@)[a]).id),
{
    let ghost s = specs_of(nodes@);
    let ghost seen = all_ids@;
    let mut i: usize = 0;
    while i < nodes.len()
        invariant
            i <= nodes.len(),
            s == specs_of(nodes@),
            seen == old(all_ids)@,
            forall|a: int, b: int| 0 <= a < b < i ==> (#[trigger] s[a]).id != (#[trigger] s[b]).id,
            forall|a: int| 0 <= a < i ==> !seen.contains((#[trigger] s[a]).id),
            forall|id: NodeId|
                all_ids@.contains(id) <==> seen.contains(id) || exists|a: int|
                    0 <= a < i && (#[trigger] s[a]).id == id,
        decreases nodes.len() - i,
    {
        let id = nodes[i].id();
        assert(id == s[i as int].id);
        let ghost earlier = all_ids@;
        if !all_ids.insert(id) {
            proof {
                assert(earlier.contains(id));
                if seen.contains(id) {
                    assert(seen.contains(s[i as int].id));
                } else {
                    let a = choose|a: int| 0 <= a < i && (#[trigger] s[a]).id == id;
                    assert(s[a].id == s[i as int].id);
                    assert(!distinct_ids(s));
                }
            }
            return false;
        }
        i = i + 1;
    }
    proof {
        assert(all_ids@ =~= seen.union(id_set(s)));
    }
    true
}

/// Whether `id` is on the list.
fn lists(ids: &Vec<NodeId>, id: NodeId) -> (found: bool)
    ensures
        found == ids@.contains(id),
{
    let mut k: usize = 0;
    while k < ids.len()
        invariant
            k <= ids.len(),
            forall|a: int| 0 <= a < k ==> ids@[a] != id,
        decreases ids.len() - k,
    {
        if ids[k] == id {
            return true;
        }
        k = k + 1;
    }
    false
}

/// Enters the neighbours of each node under the node's identifier.
fn index_nodes<'a, T: Node>(nodes: &'a [T], node_map: &mut HashMap<NodeId, &'a Vec<NodeId>>)
    requires
        distinct_ids(specs_of(nodes@)),
        forall|a: int|
            0 <= a < nodes.len() ==> !old(node_map)@.contains_key(
                (#[trigger] specs_of(nodes@)[a]).id,
            ),
    ensures
        forall|id: NodeId| #[trigger]
            final(node_map)@.contains_key(id) <==> old(node_map)@.contains_key(id) || has_node(
                specs_of(nodes@),
                id,
            ),
        forall|id: NodeId|
            old(node_map)@.contains_key(id) ==> #[trigger] final(node_map)@[id] == old(
                node_map,
            )@[id],
        forall|a: int|
            0 <= a < nodes.len() ==> final(node_map)@[(#[trigger] specs_of(nodes@)[a]).id]@
                == specs_of(nodes@)[a].neighbors,
{
    let ghost s = specs_of(nodes@);
    let ghost start = node_map@;
    let mut i: usize = 0;
    while i < nodes.len()
        invariant
            i <= nodes.len(),
            s == specs_of(nodes@),
            distinct_ids(s),
            forall|a: int| 0 <= a < nodes.len() ==> !start.contains_key((#[trigger] s[a]).id),
            forall|id: NodeId| #[trigger]
                node_map@.contains_key(id) <==> start.contains_key(id) || exists|a: int|
                    0 <= a < i && (#[trigger] s[a]).id == id,
            forall|id: NodeId| start.contains_key(id) ==> #[trigger] node_map@[id] == start[id],
            forall|a: int| 0 <= a < i ==> node_map@[(#[trigger] s[a]).id]@ == s[a].neighbors,
        decreases nodes.len() - i,
    {
        let node = &nodes[i];
        let ghost before = node_map@;
        assert(node.spec_node() == s[i as int]);
        node_map.insert(node.id(), node.connected_drone_ids());
        proof {
            let id = s[i as int].id;
            assert(node_map@ == before.insert(id, node_map@[id]));
            assert forall|a: int| 0 <= a < i + 1 implies node_map@[(#[trigger] s[a]).id]@
                == s[a].neighbors by {
                if a < i {
                    assert(s[a].id != s[i as int].id);
                    assert(before[s[a].id]@ == s[a].neighbors);
                }
            }
            assert forall|other: NodeId| start.contains_key(other) implies #[trigger] node_map@[other]
                == start[other] by {
                assert(other != id);
                assert(before[other] == start[other]);
            }
            assert forall|other: NodeId| #[trigger]
                node_map@.contains_key(other) <==> start.contains_key(other) || exists|a: int|
                    0 <= a < i + 1 && (#[trigger] s[a]).id == other by {
                if before.contains_key(other) && !start.contains_key(other) {
                    let a = choose|a: int| 0 <= a < i && (#[trigger] s[a]).id == other;
                    assert(0 <= a < i + 1 && s[a].id == other);
                }
                if other == id {
                    assert(s[i as int].id == other);
                }
                if exists|a: int| 0 <= a < i + 1 && (#[trigger] s[a]).id == other {
                    let a = choose|a: int| 0 <= a < i + 1 && (#[trigger] s[a]).id == other;
                    if a < i {
                        assert(before.contains_key(other));
                    }
                }
            }
        }
        i = i + 1;
    }
    proof {
        assert forall|id: NodeId| #[trigger]
            node_map@.contains_key(id) <==> start.contains_key(id) || has_node(s, id) by {
            if has_node(s, id) {
                let a = choose|a: int| 0 <= a < s.len() && (#[trigger] s[a]).id == id;
                assert(0 <= a < i && s[a].id == id);
            }
        }
    }
}

/// Looks for the first link of the nodes whose target does not list the node in
/// return, with the neighbours of every node of the topology `t` at hand.
fn check_return_links<T: Node>(
    nodes: &[T],
    node_map: &HashMap<NodeId, &Vec<NodeId>>,
    Ghost(t): Ghost<Seq<NodeSpec>>,
) -> (r: Result<(), ConfigError>)
    requires
        lookup_of(node_map@, t),
        no_link(specs_of(nodes@), invalid_in(t)),
    ensures
        match r {
            Ok(()) => no_link(specs_of(nodes@), one_way_in(t)),
            Err(e) => exists|i: int, j: int|
                first_link(specs_of(nodes@), one_way_in(t), i, j) && e
                    == ConfigError::UnidirectionalConnection(
                    specs_of(nodes@)[i].id,
                    specs_of(nodes@)[i].neighbors[j],
                ),
        },
{
    let ghost s = specs_of(nodes@);
    let ghost bad = one_way_in(t);
    let mut i: usize = 0;
    while i < nodes.len()
        invariant
            i <= nodes.len(),
            s == specs_of(nodes@),
            bad == one_way_in(t),
            lookup_of(node_map@, t),
            no_link(s, invalid_in(t)),
            forall|a: int, b: int| #![trigger bad(s[a], b)] is_link(s, a, b) && a < i ==> !bad(s[a], b),
        decreases nodes.len() - i,
    {
        let node = &nodes[i];
        let id = node.id();
        let connections = node.connected_drone_ids();
        assert(node.spec_node() == s[i as int]);
        let mut j: usize = 0;
        while j < connections.len()
            invariant
                i < nodes.len(),
                j <= connections.len(),
                s == specs_of(nodes@),
                bad == one_way_in(t),
                lookup_of(node_map@, t),
                no_link(s, invalid_in(t)),
                connections@ == s[i as int].neighbors,
                id == s[i as int].id,
                forall|a: int, b: int|
                    #![trigger bad(s[a], b)]
                    is_link(s, a, b) && a < i ==> !bad(s[a], b),
                forall|b: int| #![trigger bad(s[i as int], b)] 0 <= b < j ==> !bad(s[i as int], b),
            decreases connections.len() - j,
        {
            let connection = connections[j];
            proof {
                let known = invalid_in(t);
                assert(is_link(s, i as int, j as int));
                assert(!known(s[i as int], j as int));
                assert(has_node(t, connection));
                assert(node_map@.contains_key(connection));
            }
            if let Some(neighbor) = node_map.get(&connection) {
                let returned = lists(neighbor, id);
                proof {
                    let m = choose|m: int| 0 <= m < t.len() && (#[trigger] t[m]).id == connection;
                    assert(neighbor@ == t[m].neighbors);
                    if returned {
                        assert(!neighbor_one_way(s[i as int], t, j as int)) by {
                            assert forall|w: int|
                                0 <= w < t.len() && (#[trigger] t[w]).id
                                    == connection implies t[w].neighbors.contains(id) by {
                                assert(node_map@[t[w].id]@ == t[w].neighbors);
                            }
                        }
                    } else {
                        assert(neighbor_one_way(s[i as int], t, j as int));
                    }
                }
                if !returned {
                    proof {
                        assert(first_link(s, bad, i as int, j as int));
                    }
                    return Err(ConfigError::UnidirectionalConnection(id, connection));
                }
            }
            j = j + 1;
        }
        i = i + 1;
    }
    Ok(())
}

/// Looks for the first node that misses the bound on its number of neighbours.
fn check_degrees<T: Node>(nodes: &[T]) -> (r: Result<(), ConfigError>)
    ensures
        match r {
            Ok(()) => degrees_ok(specs_of(nodes@)),
            Err(e) => exists|i: int|
                first_degree_offender(specs_of(nodes@), i) && e == match specs_of(
                    nodes@,
                )[i].kind {
                    NodeType::Server => ConfigError::ServerWithLessThanTwoConnections(
                        specs_of(nodes@)[i].id,
                    ),
                    _ => ConfigError::ClientWithMoreThanTwoConnections(specs_of(nodes@)[i].id),
                },
        },
{
    let ghost s = specs_of(nodes@);
    let mut i: usize = 0;
    while i < nodes.len()
        invariant
            i <= nodes.len(),
            s == specs_of(nodes@),
            forall|a: int| 0 <= a < i ==> degree_ok(#[trigger] s[a]),
        decreases nodes.len() - i,
    {
        let node = &nodes[i];
        assert(node.spec_node() == s[i as int]);
        let connections = node.connected_drone_ids().len();
        match node.node_type() {
            NodeType::Drone => {},
            NodeType::Client => {
                if connections > 2 {
                    proof {
                        assert(first_degree_offender(s, i as int));
                    }
                    return Err(ConfigError::ClientWithMoreThanTwoConnections(node.id()));
                }
            },
            NodeType::Server => {
                if connections < 2 {
                    proof {
                        assert(first_degree_offender(s, i as int));
                    }
                    return Err(ConfigError::ServerWithLessThanTwoConnections(node.id()));
                }
            },
        }
        i = i + 1;
    }
    Ok(())
}

impl Parser {
    /// The topology of the given records, validated; without records, the empty
    /// topology, unvalidated.
    pub fn new(records: Option<(Vec<ParsedDrone>, Vec<ParsedClient>, Vec<ParsedServer>)>) -> (r:
        Result<Self, ConfigError>)
        ensures
            match records {
                None => r matches Ok(config) && config.drones@.len() == 0 && config.clients@.len()
                    == 0 && config.servers@.len() == 0,
                Some(given) => match r {
                    Ok(config) => {
                        &&& verdict(config@) is Ok
                        &&& config.drones == given.0
                        &&& config.clients == given.1
                        &&& config.servers == given.2
                    },
                    Err(e) => verdict(topology_of(given.0@, given.1@, given.2@)) == Err::<
                        (),
                        ConfigError,
                    >(e),
                },
            },
    {
        let mut config = Parser { drones: Vec::new(), clients: Vec::new(), servers: Vec::new() };
        if let Some(given) = records {
            let (drones, clients, servers) = given;
            match config.parse_config_file(drones, clients, servers) {
                Err(e) => {
                    return Err(e);
                },
                Ok(()) => {},
            }
        }
        Ok(config)
    }

    /// Replaces the topology by the records read from a configuration file, and
    /// validates it.
    pub fn parse_config_file(
        &mut self,
        drones: Vec<ParsedDrone>,
        clients: Vec<ParsedClient>,
        servers: Vec<ParsedServer>,
    ) -> (r: Result<(), ConfigError>)
        ensures
            final(self).drones == drones,
            final(self).clients == clients,
            final(self).servers == servers,
            r == verdict(final(self)@),
    {
        self.drones = drones;
        self.clients = clients;
        self.servers = servers;
        self.check_topology()
    }

    /// Looks for the first link of the nodes that is structurally invalid: its target
    /// is the node itself, repeats an earlier neighbour of the node, or is not among
    /// the identifiers in use.
    fn generic_check_topology<T: Node>(nodes: &[T], all_ids: &HashSet<NodeId>) -> (r: Result<
        (),
        ConfigError,
    >)
        ensures
            match r {
                Ok(()) => no_link(specs_of(nodes@), invalid_among(all_ids@)),
                Err(e) => exists|i: int, j: int|
                    first_link(specs_of(nodes@), invalid_among(all_ids@), i, j) && e
                        == ConfigError::InvalidNodeConnection(
                        specs_of(nodes@)[i].id,
                        specs_of(nodes@)[i].neighbors[j],
                    ),
            },
    {
        let ghost s = specs_of(nodes@);
        let ghost bad = invalid_among(all_ids@);
        let mut i: usize = 0;
        while i < nodes.len()
            invariant
                i <= nodes.len(),
                s == specs_of(nodes@),
                bad == invalid_among(all_ids@),
                forall|a: int, b: int|
                    #![trigger bad(s[a], b)]
                    is_link(s, a, b) && a < i ==> !bad(s[a], b),
            decreases nodes.len() - i,
        {
            let node = &nodes[i];
            let id = node.id();
            let connections = node.connected_drone_ids();
            assert(node.spec_node() == s[i as int]);
            let mut connection_set: HashSet<NodeId> = HashSet::new();
            let mut j: usize = 0;
            while j < connections.len()
                invariant
                    i < nodes.len(),
                    j <= connections.len(),
                    s == specs_of(nodes@),
                    bad == invalid_among(all_ids@),
                    connections@ == s[i as int].neighbors,
                    id == s[i as int].id,
                    forall|c: NodeId|
                        connection_set@.contains(c) <==> exists|k: int|
                            0 <= k < j && #[trigger] connections@[k] == c,
                    forall|a: int, b: int|
                        #![trigger bad(s[a], b)]
                        is_link(s, a, b) && a < i ==> !bad(s[a], b),
                    forall|b: int|
                        #![trigger bad(s[i as int], b)]
                        0 <= b < j ==> !bad(s[i as int], b),
                decreases connections.len() - j,
            {
                let connection = connections[j];
                let ghost earlier = connection_set@;
                let mut invalid = connection == id;
                if !invalid {
                    invalid = !connection_set.insert(connection);
                }
                if !invalid {
                    invalid = !all_ids.contains(&connection);
                }
                proof {
                    assert(earlier.contains(connection) <==> exists|k: int|
                        0 <= k < j && #[trigger] connections@[k] == connection);
                    assert(invalid == neighbor_invalid(s[i as int], all_ids@, j as int));
                }
                if invalid {
                    proof {
                        assert(first_link(s, bad, i as int, j as int));
                    }
                    return Err(ConfigError::InvalidNodeConnection(id, connection));
                }
                proof {
                    assert forall|c: NodeId|
                        connection_set@.contains(c) <==> exists|k: int|
                            0 <= k < j + 1 && #[trigger] connections@[k] == c by {
                        if earlier.contains(c) {
                            let k = choose|k: int| 0 <= k < j && #[trigger] connections@[k] == c;
                            assert(0 <= k < j + 1 && connections@[k] == c);
                        }
                        if c == connection {
                            assert(connections@[j as int] == c);
                        }
                    }
                }
                j = j + 1;
            }
            i = i + 1;
        }
        Ok(())
    }

    /// Validates the topology: the verdict on it.
    pub fn check_topology(&self) -> (r: Result<(), ConfigError>)
        ensures
            r == verdict(self@),
            r is Ok <==> well_formed(self@),
            !distinct_ids(self@) <==> r == Err::<(), ConfigError>(ConfigError::DuplicatedNodeId),
    {
        let ghost d = specs_of(self.drones@);
        let ghost c = specs_of(self.clients@);
        let ghost s = specs_of(self.servers@);
        let ghost t = self@;
        assert(t == (d + c) + s);

        // Identifiers are unique.
        let mut all_ids: HashSet<NodeId> = HashSet::new();
        assert(all_ids@ =~= id_set(Seq::<NodeSpec>::empty()));
        if !collect_ids(self.drones.as_slice(), &mut all_ids) {
            proof {
                lemma_duplicate_in_front(d, c);
                lemma_duplicate_in_front(d + c, s);
            }
            return Err(ConfigError::DuplicatedNodeId);
        }
        assert(all_ids@ =~= id_set(d));
        if !collect_ids(self.clients.as_slice(), &mut all_ids) {
            proof {
                lemma_duplicate_behind(d, c);
                lemma_duplicate_in_front(d + c, s);
            }
            return Err(ConfigError::DuplicatedNodeId);
        }
        proof {
            lemma_distinct_joined(d, c);
            lemma_id_set_joined(d, c);
        }
        if !collect_ids(self.servers.as_slice(), &mut all_ids) {
            proof {
                lemma_duplicate_behind(d + c, s);
            }
            return Err(ConfigError::DuplicatedNodeId);
        }
        proof {
            lemma_distinct_joined(d + c, s);
            lemma_id_set_joined(d + c, s);
            assert(all_ids@ == id_set(t));
        }

        // The topology is not empty.
        if all_ids.is_empty() {
            proof {
                if t.len() > 0 {
                    assert(has_node(t, t[0].id));
                    assert(id_set(t).contains(t[0].id));
                }
            }
            return Err(ConfigError::EmptyTopology);
        }
        proof {
            if t.len() == 0 {
                assert(id_set(t) =~= Set::<NodeId>::empty());
            }
        }

        // Every link is structurally valid.
        let ghost invalid = invalid_in(t);
        match Parser::generic_check_topology(self.drones.as_slice(), &all_ids) {
            Err(e) => {
                proof {
                    let (i, j) = choose|i: int, j: int|
                        first_link(d, invalid, i, j) && e == ConfigError::InvalidNodeConnection(
                            d[i].id,
                            d[i].neighbors[j],
                        );
                    lemma_first_link_in_front(d, c, invalid, i, j);
                    lemma_first_link_in_front(d + c, s, invalid, i, j);
                    lemma_verdict_invalid(t, i, j);
                    assert(t[i] == d[i]);
                }
                return Err(e);
            },
            Ok(()) => {},
        }
        match Parser::generic_check_topology(self.clients.as_slice(), &all_ids) {
            Err(e) => {
                proof {
                    let (i, j) = choose|i: int, j: int|
                        first_link(c, invalid, i, j) && e == ConfigError::InvalidNodeConnection(
                            c[i].id,
                            c[i].neighbors[j],
                        );
                    lemma_first_link_behind(d, c, invalid, i, j);
                    lemma_first_link_in_front(d + c, s, invalid, d.len() + i, j);
                    lemma_verdict_invalid(t, d.len() + i, j);
                    assert(t[d.len() + i] == c[i]);
                }
                return Err(e);
            },
            Ok(()) => {},
        }
        proof {
            lemma_no_link_joined(d, c, invalid);
        }
        match Parser::generic_check_topology(self.servers.as_slice(), &all_ids) {
            Err(e) => {
                proof {
                    let (i, j) = choose|i: int, j: int|
                        first_link(s, invalid, i, j) && e == ConfigError::InvalidNodeConnection(
                            s[i].id,
                            s[i].neighbors[j],
                        );
                    lemma_first_link_behind(d + c, s, invalid, i, j);
                    lemma_verdict_invalid(t, (d + c).len() + i, j);
                    assert(t[(d + c).len() + i] == s[i]);
                }
                return Err(e);
            },
            Ok(()) => {},
        }
        proof {
            lemma_no_link_joined(d + c, s, invalid);
        }

        // Every link has its return link.
        let mut node_map: HashMap<NodeId, &Vec<NodeId>> = HashMap::new();
        index_nodes(self.drones.as_slice(), &mut node_map);
        proof {
            assert forall|a: int| 0 <= a < c.len() implies !node_map@.contains_key(
                (#[trigger] c[a]).id,
            ) by {
                assert(!id_set(d).contains(c[a].id));
            }
        }
        index_nodes(self.clients.as_slice(), &mut node_map);
        proof {
            assert forall|id: NodeId| #[trigger] node_map@.contains_key(id) <==> has_node(d + c, id) by {
                assert(id_set(d + c).contains(id) <==> id_set(d).contains(id) || id_set(
                    c,
                ).contains(id));
            }
            assert forall|a: int| 0 <= a < s.len() implies !node_map@.contains_key(
                (#[trigger] s[a]).id,
            ) by {
                assert(!id_set(d + c).contains(s[a].id));
            }
        }
        let ghost half = node_map@;
        index_nodes(self.servers.as_slice(), &mut node_map);
        proof {
            assert forall|id: NodeId| #[trigger] node_map@.contains_key(id) <==> has_node(t, id) by {
                assert(id_set(t).contains(id) <==> id_set(d + c).contains(id) || id_set(
                    s,
                ).contains(id));
            }
            assert forall|m: int| 0 <= m < t.len() implies node_map@.contains_key(
                (#[trigger] t[m]).id,
            ) && node_map@[t[m].id]@ == t[m].neighbors by {
                assert(has_node(t, t[m].id));
                if m < d.len() {
                    assert(t[m] == d[m]);
                    assert(has_node(d, d[m].id));
                    assert(half.contains_key(d[m].id));
                } else if m < d.len() + c.len() {
                    assert(t[m] == c[m - d.len()]);
                    assert(has_node(c, c[m - d.len()].id));
                    assert(half.contains_key(c[m - d.len()].id));
                } else {
                    assert(t[m] == s[m - d.len() - c.len()]);
                }
            }
            assert(lookup_of(node_map@, t));
        }
        let ghost one_way = one_way_in(t);
        proof {
            assert(no_link(d, invalid) && no_link(c, invalid) && no_link(s, invalid));
        }
        match check_return_links(self.drones.as_slice(), &node_map, Ghost(t)) {
            Err(e) => {
                proof {
                    let (i, j) = choose|i: int, j: int|
                        first_link(d, one_way, i, j) && e
                            == ConfigError::UnidirectionalConnection(d[i].id, d[i].neighbors[j]);
                    lemma_first_link_in_front(d, c, one_way, i, j);
                    lemma_first_link_in_front(d + c, s, one_way, i, j);
                    lemma_verdict_one_way(t, i, j);
                    assert(t[i] == d[i]);
                }
                return Err(e);
            },
            Ok(()) => {},
        }
        match check_return_links(self.clients.as_slice(), &node_map, Ghost(t)) {
            Err(e) => {
                proof {
                    let (i, j) = choose|i: int, j: int|
                        first_link(c, one_way, i, j) && e
                            == ConfigError::UnidirectionalConnection(c[i].id, c[i].neighbors[j]);
                    lemma_first_link_behind(d, c, one_way, i, j);
                    lemma_first_link_in_front(d + c, s, one_way, d.len() + i, j);
                    lemma_verdict_one_way(t, d.len() + i, j);
                    assert(t[d.len() + i] == c[i]);
                }
                return Err(e);
            },
            Ok(()) => {},
        }
        proof {
            lemma_no_link_joined(d, c, one_way);
        }
        match check_return_links(self.servers.as_slice(), &node_map, Ghost(t)) {
            Err(e) => {
                proof {
                    let (i, j) = choose|i: int, j: int|
                        first_link(s, one_way, i, j) && e
                            == ConfigError::UnidirectionalConnection(s[i].id, s[i].neighbors[j]);
                    lemma_first_link_behind(d + c, s, one_way, i, j);
                    lemma_verdict_one_way(t, (d + c).len() + i, j);
                    assert(t[(d + c).len() + i] == s[i]);
                }
                return Err(e);
            },
            Ok(()) => {},
        }
        proof {
            lemma_no_link_joined(d + c, s, one_way);
        }

        // Clients have at most two neighbours, servers at least two.
        proof {
            assert forall|a: int| 0 <= a < d.len() implies degree_ok(#[trigger] t[a]) by {
                assert(t[a] == d[a]);
            }
        }
        match check_degrees(self.clients.as_slice()) {
            Err(e) => {
                proof {
                    let i = choose|i: int|
                        first_degree_offender(c, i) && e == match c[i].kind {
                            NodeType::Server => ConfigError::ServerWithLessThanTwoConnections(
                                c[i].id,
                            ),
                            _ => ConfigError::ClientWithMoreThanTwoConnections(c[i].id),
                        };
                    let n = d.len() + i;
                    assert(t[n] == c[i]);
                    assert forall|a: int| 0 <= a < n implies degree_ok(#[trigger] t[a]) by {
                        if a >= d.len() {
                            assert(t[a] == c[a - d.len()]);
                        }
                    }
                    assert(first_degree_offender(t, n));
                    lemma_verdict_degree(t, n);
                }
                return Err(e);
            },
            Ok(()) => {},
        }
        match check_degrees(self.servers.as_slice()) {
            Err(e) => {
                proof {
                    let i = choose|i: int|
                        first_degree_offender(s, i) && e == match s[i].kind {
                            NodeType::Server => ConfigError::ServerWithLessThanTwoConnections(
                                s[i].id,
                            ),
                            _ => ConfigError::ClientWithMoreThanTwoConnections(s[i].id),
                        };
                    let n = d.len() + c.len() + i;
                    assert(t[n] == s[i]);
                    assert forall|a: int| 0 <= a < n implies degree_ok(#[trigger] t[a]) by {
                        if a >= d.len() + c.len() {
                            assert(t[a] == s[a - d.len() - c.len()]);
                        } else if a >= d.len() {
                            assert(t[a] == c[a - d.len()]);
                        }
                    }
                    assert(first_degree_offender(t, n));
                    lemma_verdict_degree(t, n);
                }
                return Err(e);
            },
            Ok(()) => {},
        }
        proof {
            assert forall|a: int| 0 <= a < t.len() implies degree_ok(#[trigger] t[a]) by {
                if a >= d.len() + c.len() {
                    assert(t[a] == s[a - d.len() - c.len()]);
                } else if a >= d.len() {
                    assert(t[a] == c[a - d.len()]);
                }
            }
        }
        Ok(())
    }
}

} // verus!
