//! Wiring of declared nodes: which send-endpoints a node is handed, which factory
//! builds it, and what stops the construction of a category.

use crate::types::channel::Channel;
use crate::types::parsed_nodes::{Initializable, NodeId, NodeType};
use crate::utils::errors::{ChannelError, SimulationError};
use crossbeam::channel::{Receiver, Sender};
use std::collections::HashMap;
use vstd::prelude::*;
use vstd::std_specs::cmp::PartialEqSpec;
use vstd::std_specs::iter::IteratorSpec;

verus! {

broadcast use vstd::std_specs::hash::group_hash_axioms;

/// The send-endpoints a node is handed: for each declared neighbour that has a data
/// channel, the send-endpoint of that channel.
pub open spec fn neighbor_senders<P>(
    channels: Map<NodeId, Channel<P>>,
    neighbors: Seq<NodeId>,
) -> Map<NodeId, Sender<P>> {
    Map::new(
        |id: NodeId| neighbors.contains(id) && channels.contains_key(id),
        |id: NodeId| channels[id].sender,
    )
}

/// The send-endpoint of each command channel.
pub open spec fn command_senders<C>(commands: Map<NodeId, Channel<C>>) -> Map<NodeId, Sender<C>> {
    Map::new(|id: NodeId| commands.contains_key(id), |id: NodeId| commands[id].sender)
}

/// The identifiers of the nodes of a list.
pub open spec fn ids_of<T: Initializable>(nodes: Seq<T>) -> Set<NodeId> {
    Set::new(|id: NodeId| exists|i: int| 0 <= i < nodes.len() && (#[trigger] nodes[i]).node_id() == id)
}

/// The node `id` has a data channel and a command channel.
pub open spec fn has_channels<P, C>(
    id: NodeId,
    channels: Map<NodeId, Channel<P>>,
    commands: Map<NodeId, Channel<C>>,
) -> bool {
    channels.contains_key(id) && commands.contains_key(id)
}

/// Every node of the list has its two channels.
pub open spec fn wired<T: Initializable, P, C>(
    nodes: Seq<T>,
    channels: Map<NodeId, Channel<P>>,
    commands: Map<NodeId, Channel<C>>,
) -> bool {
    forall|i: int|
        0 <= i < nodes.len() ==> has_channels((#[trigger] nodes[i]).node_id(), channels, commands)
}

/// The `i`-th node is the first of the list that lacks a channel.
pub open spec fn first_unwired<T: Initializable, P, C>(
    nodes: Seq<T>,
    channels: Map<NodeId, Channel<P>>,
    commands: Map<NodeId, Channel<C>>,
    i: int,
) -> bool {
    &&& 0 <= i < nodes.len()
    &&& !has_channels(nodes[i].node_id(), channels, commands)
    &&& forall|a: int|
        0 <= a < i ==> has_channels((#[trigger] nodes[a]).node_id(), channels, commands)
}

/// What stops the construction of one category of nodes, if anything: no factory
/// although the category has a node, else the first node without a channel.
pub open spec fn category_failure<T: Initializable, P, C>(
    kind: NodeType,
    nodes: Seq<T>,
    factories: nat,
    channels: Map<NodeId, Channel<P>>,
    commands: Map<NodeId, Channel<C>>,
) -> Option<SimulationError> {
    if nodes.len() > 0 && factories == 0 {
        Some(SimulationError::NoFactoryAvailable(kind))
    } else if !wired(nodes, channels, commands) {
        let i = choose|i: int| first_unwired(nodes, channels, commands, i);
        Some(SimulationError::Wiring(ChannelError::ChannelNotFound(nodes[i].node_id())))
    } else {
        None
    }
}

/// The factory can be called on any arguments.
pub open spec fn accepts_all<T, F, O, P, C, E>(factory: F) -> bool where
    F: Fn(&T, Sender<E>, Receiver<C>, HashMap<NodeId, Sender<P>>, Receiver<P>) -> O,
 {
    forall|
        node: &T,
        events: Sender<E>,
        commands: Receiver<C>,
        senders: HashMap<NodeId, Sender<P>>,
        packets: Receiver<P>,
    | #[trigger] call_requires(factory, (node, events, commands, senders, packets))
}

/// `entity` is what `factory` may return for `node` when it is handed the shared event
/// send-endpoint, the receive-endpoint of the node's command channel, the
/// send-endpoints of the node's neighbours and the receive-endpoint of the node's own
/// data channel.
pub open spec fn built_by<T, F, O, P, C, E>(
    factory: F,
    node: T,
    channels: Map<NodeId, Channel<P>>,
    commands: Map<NodeId, Channel<C>>,
    events: Channel<E>,
    entity: O,
) -> bool where
    T: Initializable,
    F: Fn(&T, Sender<E>, Receiver<C>, HashMap<NodeId, Sender<P>>, Receiver<P>) -> O,
 {
    exists|senders: HashMap<NodeId, Sender<P>>|
        senders@ == neighbor_senders(channels, node.neighbors()) && #[trigger] call_ensures(
            factory,
            (
                &node,
                events.sender,
                commands[node.node_id()].receiver,
                senders,
                channels[node.node_id()].receiver,
            ),
            entity,
        )
}

/// The allow-list as a sequence, where there is one.
pub open spec fn allow_list<T>(selected: Option<Vec<T>>) -> Option<Seq<T>> {
    match selected {
        Some(tags) => Some(tags@),
        None => None,
    }
}

/// The tag passes the allow-list: there is no list, or the tag is on it.
pub open spec fn chosen<T>(selected: Option<Seq<T>>, tag: T) -> bool {
    match selected {
        Some(tags) => tags.contains(tag),
        None => true,
    }
}

/// The factories whose tag passes the allow-list, in their order.
pub open spec fn filtered<T, G>(selected: Option<Seq<T>>, factories: Seq<(T, G)>) -> Seq<G>
    decreases factories.len(),
{
    if factories.len() == 0 {
        Seq::empty()
    } else {
        let front = filtered(selected, factories.drop_last());
        if chosen(selected, factories.last().0) {
            front.push(factories.last().1)
        } else {
            front
        }
    }
}

/// Every factory that the allow-list keeps is one of the given factories.
pub proof fn lemma_filtered_members<T, G>(selected: Option<Seq<T>>, factories: Seq<(T, G)>)
    ensures
        forall|i: int|
            0 <= i < filtered(selected, factories).len() ==> exists|k: int|
                0 <= k < factories.len() && (#[trigger] factories[k]).1 == #[trigger] filtered(
                    selected,
                    factories,
                )[i],
    decreases factories.len(),
{
    if factories.len() > 0 {
        let shorter = factories.drop_last();
        lemma_filtered_members(selected, shorter);
        let kept = filtered(selected, factories);
        let front = filtered(selected, shorter);
        assert forall|i: int| 0 <= i < kept.len() implies exists|k: int|
            0 <= k < factories.len() && (#[trigger] factories[k]).1 == #[trigger] kept[i] by {
            if i < front.len() {
                let k = choose|k: int| 0 <= k < shorter.len() && (#[trigger] shorter[k]).1 == front[i];
                assert(factories[k] == shorter[k]);
            } else {
                assert(factories[factories.len() - 1].1 == kept[i]);
            }
        }
    }
}

/// Without an allow-list every factory is kept.
pub proof fn lemma_filtered_without_list<T, G>(factories: Seq<(T, G)>)
    ensures
        filtered(None::<Seq<T>>, factories).len() == factories.len(),
        forall|i: int|
            0 <= i < factories.len() ==> #[trigger] filtered(None::<Seq<T>>, factories)[i]
                == factories[i].1,
    decreases factories.len(),
{
    if factories.len() > 0 {
        lemma_filtered_without_list::<T, G>(factories.drop_last());
    }
}

/// The `==` of `T` is equality.
pub open spec fn eq_is_equality<T: PartialEq>() -> bool {
    &&& T::obeys_eq_spec()
    &&& forall|a: T, b: T| #[trigger] a.eq_spec(&b) <==> a == b
}

/// Resolves the send-endpoints of the neighbours of a node: a further handle on the
/// send-endpoint of each neighbour's data channel. A neighbour without data channel
/// is left out.
pub fn bind_senders<P>(channel_map: &HashMap<NodeId, Channel<P>>, neighbors: &Vec<NodeId>) -> (senders:
    HashMap<NodeId, Sender<P>>)
    ensures
        senders@ == neighbor_senders(channel_map@, neighbors@),
{
    let mut senders: HashMap<NodeId, Sender<P>> = HashMap::new();
    let mut j: usize = 0;
    while j < neighbors.len()
        invariant
            j <= neighbors.len(),
            senders@ == neighbor_senders(channel_map@, neighbors@.take(j as int)),
        decreases neighbors.len() - j,
    {
        let neighbor_id = neighbors[j];
        if let Some(channel) = channel_map.get(&neighbor_id) {
            senders.insert(neighbor_id, channel.sender.clone());
        }
        j = j + 1;
        proof {
            let shorter = neighbors@.take(j - 1);
            let longer = neighbors@.take(j as int);
            assert(longer == shorter.push(neighbor_id));
            assert forall|id: NodeId| longer.contains(id) <==> shorter.contains(id) || id
                == neighbor_id by {
                if shorter.contains(id) {
                    let k = choose|k: int| 0 <= k < shorter.len() && shorter[k] == id;
                    assert(longer[k] == id);
                }
                if id == neighbor_id {
                    assert(longer[j - 1] == id);
                }
            }
            assert(senders@ =~= neighbor_senders(channel_map@, longer));
        }
    }
    proof {
        assert(neighbors@.take(j as int) == neighbors@);
    }
    senders
}

/// A further handle on the send-endpoint of every channel of the map.
pub fn senders_of<C>(channels: &HashMap<NodeId, Channel<C>>) -> (senders: HashMap<
    NodeId,
    Sender<C>,
>)
    ensures
        senders@ == command_senders(channels@),
{
    let mut senders: HashMap<NodeId, Sender<C>> = HashMap::new();
    for entry in it: channels.iter()
        invariant
            it.seq() == channels.iter().remaining(),
            forall|id: NodeId| #[trigger]
                senders@.contains_key(id) ==> channels@.contains_key(id) && senders@[id]
                    == channels@[id].sender,
            forall|i: int|
                0 <= i < it.index() ==> senders@.contains_key(*(#[trigger] it.seq()[i]).0),
    {
        let (id, channel) = entry;
        proof {
            let i = it.index();
            assert(entry == it.seq()[i]);
            assert(channels@.contains_key(*it.seq()[i].0) && channels@[*it.seq()[i].0]
                == *it.seq()[i].1);
        }
        let ghost before = senders@;
        let sender = channel.sender.clone();
        senders.insert(*id, sender);
        assert forall|other: NodeId| #[trigger] senders@.contains_key(other) implies channels@.contains_key(
            other,
        ) && senders@[other] == channels@[other].sender by {
            if other != *id {
                assert(before.contains_key(other));
            }
        }
    }
    proof {
        let entries = channels.iter().remaining();
        assert forall|id: NodeId| channels@.contains_key(id) implies senders@.contains_key(id) by {
            assert(entries.contains((&id, &channels@[id])));
            let i = choose|i: int| 0 <= i < entries.len() && entries[i] == (&id, &channels@[id]);
            assert(senders@.contains_key(*entries[i].0));
        }
        assert(senders@ =~= command_senders(channels@));
    }
    senders
}

/// Allocates a fresh data channel and a fresh command channel for each node of the
/// list, under the node's identifier. The channels of other identifiers stay.
pub fn open_channels<T: Initializable, P, C>(
    nodes: &[T],
    channel_map: &mut HashMap<NodeId, Channel<P>>,
    channel_command_map: &mut HashMap<NodeId, Channel<C>>,
)
    ensures
        final(channel_map)@.dom() == old(channel_map)@.dom().union(ids_of(nodes@)),
        final(channel_command_map)@.dom() == old(channel_command_map)@.dom().union(ids_of(nodes@)),
        forall|id: NodeId|
            old(channel_map)@.contains_key(id) && !ids_of(nodes@).contains(id)
                ==> #[trigger] final(channel_map)@[id] == old(channel_map)@[id],
        forall|id: NodeId|
            old(channel_command_map)@.contains_key(id) && !ids_of(nodes@).contains(id)
                ==> #[trigger] final(channel_command_map)@[id] == old(channel_command_map)@[id],
{
    let ghost data = channel_map@.dom();
    let ghost commands = channel_command_map@.dom();
    let mut i: usize = 0;
    while i < nodes.len()
        invariant
            i <= nodes.len(),
            data == old(channel_map)@.dom(),
            commands == old(channel_command_map)@.dom(),
            channel_map@.dom() == data.union(ids_of(nodes@.take(i as int))),
            channel_command_map@.dom() == commands.union(ids_of(nodes@.take(i as int))),
            forall|id: NodeId|
                data.contains(id) && !ids_of(nodes@.take(i as int)).contains(id)
                    ==> #[trigger] channel_map@[id] == old(channel_map)@[id],
            forall|id: NodeId|
                commands.contains(id) && !ids_of(nodes@.take(i as int)).contains(id)
                    ==> #[trigger] channel_command_map@[id] == old(channel_command_map)@[id],
        decreases nodes.len() - i,
    {
        let id = *nodes[i].id();
        channel_map.insert(id, Channel::default());
        channel_command_map.insert(id, Channel::default());
        i = i + 1;
        proof {
            let shorter = nodes@.take(i - 1);
            let longer = nodes@.take(i as int);
            assert forall|other: NodeId|
                ids_of(longer).contains(other) <==> ids_of(shorter).contains(other) || other
                    == id by {
                if ids_of(shorter).contains(other) {
                    let k = choose|k: int|
                        0 <= k < shorter.len() && (#[trigger] shorter[k]).node_id() == other;
                    assert(longer[k].node_id() == other);
                }
                if other == id {
                    assert(longer[i - 1].node_id() == other);
                }
                if ids_of(longer).contains(other) {
                    let k = choose|k: int|
                        0 <= k < longer.len() && (#[trigger] longer[k]).node_id() == other;
                    if k < i - 1 {
                        assert(shorter[k].node_id() == other);
                    }
                }
            }
            assert(channel_map@.dom() =~= data.union(ids_of(longer)));
            assert(channel_command_map@.dom() =~= commands.union(ids_of(longer)));
        }
    }
    proof {
        assert(nodes@.take(i as int) == nodes@);
    }
}

/// Says what stops the construction of one category of nodes with `factories`
/// factories at hand.
pub fn check_entities<T: Initializable, P, C>(
    kind: NodeType,
    nodes: &[T],
    factories: usize,
    channel_map: &HashMap<NodeId, Channel<P>>,
    channel_command_map: &HashMap<NodeId, Channel<C>>,
) -> (r: Result<(), SimulationError>)
    ensures
        r == match category_failure(
            kind,
            nodes@,
            factories as nat,
            channel_map@,
            channel_command_map@,
        ) {
            Some(e) => Err::<(), SimulationError>(e),
            None => Ok(()),
        },
{
    if nodes.len() > 0 && factories == 0 {
        return Err(SimulationError::NoFactoryAvailable(kind));
    }
    let mut i: usize = 0;
    while i < nodes.len()
        invariant
            i <= nodes.len(),
            forall|a: int|
                0 <= a < i ==> has_channels(
                    (#[trigger] nodes@[a]).node_id(),
                    channel_map@,
                    channel_command_map@,
                ),
            !(nodes.len() > 0 && factories == 0),
        decreases nodes.len() - i,
    {
        let id = *nodes[i].id();
        if !channel_map.contains_key(&id) || !channel_command_map.contains_key(&id) {
            proof {
                assert(first_unwired(nodes@, channel_map@, channel_command_map@, i as int));
                let w = choose|w: int|
                    first_unwired(nodes@, channel_map@, channel_command_map@, w);
                if w < i {
                    assert(has_channels(nodes@[w].node_id(), channel_map@, channel_command_map@));
                }
                if i < w {
                    assert(has_channels(
                        nodes@[i as int].node_id(),
                        channel_map@,
                        channel_command_map@,
                    ));
                }
                assert(w == i);
                assert(!wired(nodes@, channel_map@, channel_command_map@)) by {
                    assert(!has_channels(
                        nodes@[i as int].node_id(),
                        channel_map@,
                        channel_command_map@,
                    ));
                }
                assert(id == nodes@[w].node_id());
            }
            return Err(SimulationError::Wiring(ChannelError::ChannelNotFound(id)));
        }
        i = i + 1;
    }
    Ok(())
}

/// Builds the nodes of one category. The `i`-th node is built by the factory at
/// `i` modulo the number of factories, from the shared event send-endpoint, the
/// receive-endpoint of its command channel, the send-endpoints of its neighbours and
/// the receive-endpoint of its own data channel.
pub fn initialize_entities<T, F, O, P, C, E>(
    nodes: &[T],
    channel_map: &HashMap<NodeId, Channel<P>>,
    channel_command_map: &HashMap<NodeId, Channel<C>>,
    node_event: &Channel<E>,
    create_entity: &[F],
) -> (entities: Vec<O>) where
    T: Initializable,
    F: Fn(&T, Sender<E>, Receiver<C>, HashMap<NodeId, Sender<P>>, Receiver<P>) -> O,

    requires
        wired(nodes@, channel_map@, channel_command_map@),
        nodes.len() > 0 ==> create_entity.len() > 0,
        forall|k: int| 0 <= k < create_entity.len() ==> accepts_all(#[trigger] create_entity@[k]),
    ensures
        entities.len() == nodes.len(),
        forall|i: int|
            0 <= i < nodes.len() ==> built_by(
                create_entity@[i % (create_entity.len() as int)],
                nodes@[i],
                channel_map@,
                channel_command_map@,
                *node_event,
                #[trigger] entities@[i],
            ),
{
    let mut entities: Vec<O> = Vec::new();
    let mut index: usize = 0;
    while index < nodes.len()
        invariant
            index <= nodes.len(),
            entities.len() == index,
            wired(nodes@, channel_map@, channel_command_map@),
            nodes.len() > 0 ==> create_entity.len() > 0,
            forall|k: int|
                0 <= k < create_entity.len() ==> accepts_all(#[trigger] create_entity@[k]),
            forall|i: int|
                0 <= i < index ==> built_by(
                    create_entity@[i % (create_entity.len() as int)],
                    nodes@[i],
                    channel_map@,
                    channel_command_map@,
                    *node_event,
                    #[trigger] entities@[i],
                ),
        decreases nodes.len() - index,
    {
        let node = &nodes[index];
        proof {
            assert(has_channels(nodes@[index as int].node_id(), channel_map@, channel_command_map@));
        }
        let senders = bind_senders(channel_map, node.connected_drone_ids());
        let receiver = channel_map.get(node.id()).expect("Receiver must exist").receiver.clone();
        let command_recv = channel_command_map.get(node.id()).expect(
            "Command receiver must exist",
        ).receiver.clone();
        let command_send = node_event.sender.clone();
        let create = &create_entity[index % create_entity.len()];
        proof {
            assert(accepts_all(create_entity@[(index % create_entity.len()) as int]));
        }
        let entity = create(node, command_send, command_recv, senders, receiver);
        entities.push(entity);
        index = index + 1;
    }
    entities
}

/// The number of the configuration that the `index`-th node of a category runs with:
/// the nodes go through the configurations `1` to `configurations` in turn.
pub fn configuration_number(index: usize, configurations: usize) -> (number: usize)
    requires
        configurations > 0,
    ensures
        number == index % configurations + 1,
        1 <= number <= configurations,
{
    index % configurations + 1
}

/// Whether `tag` is on the list.
fn is_selected<T: PartialEq>(selected: &Vec<T>, tag: &T) -> (found: bool)
    requires
        eq_is_equality::<T>(),
    ensures
        found == selected@.contains(*tag),
{
    let mut i: usize = 0;
    while i < selected.len()
        invariant
            i <= selected.len(),
            eq_is_equality::<T>(),
            forall|k: int| 0 <= k < i ==> selected@[k] != *tag,
        decreases selected.len() - i,
    {
        if selected[i] == *tag {
            return true;
        }
        i = i + 1;
    }
    false
}

/// Keeps the factories whose tag is on the allow-list, in their order; without a
/// list, keeps them all.
pub fn filter_nodes<T: PartialEq, G>(selected_nodes: Option<Vec<T>>, node_factories: Vec<(T, G)>) -> (kept:
    Vec<G>)
    requires
        eq_is_equality::<T>(),
    ensures
        kept@ == filtered(allow_list(selected_nodes), node_factories@),
{
    let ghost allowed = allow_list(selected_nodes);
    let ghost all = node_factories@;
    let mut kept: Vec<G> = Vec::new();
    for pair in it: node_factories
        invariant
            it.seq() == all,
            allowed == allow_list(selected_nodes),
            eq_is_equality::<T>(),
            kept@ == filtered(allowed, all.take(it.index())),
    {
        let (tag, factory) = pair;
        let keep = match &selected_nodes {
            Some(selected) => is_selected(selected, &tag),
            None => true,
        };
        proof {
            let i = it.index();
            assert(all.take(i + 1).drop_last() == all.take(i));
            assert(all.take(i + 1).last() == pair);
        }
        if keep {
            kept.push(factory);
        }
    }
    proof {
        assert(all.take(all.len() as int) == all);
    }
    kept
}

} // verus!
