use super::lifecycle::{Export, State};
use super::net_utils::{command_senders, senders_of};
use super::NetworkInitializer;
use crate::types::channel::Channel;
use crate::types::parsed_nodes::{NodeId, ParsedClient, ParsedDrone, ParsedServer};
use crate::utils::errors::ConfigError;
use crate::utils::parser::{topology_of, Parser};
use crate::utils::topology::verdict;
use crossbeam::channel::{Receiver, Sender};
use std::collections::HashMap;
use vstd::prelude::*;

verus! {

impl<P, C, E> NetworkInitializer<P, C, E> {
    /// The two networks differ at most in their lifecycle.
    pub open spec fn same_network(&self, other: &Self) -> bool {
        &&& self.nodes() == other.nodes()
        &&& self.data_channels() == other.data_channels()
        &&& self.command_channels() == other.command_channels()
        &&& self.event_channel() == other.event_channel()
    }

    /// Replaces the topology by that of the given records, validated; without
    /// records, by the empty topology. The channels stay as they are. A refused
    /// topology leaves the network as it was.
    pub fn set_path(
        &mut self,
        records: Option<(Vec<ParsedDrone>, Vec<ParsedClient>, Vec<ParsedServer>)>,
    ) -> (r: Result<(), ConfigError>)
        ensures
            match records {
                None => r is Ok && final(self).nodes()@.len() == 0,
                Some(given) => match r {
                    Ok(()) => {
                        &&& verdict(final(self).nodes()@) is Ok
                        &&& final(self).nodes().drones == given.0
                        &&& final(self).nodes().clients == given.1
                        &&& final(self).nodes().servers == given.2
                    },
                    Err(e) => verdict(topology_of(given.0@, given.1@, given.2@)) == Err::<
                        (),
                        ConfigError,
                    >(e),
                },
            },
            r is Err ==> *final(self) == *old(self),
            final(self).lifecycle() == old(self).lifecycle(),
            final(self).data_channels() == old(self).data_channels(),
            final(self).command_channels() == old(self).command_channels(),
            final(self).event_channel() == old(self).event_channel(),
    {
        match Parser::new(records) {
            Ok(parser) => {
                self.parser = parser;
                Ok(())
            },
            Err(e) => Err(e),
        }
    }

    /// The declared drones, clients and servers.
    #[must_use]
    pub fn get_nodes(&self) -> (nodes: (&Vec<ParsedDrone>, &Vec<ParsedClient>, &Vec<ParsedServer>))
        ensures
            *nodes.0 == self.nodes().drones,
            *nodes.1 == self.nodes().clients,
            *nodes.2 == self.nodes().servers,
    {
        (&self.parser.drones, &self.parser.clients, &self.parser.servers)
    }

    /// The state of the network.
    #[must_use]
    pub fn state(&self) -> (state: State)
        ensures
            state == self.lifecycle().state,
    {
        self.lifecycle.state
    }

    /// Notes that the handle was taken.
    fn switch_state(&mut self, step: Export)
        ensures
            final(self).lifecycle() == old(self).lifecycle().after_export(step),
            final(self).same_network(old(self)),
    {
        self.lifecycle.record(step);
    }

    /// Hands out the receive-endpoint of the event channel that all nodes share.
    #[must_use]
    pub fn get_controller_recv(&mut self) -> (receiver: Receiver<E>)
        ensures
            receiver == old(self).event_channel().receiver,
            final(self).lifecycle() == old(self).lifecycle().after_export(Export::ControllerRecv),
            final(self).same_network(old(self)),
    {
        self.switch_state(Export::ControllerRecv);
        self.node_event.receiver.clone()
    }

    /// Hands out the send-endpoint of the command channel of every node.
    #[must_use]
    pub fn get_controller_senders(&mut self) -> (senders: HashMap<NodeId, Sender<C>>)
        ensures
            senders@ == command_senders(old(self).command_channels()),
            final(self).lifecycle() == old(self).lifecycle().after_export(
                Export::ControllerSenders,
            ),
            final(self).same_network(old(self)),
    {
        self.switch_state(Export::ControllerSenders);
        senders_of(&self.drone_command_map)
    }

    /// Hands out the data channel of every node. Once the simulation has started the
    /// data channels are consumed, and there is none to hand out.
    #[must_use]
    pub fn get_channels(&mut self) -> (channels: HashMap<NodeId, Channel<P>>)
        ensures
            channels@ == old(self).data_channels(),
            final(self).lifecycle() == old(self).lifecycle().after_export(Export::Channels),
            final(self).same_network(old(self)),
    {
        self.switch_state(Export::Channels);
        self.channel_map.clone()
    }
}

} // verus!
