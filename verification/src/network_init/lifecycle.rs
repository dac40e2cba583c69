//! The life of a network: created, initialized once the controller holds its three
//! handles, running once the simulation has started.

use crate::utils::errors::SimulationError;
use vstd::prelude::*;

verus! {

/// Where the network is in its life.
#[derive(Debug, Clone, Copy, PartialEq, Eq, Structural)]
pub enum State {
    /// Created; the controller has not taken all of its handles yet.
    Instantiated,
    /// The controller holds its three handles; the simulation can start.
    Initialized,
    /// The nodes have been built.
    Running,
}

/// The three handles that a controller takes from the network before it starts.
#[derive(Debug, Clone, Copy, PartialEq, Eq, Structural)]
pub enum Export {
    /// The data channels of all nodes.
    Channels,
    /// The receive-endpoint of the shared event channel.
    ControllerRecv,
    /// The send-endpoints of the command channels of all nodes.
    ControllerSenders,
}

/// The state of the network together with the handles taken so far.
#[derive(Debug, Clone, Copy, PartialEq, Eq, Structural)]
pub struct Lifecycle {
    pub state: State,
    pub channels: bool,
    pub controller_recv: bool,
    pub controller_senders: bool,
}

impl Lifecycle {
    /// A network just created: no handle taken.
    pub open spec fn fresh() -> Lifecycle {
        Lifecycle {
            state: State::Instantiated,
            channels: false,
            controller_recv: false,
            controller_senders: false,
        }
    }

    /// The handle has been taken at least once.
    pub open spec fn done(self, step: Export) -> bool {
        match step {
            Export::Channels => self.channels,
            Export::ControllerRecv => self.controller_recv,
            Export::ControllerSenders => self.controller_senders,
        }
    }

    /// How many of the three handles have been taken.
    pub open spec fn steps_done(self) -> nat {
        (if self.channels {
            1nat
        } else {
            0nat
        }) + (if self.controller_recv {
            1nat
        } else {
            0nat
        }) + (if self.controller_senders {
            1nat
        } else {
            0nat
        })
    }

    /// The handle noted as taken, the state untouched.
    pub open spec fn mark(self, step: Export) -> Lifecycle {
        match step {
            Export::Channels => Lifecycle { channels: true, ..self },
            Export::ControllerRecv => Lifecycle { controller_recv: true, ..self },
            Export::ControllerSenders => Lifecycle { controller_senders: true, ..self },
        }
    }

    /// The lifecycle after the handle was taken: the handle counts once however often
    /// it is taken, and the network becomes `Initialized` when the third one is.
    pub open spec fn after_export(self, step: Export) -> Lifecycle {
        let marked = self.mark(step);
        if self.state == State::Instantiated && marked.steps_done() == 3 {
            Lifecycle { state: State::Initialized, ..marked }
        } else {
            marked
        }
    }

    /// The lifecycle after a request to start: `Running` from `Initialized`, refused
    /// from any other state.
    pub open spec fn after_start(self) -> Result<Lifecycle, SimulationError> {
        if self.state == State::Initialized {
            Ok(Lifecycle { state: State::Running, ..self })
        } else {
            Err(SimulationError::NotInitialized)
        }
    }

    /// The state agrees with the handles taken: the network is `Instantiated` exactly
    /// while one of them is missing.
    pub open spec fn coherent(self) -> bool {
        self.state == State::Instantiated <==> self.steps_done() < 3
    }

    /// Notes the handle as taken and moves to `Initialized` when it was the last one
    /// missing.
    pub fn record(&mut self, step: Export)
        ensures
            *final(self) == old(self).after_export(step),
    {
        match step {
            Export::Channels => {
                self.channels = true;
            },
            Export::ControllerRecv => {
                self.controller_recv = true;
            },
            Export::ControllerSenders => {
                self.controller_senders = true;
            },
        }
        if self.channels && self.controller_recv && self.controller_senders {
            match self.state {
                State::Instantiated => {
                    self.state = State::Initialized;
                },
                _ => {},
            }
        }
    }
}

/// Taking a handle a second time changes nothing.
pub proof fn lemma_export_idempotent(l: Lifecycle, step: Export)
    ensures
        l.after_export(step).after_export(step) == l.after_export(step),
{
}

/// The order in which two handles are taken does not matter.
pub proof fn lemma_exports_commute(l: Lifecycle, first: Export, second: Export)
    ensures
        l.after_export(first).after_export(second) == l.after_export(second).after_export(first),
{
}

/// Taking a handle keeps the state and the handles taken in agreement, never leaves
/// `Running`, and never forgets a handle.
pub proof fn lemma_export_keeps_coherent(l: Lifecycle, step: Export)
    requires
        l.coherent(),
    ensures
        l.after_export(step).coherent(),
        l.after_export(step).done(step),
        forall|other: Export| l.done(other) ==> #[trigger] l.after_export(step).done(other),
        l.state == State::Running ==> l.after_export(step).state == State::Running,
{
}

/// While a handle is missing the network is `Instantiated` and a start is refused
/// with `NotInitialized`.
pub proof fn lemma_start_needs_every_export(l: Lifecycle, missing: Export)
    requires
        l.coherent(),
        !l.done(missing),
    ensures
        l.state == State::Instantiated,
        l.after_start() == Err::<Lifecycle, SimulationError>(SimulationError::NotInitialized),
{
}

/// After each of the three handles was taken once, in any order, a fresh network is
/// `Initialized`, and a start moves it to `Running`.
pub proof fn lemma_three_exports_initialize(first: Export, second: Export, third: Export)
    requires
        first != second,
        first != third,
        second != third,
    ensures
        Lifecycle::fresh().after_export(first).after_export(second).after_export(third).state
            == State::Initialized,
        Lifecycle::fresh().after_export(first).after_export(second).after_export(
            third,
        ).after_start() matches Ok(l) && l.state == State::Running,
{
}

} // verus!
