use crossbeam::channel::{unbounded, Receiver, Sender};
use vstd::prelude::*;

verus! {

/// The send-endpoint of a crossbeam channel. Its inside is hidden: in contracts an
/// endpoint stands for the channel it belongs to and nothing else.
#[verifier::external_type_specification]
#[verifier::external_body]
#[verifier::reject_recursive_types(T)]
pub struct ExSender<T>(Sender<T>);

/// The receive-endpoint of a crossbeam channel, hidden like the send-endpoint.
#[verifier::external_type_specification]
#[verifier::external_body]
#[verifier::reject_recursive_types(T)]
pub struct ExReceiver<T>(Receiver<T>);

/// `crossbeam::channel::unbounded`: creates a new channel and returns its two
/// endpoints. Nothing is claimed of them.
pub assume_specification<T>[ unbounded::<T> ]() -> (endpoints: (Sender<T>, Receiver<T>))
;

/// crossbeam's `Clone` for `Sender`: the clone is one more handle on the channel that
/// `sender` belongs to (crossbeam's `same_channel` holds of the two). As an endpoint
/// stands for its channel, the contract reads the clone as equal to `sender`.
pub assume_specification<T>[ <Sender<T> as Clone>::clone ](sender: &Sender<T>) -> (copy: Sender<T>)
    ensures
        copy == *sender,
;

/// crossbeam's `Clone` for `Receiver`: the clone is one more handle on the channel
/// that `receiver` belongs to (crossbeam's `same_channel` holds of the two). As an
/// endpoint stands for its channel, the contract reads the clone as equal to
/// `receiver`.
pub assume_specification<T>[ <Receiver<T> as Clone>::clone ](receiver: &Receiver<T>) -> (copy:
    Receiver<T>)
    ensures
        copy == *receiver,
;

/// The two endpoints of one pipe of messages of type `T`.
#[derive(Debug)]
#[verifier::reject_recursive_types(T)]
pub struct Channel<T> {
    pub sender: Sender<T>,
    pub receiver: Receiver<T>,
}

impl<T> Channel<T> {
    /// Pairs two endpoints.
    pub fn new(sender: Sender<T>, receiver: Receiver<T>) -> (channel: Self)
        ensures
            channel.sender == sender,
            channel.receiver == receiver,
    {
        Channel { sender, receiver }
    }
}

impl<T> Clone for Channel<T> {
    /// Further handles on both endpoints.
    fn clone(&self) -> (copy: Self)
        ensures
            copy == *self,
    {
        Channel { sender: self.sender.clone(), receiver: self.receiver.clone() }
    }
}

impl<T> Default for Channel<T> {
    /// A fresh unbounded channel, empty.
    fn default() -> Self {
        let (tx, rx) = unbounded();
        Channel { sender: tx, receiver: rx }
    }
}

} // verus!
