//! A future whose value arrives on a `std::sync::mpsc` channel, possibly from another thread.
use vstd::prelude::*;

use crate::base::{ChannelClosed, Future};

verus! {

#[verifier::external_type_specification]
#[verifier::external_body]
#[verifier::reject_recursive_types(T)]
pub struct ExReceiver<T>(std::sync::mpsc::Receiver<T>);

#[verifier::external_type_specification]
#[verifier::external_body]
#[verifier::reject_recursive_types(T)]
pub struct ExSender<T>(std::sync::mpsc::Sender<T>);

#[verifier::external_type_specification]
#[verifier::external_body]
pub struct ExRecvError(std::sync::mpsc::RecvError);

/// Relies on `std::sync::mpsc::channel`: a fresh channel, as its sending and receiving ends.
/// Nothing is stated of either end.
pub assume_specification<T>[ std::sync::mpsc::channel::<T> ]() -> (
    std::sync::mpsc::Sender<T>,
    std::sync::mpsc::Receiver<T>,
);

/// Relies on `std::sync::mpsc::Receiver::recv`: blocks until a value is available or every
/// sender is gone. Which of the two comes, and which value, depends on other threads, so
/// nothing is stated of the result.
pub assume_specification<T>[ std::sync::mpsc::Receiver::<T>::recv ](
    rx: &std::sync::mpsc::Receiver<T>,
) -> Result<T, std::sync::mpsc::RecvError>;

/// The sending end paired with a [`ChannelFuture`]: the first value sent on it is the
/// value that the future resolves to.
pub type Resolver<T> = std::sync::mpsc::Sender<T>;

/// A future that resolves to the first value not yet read from a channel, blocking until
/// one arrives, or fails with [`ChannelClosed`] once no value can arrive any more.
#[verifier::reject_recursive_types(T)]
pub struct ChannelFuture<T> {
    rx: std::sync::mpsc::Receiver<T>,
}

impl<T> ChannelFuture<T> {
    /// The receiving end that the future reads from.
    pub closed spec fn receiver(&self) -> std::sync::mpsc::Receiver<T> {
        self.rx
    }

    /// Creates a fresh channel and returns a future on its receiving end with the paired
    /// resolver. The first value sent through the resolver is what the future resolves to.
    pub fn new() -> (ChannelFuture<T>, Resolver<T>) {
        let (tx, rx) = std::sync::mpsc::channel();
        (ChannelFuture { rx: rx }, tx)
    }

    /// Creates a future on an existing receiving end. The first value not yet read from it
    /// is what the future resolves to.
    pub fn from_receiver(rx: std::sync::mpsc::Receiver<T>) -> (r: ChannelFuture<T>)
        ensures
            r.receiver() == rx,
    {
        ChannelFuture { rx: rx }
    }
}

/// What the outcome of a receive on the channel means for the future: the value received,
/// or [`ChannelClosed`] where the channel was closed with no value.
pub fn received<T>(outcome: Result<T, std::sync::mpsc::RecvError>) -> (r: Result<T, ChannelClosed>)
    ensures
        outcome is Ok ==> r == Ok::<T, ChannelClosed>(outcome->Ok_0),
        outcome is Err ==> r == Err::<T, ChannelClosed>(ChannelClosed),
{
    match outcome {
        Ok(v) => Ok(v),
        Err(_) => Err(ChannelClosed),
    }
}

impl<T> Future for ChannelFuture<T> {
    type Output = T;

    /// A channel future can always be resolved.
    open spec fn ready(&self) -> bool {
        true
    }

    /// Any value, or the failure, may come: that is up to the sending side.
    open spec fn yields(&self, r: Result<T, ChannelClosed>) -> bool {
        true
    }

    fn resolve(self) -> (r: Result<T, ChannelClosed>) {
        received(self.rx.recv())
    }
}

} // verus!
