//! Random correlated oblivious transfer: outputs, the two parties' interfaces
//! and the futures that deliver queued transfers.
use vstd::prelude::*;
use futures::channel::oneshot;

use crate::decode::{oneshot_channel, oneshot_send, oneshot_try_recv};
use crate::ot::TransferId;

verus! {

/// Output the sender receives from the random COT functionality.
#[derive(Debug)]
pub struct RCOTSenderOutput<T> {
    /// Transfer id.
    pub id: TransferId,
    /// Random keys.
    pub keys: Vec<T>,
}

/// Output the receiver receives from the random COT functionality.
#[derive(Debug)]
pub struct RCOTReceiverOutput<T, U> {
    /// Transfer id.
    pub id: TransferId,
    /// Choice bits.
    pub choices: Vec<T>,
    /// Chosen messages.
    pub msgs: Vec<U>,
}

/// Random correlated oblivious transfer sender.
pub trait RCOTSender<T> {
    /// Error type.
    type Error;

    /// The sender is well formed.
    spec fn sender_wf(&self) -> bool;

    /// `count` more RCOTs can be allocated without the allocation counter
    /// overflowing.
    spec fn sender_can_allocate(&self, count: usize) -> bool;

    /// Another transfer can be numbered without the transfer id overflowing.
    spec fn sender_can_transfer(&self) -> bool;

    /// The number of RCOTs the sender allocated for preprocessing.
    spec fn sender_allocated(&self) -> nat;

    /// Everything but the sender's allocation is the same in `self` and
    /// `other`.
    spec fn same_but_sender_allocation(&self, other: &Self) -> bool;

    /// Allocates `count` RCOTs for preprocessing.
    fn allocate(&mut self, count: usize) -> (r: Result<(), Self::Error>)
        requires
            old(self).sender_wf(),
            old(self).sender_can_allocate(count),
        ensures
            final(self).sender_wf(),
            r is Ok,
            final(self).sender_allocated() == old(self).sender_allocated() + count,
            final(self).same_but_sender_allocation(old(self)),
    ;

    /// The number of RCOTs available to the sender.
    spec fn sender_available_count(&self) -> nat;

    /// The global correlation key.
    spec fn correlation(&self) -> T;

    /// Returns the number of available RCOTs.
    fn available(&self) -> (r: usize)
        ensures
            r == self.sender_available_count(),
    ;

    /// Returns the global correlation key, `delta`.
    fn delta(&self) -> (r: T)
        ensures
            r == self.correlation(),
    ;

    /// Returns preprocessed RCOTs, if available.
    fn try_send_rcot(&mut self, count: usize) -> (r: Result<RCOTSenderOutput<T>, Self::Error>)
        requires
            old(self).sender_wf(),
            old(self).sender_can_transfer(),
        ensures
            final(self).sender_wf(),
    ;

    /// Returns a future which will yield RCOTs once they are ready.
    fn queue_send_rcot(&mut self, count: usize) -> (r: Result<RCOTSendFuture<T>, Self::Error>)
        requires
            old(self).sender_wf(),
            old(self).sender_can_allocate(count),
            old(self).sender_can_transfer(),
        ensures
            final(self).sender_wf(),
    ;
}

/// Random correlated oblivious transfer receiver.
pub trait RCOTReceiver<T, U> {
    /// Error type.
    type Error;

    /// The receiver is well formed.
    spec fn receiver_wf(&self) -> bool;

    /// `count` more RCOTs can be allocated without the allocation counter
    /// overflowing.
    spec fn receiver_can_allocate(&self, count: usize) -> bool;

    /// Another transfer can be numbered without the transfer id overflowing.
    spec fn receiver_can_transfer(&self) -> bool;

    /// The number of RCOTs the receiver allocated for preprocessing.
    spec fn receiver_allocated(&self) -> nat;

    /// Everything but the receiver's allocation is the same in `self` and
    /// `other`.
    spec fn same_but_receiver_allocation(&self, other: &Self) -> bool;

    /// Allocates `count` RCOTs for preprocessing.
    fn allocate(&mut self, count: usize) -> (r: Result<(), Self::Error>)
        requires
            old(self).receiver_wf(),
            old(self).receiver_can_allocate(count),
        ensures
            final(self).receiver_wf(),
            r is Ok,
            final(self).receiver_allocated() == old(self).receiver_allocated() + count,
            final(self).same_but_receiver_allocation(old(self)),
    ;

    /// The number of RCOTs available to the receiver.
    spec fn receiver_available_count(&self) -> nat;

    /// Returns the number of available RCOTs.
    fn available(&self) -> (r: usize)
        ensures
            r == self.receiver_available_count(),
    ;

    /// Returns preprocessed RCOTs, if available.
    fn try_recv_rcot(&mut self, count: usize) -> (r: Result<RCOTReceiverOutput<T, U>, Self::Error>)
        requires
            old(self).receiver_wf(),
            old(self).receiver_can_transfer(),
        ensures
            final(self).receiver_wf(),
    ;

    /// Returns a future which will yield RCOTs once they are ready.
    fn queue_recv_rcot(&mut self, count: usize) -> (r: Result<RCOTRecvFuture<T, U>, Self::Error>)
        requires
            old(self).receiver_wf(),
            old(self).receiver_can_allocate(count),
            old(self).receiver_can_transfer(),
        ensures
            final(self).receiver_wf(),
    ;
}

/// Sending half of a [`RCOTSendFuture`], held until the RCOTs are ready.
#[verifier::reject_recursive_types(T)]
pub struct RCOTSendPending<T> {
    count: usize,
    chan: oneshot::Sender<RCOTSenderOutput<T>>,
}

impl<T> RCOTSendPending<T> {
    /// The number of RCOTs to send.
    pub closed spec fn wanted(&self) -> usize {
        self.count
    }

    /// Returns the number of RCOTs to send.
    pub fn count(&self) -> (r: usize)
        ensures
            r == self.wanted(),
    {
        self.count
    }

    /// Hands the output to the future, and returns what was handed. A
    /// future that was dropped receives nothing; that is not known here.
    pub fn send(self, output: RCOTSenderOutput<T>) -> (r: Ghost<RCOTSenderOutput<T>>)
        ensures
            r@ == output,
    {
        let ghost handed = output;
        let _ = oneshot_send(self.chan, output);
        Ghost(handed)
    }
}

/// Future which yields the sender's RCOTs once they are ready.
#[verifier::reject_recursive_types(T)]
pub struct RCOTSendFuture<T> {
    chan: oneshot::Receiver<RCOTSenderOutput<T>>,
}

impl<T> RCOTSendFuture<T> {
    /// Creates a new RCOT send future for `count` RCOTs.
    pub fn new(count: usize) -> (r: (RCOTSendPending<T>, Self))
        ensures
            r.0.wanted() == count,
    {
        let (sender, receiver) = oneshot_channel();
        (RCOTSendPending { count, chan: sender }, RCOTSendFuture { chan: receiver })
    }

    /// Attempts to receive the output, returning `None` if not ready.
    pub fn try_recv(&mut self) -> Result<Option<RCOTSenderOutput<T>>, RCOTSendFutureError> {
        match oneshot_try_recv(&mut self.chan) {
            Ok(output) => Ok(output),
            Err(()) => Err(RCOTSendFutureError { _private: () }),
        }
    }
}

/// Error for [`RCOTSendFuture`]: the transfer failed or was cancelled.
#[derive(Debug)]
pub struct RCOTSendFutureError {
    _private: (),
}

/// Sending half of a [`RCOTRecvFuture`], held until the RCOTs are ready.
#[verifier::reject_recursive_types(T)]
#[verifier::reject_recursive_types(U)]
pub struct RCOTRecvPending<T, U> {
    count: usize,
    chan: oneshot::Sender<RCOTReceiverOutput<T, U>>,
}

impl<T, U> RCOTRecvPending<T, U> {
    /// The number of RCOTs to receive.
    pub closed spec fn wanted(&self) -> usize {
        self.count
    }

    /// Returns the number of RCOTs to receive.
    pub fn count(&self) -> (r: usize)
        ensures
            r == self.wanted(),
    {
        self.count
    }

    /// Hands the output to the future, and returns what was handed. A
    /// future that was dropped receives nothing; that is not known here.
    pub fn send(self, output: RCOTReceiverOutput<T, U>) -> (r: Ghost<RCOTReceiverOutput<T, U>>)
        ensures
            r@ == output,
    {
        let ghost handed = output;
        let _ = oneshot_send(self.chan, output);
        Ghost(handed)
    }
}

/// Future which yields the receiver's RCOTs once they are ready.
#[verifier::reject_recursive_types(T)]
#[verifier::reject_recursive_types(U)]
pub struct RCOTRecvFuture<T, U> {
    chan: oneshot::Receiver<RCOTReceiverOutput<T, U>>,
}

impl<T, U> RCOTRecvFuture<T, U> {
    /// Creates a new RCOT receive future for `count` RCOTs.
    pub fn new(count: usize) -> (r: (RCOTRecvPending<T, U>, Self))
        ensures
            r.0.wanted() == count,
    {
        let (sender, receiver) = oneshot_channel();
        (RCOTRecvPending { count, chan: sender }, RCOTRecvFuture { chan: receiver })
    }

    /// Attempts to receive the output, returning `None` if not ready.
    pub fn try_recv(&mut self) -> Result<Option<RCOTReceiverOutput<T, U>>, RCOTRecvFutureError> {
        match oneshot_try_recv(&mut self.chan) {
            Ok(output) => Ok(output),
            Err(()) => Err(RCOTRecvFutureError { _private: () }),
        }
    }
}

/// Error for [`RCOTRecvFuture`]: the transfer failed or was cancelled.
#[derive(Debug)]
pub struct RCOTRecvFutureError {
    _private: (),
}

} // verus!
