//! Decoding futures: a one-shot channel from the store that decodes a value to
//! the caller that asked for it.
use vstd::prelude::*;
use core::marker::PhantomData;
use futures::channel::oneshot;
use futures::channel::oneshot::{Receiver as OneshotReceiver, Sender as OneshotSender};

use crate::memory::{ClearValue, MemoryType, Slice};

verus! {

#[verifier::external_type_specification]
#[verifier::external_body]
#[verifier::reject_recursive_types(T)]
pub struct ExOneshotSender<T>(OneshotSender<T>);

#[verifier::external_type_specification]
#[verifier::external_body]
#[verifier::reject_recursive_types(T)]
pub struct ExOneshotReceiver<T>(OneshotReceiver<T>);

#[verifier::external_type_specification]
#[verifier::external_body]
pub struct ExOneshotCanceled(oneshot::Canceled);

/// `futures::channel::oneshot::channel`: a fresh sender and receiver pair.
#[verifier::external_body]
pub(crate) fn oneshot_channel<T>() -> (oneshot::Sender<T>, oneshot::Receiver<T>) {
    oneshot::channel()
}

/// `oneshot::Sender::send`: hands the value to the receiver. Returns `false`
/// when the receiver was already dropped; whether it was is not known here.
#[verifier::external_body]
pub(crate) fn oneshot_send<T>(sender: oneshot::Sender<T>, value: T) -> bool {
    sender.send(value).is_ok()
}

/// `oneshot::Receiver::try_recv`: the value if it was sent, `None` if not yet,
/// an error if the sender was dropped. Which of these comes back depends on
/// the other end and is not known here.
#[verifier::external_body]
pub(crate) fn oneshot_try_recv<T>(receiver: &mut oneshot::Receiver<T>) -> Result<Option<T>, ()> {
    match receiver.try_recv() {
        Ok(value) => Ok(value),
        Err(_) => Err(()),
    }
}

/// Error of a decoding operation.
#[derive(Debug, Clone, Copy, PartialEq, Eq, Structural)]
pub enum DecodeError {
    /// The other end of the decoding operation was dropped.
    Canceled,
}

/// A future which resolves to a decoded value.
#[verifier::reject_recursive_types(T)]
pub struct DecodeFuture<T> {
    chan: oneshot::Receiver<T>,
    target: Ghost<Slice>,
}

/// The sending half of a decoding operation, held by the store until the
/// value of `slice` is known.
#[verifier::reject_recursive_types(T)]
pub struct DecodeOp<T> {
    pub(crate) slice: Slice,
    chan: oneshot::Sender<T>,
}

impl<T> DecodeFuture<T> {
    /// The slice whose value the future waits for.
    pub closed spec fn target(&self) -> Slice {
        self.target@
    }

    /// Creates a new decoding operation for `slice`: a future and the
    /// operation that answers it.
    pub fn new(slice: Slice) -> (r: (Self, DecodeOp<T>))
        ensures
            r.0.target() == slice,
            r.1.target() == slice,
    {
        let (sender, receiver) = oneshot_channel();
        (DecodeFuture { chan: receiver, target: Ghost(slice) }, DecodeOp { slice, chan: sender })
    }

    /// Attempts to receive the value, returning `None` if it is not ready.
    pub fn try_recv(&mut self) -> Result<Option<T>, DecodeError> {
        match oneshot_try_recv(&mut self.chan) {
            Ok(value) => Ok(value),
            Err(()) => Err(DecodeError::Canceled),
        }
    }
}

impl<T> DecodeOp<T> {
    /// The slice being decoded.
    pub closed spec fn target(&self) -> Slice {
        self.slice
    }

    /// Returns the slice being decoded.
    pub fn slice(&self) -> (r: Slice)
        ensures
            r == self.target(),
    {
        self.slice
    }

    /// Sends the decoded value to the future.
    pub fn send(self, value: T) -> Result<(), DecodeError> {
        let (r, _) = self.deliver(value);
        r
    }

    /// Sends the decoded value to the future, recording what was sent: the
    /// slice and the value.
    pub(crate) fn deliver(self, value: T) -> (r: (Result<(), DecodeError>, Ghost<(Slice, T)>))
        ensures
            r.1@ == (self.target(), value),
    {
        let ghost sent = (self.slice, value);
        if oneshot_send(self.chan, value) {
            (Ok(()), Ghost(sent))
        } else {
            (Err(DecodeError::Canceled), Ghost(sent))
        }
    }
}

/// A future which resolves to a decoded clear value of type `C`.
#[verifier::reject_recursive_types(T)]
pub struct DecodeFutureTyped<T: MemoryType, C: ClearValue<T>> {
    fut: DecodeFuture<T::Raw>,
    _pd: PhantomData<C>,
}

impl<T: MemoryType, C: ClearValue<T>> DecodeFutureTyped<T, C> {
    /// The raw decoding future this future reads.
    pub closed spec fn future(&self) -> DecodeFuture<T::Raw> {
        self.fut
    }

    /// Wraps a raw decoding future.
    pub fn new(fut: DecodeFuture<T::Raw>) -> (r: Self)
        ensures
            r.future() == fut,
    {
        Self { fut, _pd: PhantomData }
    }

    /// Attempts to receive the clear value, returning `None` if it is not
    /// ready.
    pub fn try_recv(&mut self) -> Result<Option<C>, DecodeError> {
        match self.fut.try_recv() {
            Ok(Some(raw)) => Ok(Some(C::from_clear(raw))),
            Ok(None) => Ok(None),
            Err(e) => Err(e),
        }
    }
}

} // verus!
