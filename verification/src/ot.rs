//! Oblivious transfer: transfer identifiers, the outputs of correlated
//! oblivious transfer, ideal functionalities and the state of the
//! Chou-Orlandi and KOS protocol parties.
use vstd::prelude::*;

pub mod chou_orlandi;
pub mod ideal_cot;
pub mod ideal_rcot;
pub mod kos;
pub mod rcot;

verus! {

/// Identifier of a transfer: transfers are numbered from zero, in order.
#[derive(Debug, Clone, Copy, PartialEq, Eq, Structural, Hash)]
pub struct TransferId(pub(crate) u64);

impl TransferId {
    /// The number of the transfer.
    pub open(crate) spec fn value(self) -> nat {
        self.0 as nat
    }

    /// Returns the number of the transfer.
    pub fn as_u64(&self) -> (r: u64)
        ensures
            r == self.value(),
    {
        self.0
    }

    /// Returns the current transfer id, incrementing `self` in place.
    pub fn next(&mut self) -> (r: Self)
        requires
            old(self).value() < u64::MAX,
        ensures
            r == *old(self),
            final(self).value() == old(self).value() + 1,
    {
        let id = *self;
        self.0 = self.0 + 1;
        id
    }
}

impl Default for TransferId {
    fn default() -> (r: Self)
        ensures
            r.value() == 0,
    {
        TransferId(0)
    }
}

/// Output the sender receives from the COT functionality.
#[derive(Debug)]
pub struct COTSenderOutput<T> {
    /// Transfer id.
    pub id: TransferId,
    /// The `0`-bit messages.
    pub msgs: Vec<T>,
}

/// Output the receiver receives from the COT functionality.
#[derive(Debug)]
pub struct COTReceiverOutput<T> {
    /// Transfer id.
    pub id: TransferId,
    /// The chosen messages.
    pub msgs: Vec<T>,
}

} // verus!
