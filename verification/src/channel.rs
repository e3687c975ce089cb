//! Trusted boundary to tokio's unbounded mpsc channel.
//!
//! `ResponseStream` binds the producing end of one request's channel
//! to the ghost record of every value pushed into it. Its fields are
//! private, so nothing outside this module can touch the history:
//! only the trusted methods below push, and each records exactly the
//! value it handed to tokio. The history is the model the
//! stream-shape laws are proved over; whether a push lands depends on
//! whether the client still holds the consuming end, which this
//! process cannot predict, so nothing is promised of delivery.

use vstd::prelude::*;
use crate::stream::StreamItem;
use tokio::sync::mpsc::UnboundedSender;

verus! {

/// The producing end of tokio's unbounded channel, declared so that
/// values of it can sit in the scheduler's own structures. Opaque:
/// the scheduler only stores it and hands it to the methods below.
#[verifier::external_type_specification]
#[verifier::external_body]
#[verifier::reject_recursive_types(T)]
pub struct ExUnboundedSender<T>(tokio::sync::mpsc::UnboundedSender<T>);

/// The producing end of one request's stream, with the ghost record
/// of everything pushed into it.
pub struct ResponseStream {
    tx: UnboundedSender<StreamItem>,
    history: Ghost<Seq<StreamItem>>,
}

impl ResponseStream {
    /// The values pushed through this wrapper, oldest first.
    pub closed spec fn history(self) -> Seq<StreamItem> {
        self.history@
    }

    /// The wrapped sender, so contracts can say which channel an
    /// entry keeps.
    pub closed spec fn sender(self) -> UnboundedSender<StreamItem> {
        self.tx
    }

    /// Wraps a fresh channel end; nothing has been pushed yet.
    pub fn new(tx: UnboundedSender<StreamItem>) -> (s: ResponseStream)
        ensures
            s.sender() == tx,
            s.history() == Seq::<StreamItem>::empty(),
    {
        ResponseStream { tx, history: Ghost(Seq::empty()) }
    }

    /// Relies on tokio's `UnboundedSender::send`: hands the value to
    /// the channel — the send fails, silently, only if the receiver
    /// is gone — and records exactly that value in the history.
    /// Disconnection is handled by pruning, not here.
    #[verifier::external_body]
    pub fn push(&mut self, item: StreamItem)
        ensures
            final(self).sender() == old(self).sender(),
            final(self).history() == old(self).history().push(item),
    {
        let _ = self.tx.send(item);
    }

    /// Relies on tokio's `UnboundedSender::is_closed`: true if the
    /// receiving half has been dropped. A fresh answer each call;
    /// nothing can be promised of it.
    #[verifier::external_body]
    pub fn is_closed(&self) -> bool {
        self.tx.is_closed()
    }
}

} // verus!
