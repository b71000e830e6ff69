//! The sample hub: a cell for the latest sample and a lossy fan-out to any
//! number of subscribers.
//!
//! The fan-out is a broadcast channel of the `tokio` crate. What a
//! subscriber receives is decided inside that channel, in memory that it
//! shares between its handles. So the contracts here speak of the cell, of
//! the record of what was published, and of the place that a subscription
//! has reached in the publications; what the channel does with a sample
//! and which one a poll finds is not theirs to say.

use vstd::prelude::*;
use crate::types::AngleSample;
use tokio::sync::broadcast::{Receiver, Sender};

verus! {

/// How many samples the channel retains for a subscriber that lags.
pub const CAPACITY: usize = 256;

/// The sending half of `tokio`'s broadcast channel, carried as an opaque
/// value.
#[verifier::external_type_specification]
#[verifier::external_body]
#[verifier::reject_recursive_types(T)]
pub struct ExSender<T>(Sender<T>);

/// The receiving half of `tokio`'s broadcast channel, carried as an opaque
/// value.
#[verifier::external_type_specification]
#[verifier::external_body]
#[verifier::reject_recursive_types(T)]
pub struct ExReceiver<T>(Receiver<T>);

/// What one poll of a subscription found.
#[derive(Clone, Copy, Debug, PartialEq, Eq, Structural)]
pub enum Delivery {
    /// The next sample in publication order.
    Item(AngleSample),
    /// This many samples were overwritten before they could be read. The
    /// subscription goes on with the oldest one that is still retained.
    Lagged(u64),
    /// Nothing is waiting.
    Empty,
    /// The hub is gone and everything retained has been read.
    Closed,
}

impl Delivery {
    /// The sample that a poll delivered, if it delivered one. Lag is a
    /// loss of items and not an error: it yields nothing and the
    /// subscription continues.
    pub fn item(self) -> (sample: Option<AngleSample>)
        ensures
            sample == match self {
                Delivery::Item(s) => Some(s),
                _ => None::<AngleSample>,
            },
    {
        match self {
            Delivery::Item(s) => Some(s),
            _ => None,
        }
    }

    /// Whether the subscription is over: only once the hub was torn down.
    pub fn ends_stream(self) -> (over: bool)
        ensures
            over == (self is Closed),
    {
        match self {
            Delivery::Closed => true,
            _ => false,
        }
    }

    /// How many publications a poll with this outcome takes the
    /// subscription past: the one it delivered, or those it reports lost.
    pub open spec fn advance(self) -> nat {
        match self {
            Delivery::Item(_) => 1,
            Delivery::Lagged(n) => n as nat,
            _ => 0,
        }
    }
}

/// Calls `tokio::sync::broadcast::channel` and keeps the sender; the
/// receiver that comes with it is dropped, so the channel starts without
/// subscribers. The channel panics on a capacity of 0 or above
/// `usize::MAX / 2`, which the precondition excludes. Nothing is claimed of
/// the sender.
#[verifier::external_body]
fn channel_open(capacity: usize) -> (tx: Sender<AngleSample>)
    requires
        0 < capacity <= usize::MAX / 2,
{
    tokio::sync::broadcast::channel(capacity).0
}

/// Calls `Sender::send`. The call fails where no subscriber exists, which
/// loses nothing; its result is dropped and nothing is claimed.
#[verifier::external_body]
fn channel_send(tx: &Sender<AngleSample>, sample: AngleSample) {
    let _ = tx.send(sample);
}

/// Calls `Sender::subscribe`. Nothing is claimed of the receiver.
#[verifier::external_body]
fn channel_subscribe(tx: &Sender<AngleSample>) -> (rx: Receiver<AngleSample>) {
    tx.subscribe()
}

/// Calls `Receiver::try_recv` and names its four outcomes. Nothing is
/// claimed of which one comes back.
#[verifier::external_body]
fn channel_try_recv(rx: &mut Receiver<AngleSample>) -> (found: Delivery) {
    match rx.try_recv() {
        Ok(sample) => Delivery::Item(sample),
        Err(tokio::sync::broadcast::error::TryRecvError::Lagged(n)) => Delivery::Lagged(n),
        Err(tokio::sync::broadcast::error::TryRecvError::Empty) => Delivery::Empty,
        Err(tokio::sync::broadcast::error::TryRecvError::Closed) => Delivery::Closed,
    }
}

/// One subscriber's end of the hub. Beside the channel's receiver it
/// keeps count of the publications that it has passed.
pub struct AngleStream {
    rx: Receiver<AngleSample>,
    passed: Ghost<nat>,
}

impl AngleStream {
    /// The channel's receiver that this subscription reads from.
    pub closed spec fn receiver(&self) -> Receiver<AngleSample> {
        self.rx
    }

    /// The place that the subscription has reached in the hub's
    /// publications: the number of those that were published before it
    /// began, that it delivered, or that it reported lost.
    pub closed spec fn position(&self) -> nat {
        self.passed@
    }

    /// Polls once, without waiting. Which outcome comes back is the
    /// channel's to say, and so is that samples come in publication order
    /// and none twice. The contract says how the counted place moves with
    /// what came back: on by one for a sample, by the number lost for a
    /// report of lag, not at all where nothing was waiting or the hub is
    /// gone, and never back.
    pub fn poll(&mut self) -> (found: Delivery)
        ensures
            final(self).position() == old(self).position() + found.advance(),
    {
        let found = channel_try_recv(&mut self.rx);
        self.passed = Ghost(self.passed@ + found.advance());
        found
    }

    /// Gives up the subscription for the channel's own receiver, as the
    /// polls so far have left it.
    pub fn into_receiver(self) -> (rx: Receiver<AngleSample>)
        ensures
            rx == self.receiver(),
    {
        self.rx
    }
}

/// Holds the latest published sample and fans every new one out.
pub struct SampleHub {
    cell: Cell,
    tx: Sender<AngleSample>,
}

/// The latest sample, beside the record of all that were published.
struct Cell {
    latest: Option<AngleSample>,
    sent: Ghost<Seq<AngleSample>>,
}

impl SampleHub {
    #[verifier::type_invariant]
    spec fn coherent(&self) -> bool {
        self.cell.latest == last_of(self.cell.sent@)
    }

    /// Everything that was published, in order.
    pub closed spec fn published(&self) -> Seq<AngleSample> {
        self.cell.sent@
    }

    /// The sample that `latest` returns: the last one published.
    pub open spec fn current(&self) -> Option<AngleSample> {
        last_of(self.published())
    }

    /// A hub on which nothing was published.
    pub fn new() -> (hub: SampleHub)
        ensures
            hub.published() == Seq::<AngleSample>::empty(),
    {
        SampleHub {
            cell: Cell { latest: None, sent: Ghost(Seq::empty()) },
            tx: channel_open(CAPACITY),
        }
    }

    /// Stores `sample` as the latest, overwriting what was there, and
    /// hands it to the channel for the subscribers of this moment. The
    /// contract speaks of the record alone: of the broadcast nothing is
    /// proved.
    pub fn publish(&mut self, sample: AngleSample)
        ensures
            final(self).published() == old(self).published().push(sample),
    {
        self.cell = Cell { latest: Some(sample), sent: Ghost(self.cell.sent@.push(sample)) };
        channel_send(&self.tx, sample);
    }

    /// The most recent sample, or none before the first publication.
    pub fn latest(&self) -> (sample: Option<AngleSample>)
        ensures
            sample == self.current(),
    {
        proof {
            use_type_invariant(self);
        }
        self.cell.latest
    }

    /// A fresh subscription on a receiver of its own. It begins behind
    /// everything that was published so far, so it sees only what is
    /// published from now on: nothing is replayed.
    pub fn subscribe(&self) -> (stream: AngleStream)
        ensures
            stream.position() == self.published().len(),
    {
        AngleStream { rx: channel_subscribe(&self.tx), passed: Ghost(self.cell.sent@.len()) }
    }
}

/// The last sample of a sequence, if it has one.
pub open spec fn last_of(samples: Seq<AngleSample>) -> Option<AngleSample> {
    if samples.len() == 0 {
        None
    } else {
        Some(samples.last())
    }
}

} // verus!
