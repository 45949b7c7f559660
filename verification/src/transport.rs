//! Transport vocabulary: endpoint addresses and requests to move state.

use vstd::prelude::*;

use tokio::sync::mpsc;

use crate::cell::max_channel_buffer;
use crate::protocol::Message;
use crate::types::{Digest, VersionedId};

verus! {

/// Address of a transport endpoint.
#[derive(Debug, Clone, PartialEq, Eq, Hash)]
pub struct Endpoint(pub String);

/// A request to move a state bundle from one endpoint to another.
#[derive(Debug, Clone, PartialEq, Eq)]
pub struct StateMovement {
    /// Bundle being moved.
    pub bundle: Digest,
    /// Where it currently lives.
    pub from: Endpoint,
    /// Where it should end up.
    pub to: Endpoint,
    /// Schema of the bundle, for validation on arrival.
    pub schema: VersionedId,
}

/// The number of slots of the channel that `tx` sends on, fixed when the
/// channel was made (tokio keeps it as the channel's `bound`, and
/// `Sender::max_capacity` reports it).
pub uninterp spec fn loopback_bound(tx: mpsc::Sender<(Endpoint, Message)>) -> usize;

/// tokio's `mpsc::channel` for loopback messages: the two halves of a new
/// channel with room for `buffer` pending messages. It panics on a zero buffer
/// and on a buffer above `max_channel_buffer`, which `requires` rules out. The
/// contract claims only that the sending half's channel has `buffer` slots.
#[verifier::external_body]
fn loopback_channel(buffer: usize) -> (r: (mpsc::Sender<(Endpoint, Message)>, mpsc::Receiver<(Endpoint, Message)>))
    requires
        0 < buffer <= max_channel_buffer(),
    ensures
        loopback_bound(r.0) == buffer,
{
    mpsc::channel(buffer)
}

/// In-process transport that loops every send back to its own receive side.
#[derive(Debug)]
pub struct Loopback {
    tx: mpsc::Sender<(Endpoint, Message)>,
    rx: mpsc::Receiver<(Endpoint, Message)>,
}

impl Loopback {
    /// The sending end of the loopback channel.
    pub closed spec fn sender_spec(&self) -> mpsc::Sender<(Endpoint, Message)> {
        self.tx
    }

    /// The receiving end of the loopback channel.
    pub closed spec fn receiver_spec(&self) -> mpsc::Receiver<(Endpoint, Message)> {
        self.rx
    }

    /// Creates a loopback transport with the given buffer size (at least one).
    /// tokio refuses a channel larger than `max_channel_buffer`, which
    /// `requires` rules out.
    pub fn new(capacity: usize) -> (l: Self)
        requires
            capacity <= max_channel_buffer(),
        ensures
            loopback_bound(l.sender_spec()) == (if capacity == 0 {
                1
            } else {
                capacity
            }),
    {
        let buffer = if capacity == 0 {
            1
        } else {
            capacity
        };
        let (tx, rx) = loopback_channel(buffer);
        Loopback { tx, rx }
    }

    /// The sending end, on which every send is looped back.
    pub fn sender(&self) -> (tx: &mpsc::Sender<(Endpoint, Message)>)
        ensures
            *tx == self.sender_spec(),
    {
        &self.tx
    }

    /// The receiving end, on which the looped-back messages arrive: the
    /// transport's own receiver, which afterwards is what the caller left
    /// behind that borrow.
    pub fn receiver(&mut self) -> (rx: &mut mpsc::Receiver<(Endpoint, Message)>)
        ensures
            *rx == old(self).receiver_spec(),
            final(self).receiver_spec() == *final(rx),
            final(self).sender_spec() == old(self).sender_spec(),
    {
        &mut self.rx
    }
}

} // verus!
