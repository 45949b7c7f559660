//! Effects that a transition asks for, and the sinks that receive them.

use vstd::prelude::*;

use tokio::sync::mpsc;

use crate::text::{decimal, with_decimal};
use crate::types::Error;

verus! {

/// The sending half of a tokio bounded channel.
#[verifier::external_type_specification]
#[verifier::external_body]
#[verifier::reject_recursive_types(T)]
pub struct ExSender<T>(mpsc::Sender<T>);

/// The receiving half of a tokio bounded channel.
#[verifier::external_type_specification]
#[verifier::external_body]
#[verifier::reject_recursive_types(T)]
pub struct ExReceiver<T>(mpsc::Receiver<T>);

/// The largest buffer a tokio bounded channel accepts: its semaphore's
/// `MAX_PERMITS`, which is `usize::MAX >> 3`.
pub open spec fn max_channel_buffer() -> int {
    usize::MAX as int / 8
}

/// tokio's `mpsc::channel`: the two halves of a new channel with room for
/// `buffer` pending items. It panics on a zero buffer and on a buffer above
/// `max_channel_buffer`, which `requires` rules out; nothing is claimed of the
/// halves, which Verus sees as opaque.
#[verifier::external_body]
pub(crate) fn bounded_channel<T>(buffer: usize) -> (r: (mpsc::Sender<T>, mpsc::Receiver<T>))
    requires
        0 < buffer <= max_channel_buffer(),
{
    mpsc::channel(buffer)
}

/// tokio's `Sender::try_send`: whether the item was queued. It is refused when
/// the channel is full or closed, which depends on what other holders of the
/// channel did, so nothing is claimed of the outcome.
#[verifier::external_body]
pub(crate) fn try_send_item<T>(tx: &mpsc::Sender<T>, item: T) -> (sent: bool) {
    tx.try_send(item).is_ok()
}

/// tokio's `Clone` for `Sender`: another handle on the same channel. Its one
/// field is a clone of the same `Arc` of the channel (the clone also counts one
/// more sender inside the shared channel), so the contract claims that, as a
/// value, it is the handle it was cloned from.
#[verifier::external_body]
pub(crate) fn clone_sender<T>(tx: &mpsc::Sender<T>) -> (r: mpsc::Sender<T>)
    ensures
        r == *tx,
{
    tx.clone()
}

/// A bounded, multi-producer single-consumer mailbox.
#[derive(Debug)]
#[verifier::reject_recursive_types(T)]
pub struct Mailbox<T> {
    tx: mpsc::Sender<T>,
    rx: mpsc::Receiver<T>,
    capacity: usize,
}

/// The message of a post refused by a full mailbox.
pub open spec fn full_mailbox_message(capacity: usize) -> Seq<char> {
    "mailbox of "@ + decimal(capacity as nat)
}

/// What a post reports, given whether the channel took the item: success, or
/// a full mailbox of the given capacity.
pub fn post_outcome(sent: bool, capacity: usize) -> (r: Result<(), Error>)
    ensures
        sent ==> r == Ok::<(), Error>(()),
        !sent ==> (r matches Err(Error::CapacityExceeded(msg)) && msg@ == full_mailbox_message(capacity)),
{
    if sent {
        Ok(())
    } else {
        Err(Error::CapacityExceeded(with_decimal("mailbox of ", capacity as u64)))
    }
}

impl<T> Mailbox<T> {
    /// The capacity the mailbox was created with.
    pub closed spec fn capacity_spec(&self) -> usize {
        self.capacity
    }

    /// The handle on the mailbox's channel that posts go through.
    pub closed spec fn sender_spec(&self) -> mpsc::Sender<T> {
        self.tx
    }

    /// The receiving end of the mailbox's channel.
    pub closed spec fn receiver_spec(&self) -> mpsc::Receiver<T> {
        self.rx
    }

    /// Creates a mailbox that holds at most `capacity` pending items (a
    /// channel of at least one slot backs it). tokio refuses a channel larger
    /// than `max_channel_buffer`, which `requires` rules out.
    pub fn bounded(capacity: usize) -> (m: Self)
        requires
            capacity <= max_channel_buffer(),
        ensures
            m.capacity_spec() == capacity,
    {
        let buffer = if capacity == 0 {
            1
        } else {
            capacity
        };
        let (tx, rx) = bounded_channel(buffer);
        Mailbox { tx, rx, capacity }
    }

    /// Maximum number of pending items.
    pub fn capacity(&self) -> (c: usize)
        ensures
            c == self.capacity_spec(),
    {
        self.capacity
    }

    /// Returns a handle other tasks can use to post into this mailbox: a clone
    /// of the mailbox's own handle on its channel.
    pub fn sender(&self) -> (tx: mpsc::Sender<T>)
        ensures
            tx == self.sender_spec(),
    {
        clone_sender(&self.tx)
    }

    /// Posts without waiting; fails when the mailbox is full. A mailbox of
    /// capacity zero holds nothing, so it refuses every post.
    pub fn try_post(&self, item: T) -> (r: Result<(), Error>)
        ensures
            r == Ok::<(), Error>(()) || (r matches Err(Error::CapacityExceeded(msg)) && msg@
                == full_mailbox_message(self.capacity_spec())),
            self.capacity_spec() == 0 ==> (r matches Err(Error::CapacityExceeded(msg)) && msg@
                == full_mailbox_message(0)),
    {
        if self.capacity == 0 {
            return post_outcome(false, 0);
        }
        let sent = try_send_item(&self.tx, item);
        post_outcome(sent, self.capacity)
    }

    /// The receiving end, to wait on for the next item: the mailbox's own
    /// receiver, which afterwards is what the caller left behind that borrow.
    pub fn receiver(&mut self) -> (rx: &mut mpsc::Receiver<T>)
        ensures
            *rx == old(self).receiver_spec(),
            final(self).receiver_spec() == *final(rx),
            final(self).sender_spec() == old(self).sender_spec(),
            final(self).capacity_spec() == old(self).capacity_spec(),
    {
        &mut self.rx
    }
}

/// Side effects a cell may request as the outcome of a transition.
#[derive(Debug, Clone, PartialEq, Eq)]
pub enum Effect {
    /// Emit a message to another cell or component.
    Emit(Vec<u8>),
    /// Schedule a wake-up after the given number of microseconds.
    Timer(u64),
    /// Log a diagnostic line.
    Log(String),
}

/// The contents of an [`Effect`].
pub enum EffectView {
    /// Emit these bytes.
    Emit(Seq<u8>),
    /// Wake up after this many microseconds.
    Timer(u64),
    /// Log this line.
    Log(Seq<char>),
}

impl View for Effect {
    type V = EffectView;

    open spec fn view(&self) -> EffectView {
        match self {
            Effect::Emit(bytes) => EffectView::Emit(bytes@),
            Effect::Timer(micros) => EffectView::Timer(*micros),
            Effect::Log(line) => EffectView::Log(line@),
        }
    }
}

/// The contents of each effect of `effects`, in order.
pub open spec fn effect_views(effects: Seq<Effect>) -> Seq<EffectView> {
    effects.map_values(|e: Effect| e@)
}

/// Receives effects for execution.
pub trait EffectSink {
    /// Dispatches one effect.
    fn dispatch(&mut self, effect: Effect) -> (r: Result<(), Error>);
}

/// An [`EffectSink`] that records effects for inspection.
#[derive(Debug)]
pub struct RecordingSink {
    /// Effects seen so far, in order.
    pub effects: Vec<Effect>,
}

impl Default for RecordingSink {
    fn default() -> (s: Self)
        ensures
            s.effects@ == Seq::<Effect>::empty(),
    {
        RecordingSink { effects: Vec::new() }
    }
}

impl EffectSink for RecordingSink {
    /// Records the effect after those seen so far; never fails.
    fn dispatch(&mut self, effect: Effect) -> (r: Result<(), Error>)
        ensures
            final(self).effects@ == old(self).effects@.push(effect),
            r == Ok::<(), Error>(()),
    {
        self.effects.push(effect);
        Ok(())
    }
}

} // verus!
