//! The canonical slot and the fan-out channel: the latest published
//! record, which every reader and every new subscriber sees first, and the
//! feed on which each publication goes out to the subscribers.

use vstd::prelude::*;
use tokio::sync::broadcast::Sender;
use crate::record::{MetadataView, StreamMetadata};

verus! {

/// The sending half of a broadcast channel. Nothing is known of what is
/// inside it.
#[verifier::external_type_specification]
#[verifier::external_body]
#[verifier::reject_recursive_types(T)]
pub struct ExSender<T>(Sender<T>);

/// Holds the latest published record, if there is one, and the feed.
pub struct Distributor {
    pub slot: Option<StreamMetadata>,
    pub feed: Sender<StreamMetadata>,
}

/// The largest capacity that a feed can be made with.
pub const MAX_FEED_CAPACITY: usize = usize::MAX / 2;

/// The capacity that a feed was made with: the number of records that it
/// was asked to keep for a subscriber that has fallen behind.
pub uninterp spec fn feed_capacity(feed: Sender<StreamMetadata>) -> usize;

/// Calls `tokio::sync::broadcast::channel` and keeps the sending half.
/// Trusted: the call accepts every capacity from one up to half of
/// `usize::MAX`, and fails beyond that only where memory for the slots
/// cannot be had; the channel is made with the capacity that was handed
/// in, which it rounds up to a power of two for its slots. Nothing else is
/// claimed of the channel.
#[verifier::external_body]
fn open_feed(capacity: usize) -> (feed: Sender<StreamMetadata>)
    requires
        0 < capacity <= MAX_FEED_CAPACITY,
    ensures
        feed_capacity(feed) == capacity,
{
    tokio::sync::broadcast::channel(capacity).0
}

/// Calls `Sender::send`. Trusted: the call returns without waiting for any
/// receiver, and gives the number of receivers at that moment, which is
/// not zero, or nothing where nobody is subscribed.
#[verifier::external_body]
fn send_to_feed(feed: &Sender<StreamMetadata>, record: StreamMetadata) -> (receivers: Option<usize>)
    ensures
        receivers.is_some() ==> receivers.unwrap() > 0,
{
    feed.send(record).ok()
}

/// The slot after `record` was published, whatever it held.
pub open spec fn after_publish(slot: Option<MetadataView>, record: MetadataView) -> Option<
    MetadataView,
> {
    Some(record)
}

/// What a subscription that starts on this slot yields first: the record
/// in it, if any.
pub open spec fn first_seen(slot: Option<MetadataView>) -> Option<MetadataView> {
    slot
}

/// A subscriber that connects after a record was published sees that
/// record first, with no further publication needed.
pub proof fn law_late_subscriber_sees_last(slot: Option<MetadataView>, record: MetadataView)
    ensures
        first_seen(after_publish(slot, record)) == Some(record),
{
}

impl Distributor {
    /// The record in the slot, as a value.
    pub open spec fn current(&self) -> Option<MetadataView> {
        match self.slot {
            Some(record) => Some(record@),
            None => None,
        }
    }

    /// An empty slot, and a feed made with room for `capacity` records for
    /// a subscriber that has fallen behind.
    pub fn new(capacity: usize) -> (distributor: Self)
        requires
            0 < capacity <= MAX_FEED_CAPACITY,
        ensures
            distributor.slot.is_none(),
            distributor.current().is_none(),
            feed_capacity(distributor.feed) == capacity,
    {
        Distributor { slot: None, feed: open_feed(capacity) }
    }

    /// Puts `record` in the slot, over what was there, and sends a copy of
    /// it to every subscriber, without waiting for any of them. Returns the
    /// number of subscribers at that moment, zero where there is none.
    pub fn publish(&mut self, record: StreamMetadata) -> (receivers: usize)
        ensures
            final(self).slot == Some(record),
            final(self).current() == after_publish(old(self).current(), record@),
    {
        let sent = record.duplicate();
        self.slot = Some(record);
        match send_to_feed(&self.feed, sent) {
            Some(receivers) => receivers,
            None => 0,
        }
    }

    /// The record in the slot, if any, without waiting for anything.
    pub fn read_current(&self) -> (current: Option<&StreamMetadata>)
        ensures
            current.is_some() == self.slot.is_some(),
            current.is_some() ==> *current.unwrap() == self.slot.unwrap(),
    {
        match &self.slot {
            Some(record) => Some(record),
            None => None,
        }
    }

    /// What a subscription that starts now yields first: the record in the
    /// slot, or nothing where none was published yet.
    pub fn first_item(&self) -> (first: Option<&StreamMetadata>)
        ensures
            first.is_some() == first_seen(self.current()).is_some(),
            first.is_some() ==> first.unwrap()@ == first_seen(self.current()).unwrap()
                && *first.unwrap() == self.slot.unwrap(),
    {
        self.read_current()
    }
}

} // verus!
