use crate::packet::{IndexedPacket, Packet};
use crossbeam_channel::Receiver;
use vstd::prelude::*;

verus! {

/// `crossbeam_channel::Receiver`: the receiving end of a channel. What it holds depends
/// on the other end, so nothing is known of it here.
#[verifier::external_type_specification]
#[verifier::external_body]
#[verifier::reject_recursive_types(T)]
pub struct ExReceiver<T>(Receiver<T>);

/// `Receiver::try_recv`: takes a message from the channel if one is there, without
/// waiting. An empty channel and one whose senders are gone both give `None`.
#[verifier::external_body]
fn try_next<T>(channel: &Receiver<T>) -> (message: Option<T>) {
    channel.try_recv().ok()
}

/// Physics steps per frame.
pub const SUB_TICKS: usize = 8;

/// Takes in what a look into the channel gave: a message is put at the end of those
/// gathered so far. Tells whether a message was there, that is, whether to look again.
pub fn keep<T>(gathered: &mut Vec<T>, message: Option<T>) -> (again: bool)
    ensures
        again == message.is_some(),
        final(gathered)@ == match message {
            Some(m) => old(gathered)@.push(m),
            None => old(gathered)@,
        },
{
    match message {
        Some(m) => {
            gathered.push(m);
            true
        },
        None => false,
    }
}

/// Takes the buckets that have arrived out of the channel, oldest first, but no more
/// than `limit`, and stops at the first moment at which the channel has nothing.
pub fn get_packets<P: Packet<SIZE>, const SIZE: usize>(
    channel: &Receiver<Vec<IndexedPacket<P, SIZE>>>,
    limit: usize,
) -> (buckets: Vec<Vec<IndexedPacket<P, SIZE>>>)
    ensures
        buckets@.len() <= limit,
{
    let mut buckets: Vec<Vec<IndexedPacket<P, SIZE>>> = Vec::new();
    let mut waiting = true;
    while waiting && buckets.len() < limit
        invariant
            buckets@.len() <= limit,
        decreases limit - buckets@.len() + (if waiting { 1int } else { 0int }),
    {
        waiting = keep(&mut buckets, try_next(channel));
    }
    buckets
}

} // verus!
