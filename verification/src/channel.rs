//! Bounded queues between the foreground and the background workers. What a
//! queue holds at a moment depends on the other side, so nothing is claimed
//! of the outcome of an attempt; what is claimed is the number of messages
//! that a queue was made to hold.

use vstd::prelude::*;
use crate::persistent_cache::CacheWriteCommand;
use crate::size_calculation::SizeResult;

verus! {

#[verifier::external_type_specification]
#[verifier::external_body]
#[verifier::reject_recursive_types(T)]
pub struct ExSender<T>(crossbeam_channel::Sender<T>);

#[verifier::external_type_specification]
#[verifier::external_body]
#[verifier::reject_recursive_types(T)]
pub struct ExReceiver<T>(crossbeam_channel::Receiver<T>);

/// How an attempt to put a message into a queue ended.
#[derive(Debug, Clone, Copy, PartialEq, Eq, Structural)]
pub enum SendOutcome {
    /// The message is in the queue.
    Sent,
    /// The queue was full: the message is gone.
    Full,
    /// Nobody receives any more: the message is gone.
    Disconnected,
}

/// Largest capacity that the library asks a queue to have.
pub const MAX_CHANNEL_CAPACITY: usize = 65_536;

/// The number of results that the queue behind `sender` was made to hold,
/// as `crossbeam_channel::Sender::capacity` reports it.
pub uninterp spec fn result_queue_limit(sender: crossbeam_channel::Sender<SizeResult>) -> nat;

/// The number of commands that the queue behind `sender` was made to hold,
/// as `crossbeam_channel::Sender::capacity` reports it.
pub uninterp spec fn write_queue_limit(sender: crossbeam_channel::Sender<CacheWriteCommand>) -> nat;

/// `crossbeam_channel::bounded` for size results: a queue that holds up to
/// `capacity` results, as its two ends. Capacities that the call could fail
/// to set up are left out.
#[verifier::external_body]
pub(crate) fn result_channel(capacity: usize) -> (ends: (
    crossbeam_channel::Sender<SizeResult>,
    crossbeam_channel::Receiver<SizeResult>,
))
    requires
        capacity <= MAX_CHANNEL_CAPACITY,
    ensures
        result_queue_limit(ends.0) == capacity,
{
    crossbeam_channel::bounded(capacity)
}

/// `crossbeam_channel::bounded` for write commands: a queue that holds up to
/// `capacity` commands, as its two ends. Capacities that the call could fail
/// to set up are left out.
#[verifier::external_body]
pub(crate) fn write_channel(capacity: usize) -> (ends: (
    crossbeam_channel::Sender<CacheWriteCommand>,
    crossbeam_channel::Receiver<CacheWriteCommand>,
))
    requires
        capacity <= MAX_CHANNEL_CAPACITY,
    ensures
        write_queue_limit(ends.0) == capacity,
{
    crossbeam_channel::bounded(capacity)
}

/// `crossbeam_channel::Sender::try_send`: puts `message` into the queue if
/// that can be done at once, and never waits. Which of the outcomes comes
/// back is left open.
#[verifier::external_body]
pub(crate) fn try_send<T>(sender: &crossbeam_channel::Sender<T>, message: T) -> SendOutcome {
    match sender.try_send(message) {
        Ok(()) => SendOutcome::Sent,
        Err(crossbeam_channel::TrySendError::Full(_)) => SendOutcome::Full,
        Err(crossbeam_channel::TrySendError::Disconnected(_)) => SendOutcome::Disconnected,
    }
}

/// `crossbeam_channel::Receiver::try_recv`: takes the oldest message out of
/// the queue if there is one, and never waits. Whether one comes back is left
/// open.
#[verifier::external_body]
pub(crate) fn try_receive<T>(receiver: &crossbeam_channel::Receiver<T>) -> Option<T> {
    receiver.try_recv().ok()
}

/// `crossbeam_channel::Sender::clone`: another handle on the sending end of
/// the same queue, which holds as many results as it did.
#[verifier::external_body]
pub(crate) fn clone_sender(sender: &crossbeam_channel::Sender<SizeResult>) -> (copy:
    crossbeam_channel::Sender<SizeResult>)
    ensures
        result_queue_limit(copy) == result_queue_limit(*sender),
{
    sender.clone()
}

} // verus!
