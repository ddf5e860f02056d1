//! The parts of other crates that the library calls, and what it relies on of each.

use std::sync::Arc;
use std::task::{Context, Poll};
use std::time::Duration;

use regex::{Regex, RegexBuilder};
use tokio::sync::broadcast;
use tokio::time::{delay_queue, DelayQueue};
use vstd::arithmetic::power2::pow2;
use vstd::prelude::*;

use crate::filters::FilterOutput;

verus! {

// === Regular expressions ===

/// A compiled regular expression of the `regex` crate.
#[verifier::external_type_specification]
#[verifier::external_body]
pub struct ExRegex(regex::Regex);

/// Why a regular expression of the `regex` crate did not compile.
#[verifier::external_type_specification]
#[verifier::external_body]
pub struct ExRegexError(regex::Error);

/// What `RegexBuilder::build` makes of a pattern, given a limit in bytes and how many bits an
/// address has: `None` for a pattern that is malformed, or whose states take more than the limit.
pub uninterp spec fn regex_built(
    pattern: Seq<char>,
    size_limit: nat,
    address_bits: nat,
) -> Option<regex::Regex>;

/// What `Regex::is_match` says of a text.
pub uninterp spec fn regex_is_match(regex: regex::Regex, text: Seq<char>) -> bool;

/// `RegexBuilder::new`, `size_limit` and `build` of the `regex` crate: whether a pattern compiles
/// within the limit, and to what, depends on the pattern, the limit and the size of an address.
#[verifier::external_body]
pub(crate) fn build_regex(pattern: &str, size_limit: usize) -> (built: Result<Regex, regex::Error>)
    ensures
        built.ok() == regex_built(pattern@, size_limit as nat, usize::BITS as nat),
{
    RegexBuilder::new(pattern).size_limit(size_limit).build()
}

/// `Regex::is_match` of the `regex` crate: the answer depends on the expression and the text
/// alone.
#[verifier::external_body]
pub(crate) fn is_match(regex: &Regex, text: &str) -> (found: bool)
    ensures
        found == regex_is_match(*regex, text@),
{
    regex.is_match(text)
}

// === Broadcast channels ===

/// The sending half of a broadcast channel of the `tokio` crate.
#[verifier::external_type_specification]
#[verifier::external_body]
#[verifier::reject_recursive_types(T)]
pub struct ExBroadcastSender<T>(tokio::sync::broadcast::Sender<T>);

/// The receiving half of a broadcast channel of the `tokio` crate.
#[verifier::external_type_specification]
#[verifier::external_body]
#[verifier::reject_recursive_types(T)]
pub struct ExBroadcastReceiver<T>(tokio::sync::broadcast::Receiver<T>);

/// The outputs that were handed to a sender, oldest first, each with whether its channel accepted
/// it.
pub uninterp spec fn broadcast_offers(
    sender: tokio::sync::broadcast::Sender<FilterOutput>,
) -> Seq<(Option<Seq<char>>, bool)>;

/// How many outputs a broadcast channel retains for a receiver that lags behind.
pub uninterp spec fn broadcast_capacity(
    sender: tokio::sync::broadcast::Sender<FilterOutput>,
) -> nat;

/// The two halves belong to the same broadcast channel.
pub uninterp spec fn broadcast_connects(
    sender: tokio::sync::broadcast::Sender<FilterOutput>,
    receiver: tokio::sync::broadcast::Receiver<FilterOutput>,
) -> bool;

/// `capacity` rounded up to a power of two.
pub open spec fn rounded_capacity(capacity: nat, rounded: nat) -> bool {
    capacity <= rounded < 2 * capacity && exists|k: nat| rounded == #[trigger] pow2(k)
}

/// `tokio::sync::broadcast::channel`: a channel that nothing was sent on, which retains as many
/// outputs as the next power of two. It panics without capacity, and where its slots do not fit
/// in memory. When the receiver yields what was sent depends on the tasks that use the two halves:
/// that is left unsaid.
#[verifier::external_body]
pub(crate) fn broadcast_channel(capacity: usize) -> (halves: (
    broadcast::Sender<FilterOutput>,
    broadcast::Receiver<FilterOutput>,
))
    requires
        0 < capacity <= usize::MAX / 256,
    ensures
        broadcast_offers(halves.0) == Seq::<(Option<Seq<char>>, bool)>::empty(),
        rounded_capacity(capacity as nat, broadcast_capacity(halves.0)),
        broadcast_connects(halves.0, halves.1),
{
    broadcast::channel(capacity)
}

/// `Sender::send` of the broadcast channels of `tokio`: the channel accepts the output if there is
/// a receiver at that moment, and otherwise hands it back. Either way it was handed to the channel.
/// Whether it is accepted depends on the tasks that hold the receivers.
#[verifier::external_body]
pub(crate) fn broadcast_send(
    sender: &mut broadcast::Sender<FilterOutput>,
    output: FilterOutput,
) -> (accepted: bool)
    ensures
        broadcast_offers(*final(sender)) == broadcast_offers(*old(sender)).push(
            (output@, accepted),
        ),
        broadcast_capacity(*final(sender)) == broadcast_capacity(*old(sender)),
        forall|receiver: broadcast::Receiver<FilterOutput>|
            #[trigger] broadcast_connects(*final(sender), receiver) == broadcast_connects(
                *old(sender),
                receiver,
            ),
{
    sender.send(output).is_ok()
}

// === Delay queues ===

/// A queue of items that expire, of the `tokio` crate.
#[verifier::external_type_specification]
#[verifier::external_body]
#[verifier::reject_recursive_types(T)]
pub struct ExDelayQueue<T>(tokio::time::DelayQueue<T>);

/// The token of an item in a delay queue.
#[verifier::external_type_specification]
#[verifier::external_body]
pub struct ExDelayQueueKey(tokio::time::delay_queue::Key);

/// The task that polls, as the standard library hands it down.
#[verifier::external_type_specification]
#[verifier::external_body]
pub struct ExContext<'a>(std::task::Context<'a>);

/// What a delay queue holds: under each key an item, and the delay in milliseconds that it was
/// given last.
pub uninterp spec fn delay_queue_items(
    queue: tokio::time::DelayQueue<u64>,
) -> Map<tokio::time::delay_queue::Key, (u64, u64)>;

/// The keys in a delay queue whose items can be taken out: those that were put in since an item was
/// handed out last. Of an older item the queue may have lost track, if it is due in the millisecond
/// up to which the queue has advanced.
pub uninterp spec fn delay_queue_settled(
    queue: tokio::time::DelayQueue<u64>,
) -> Set<tokio::time::delay_queue::Key>;

/// What polling a delay queue gave so far, oldest first.
pub uninterp spec fn delay_queue_polls(queue: tokio::time::DelayQueue<u64>) -> Seq<DelayPoll>;

/// A delay queue waits for nothing: it has set itself no deadline.
pub uninterp spec fn delay_queue_idle(queue: tokio::time::DelayQueue<u64>) -> bool;

/// How many items a delay queue can hold.
pub const MAX_DELAYED: usize = 0x3fff_ffff;

/// The longest delay that the library asks for, in milliseconds. A delay queue can look about twice
/// as far ahead of the moment at which it was made.
pub const MAX_DELAY_MS: u64 = 0x7_ffff_ffff;

/// What polling a delay queue gives.
pub enum DelayPoll {
    /// Nothing has expired yet.
    Pending,
    /// There is nothing in the queue.
    Empty,
    /// This item has expired.
    Expired(u64),
    /// The timer failed, for good if it was shut down.
    Failed { shutdown: bool },
}

/// `DelayQueue::new`: an empty queue, which waits for nothing yet and was not polled.
#[verifier::external_body]
pub(crate) fn delay_queue_new() -> (queue: DelayQueue<u64>)
    ensures
        delay_queue_items(queue).dom() == Set::<delay_queue::Key>::empty(),
        delay_queue_idle(queue),
        delay_queue_polls(queue) == Seq::<DelayPoll>::empty(),
{
    DelayQueue::new()
}

/// `DelayQueue::insert`: puts the item under a key that is not in use. The queue then waits for it,
/// or for one that is due earlier. It panics on a full queue and on too long a delay. It has to be
/// called in a task of a runtime whose timer runs, within a year after the queue was made: that
/// depends on the runtime and the clock, and is left unsaid.
#[verifier::external_body]
pub(crate) fn delay_queue_insert(
    queue: &mut DelayQueue<u64>,
    item: u64,
    delay_ms: u64,
) -> (key: delay_queue::Key)
    requires
        delay_queue_items(*old(queue)).dom().finite(),
        delay_queue_items(*old(queue)).len() < MAX_DELAYED,
        delay_ms <= MAX_DELAY_MS,
    ensures
        !delay_queue_items(*old(queue)).contains_key(key),
        delay_queue_items(*final(queue)) == delay_queue_items(*old(queue)).insert(
            key,
            (item, delay_ms),
        ),
        delay_queue_settled(*final(queue)) == delay_queue_settled(*old(queue)).insert(key),
        !delay_queue_idle(*final(queue)),
        delay_queue_polls(*final(queue)) == delay_queue_polls(*old(queue)),
{
    queue.insert(item, Duration::from_millis(delay_ms))
}

/// `DelayQueue::remove`: takes the item out. If the queue waited for it, it still does. It panics
/// if the key is not in use, and if the queue has lost track of the item.
#[verifier::external_body]
pub(crate) fn delay_queue_remove(queue: &mut DelayQueue<u64>, key: &delay_queue::Key) -> (item: u64)
    requires
        delay_queue_items(*old(queue)).contains_key(*key),
        delay_queue_settled(*old(queue)).contains(*key),
    ensures
        item == delay_queue_items(*old(queue))[*key].0,
        delay_queue_items(*final(queue)) == delay_queue_items(*old(queue)).remove(*key),
        delay_queue_settled(*final(queue)) == delay_queue_settled(*old(queue)).remove(*key),
        delay_queue_idle(*final(queue)) == delay_queue_idle(*old(queue)),
        delay_queue_polls(*final(queue)) == delay_queue_polls(*old(queue)),
{
    queue.remove(key).into_inner()
}

/// `DelayQueue::reset`: gives the item another delay, from now on. It panics if the key is not in
/// use, if the queue has lost track of the item, and on too long a delay. An item that had no delay
/// at all is taken for expired ever after, so it must not be given one in this way. What is left
/// unsaid of `insert` holds here too.
#[verifier::external_body]
pub(crate) fn delay_queue_reset(queue: &mut DelayQueue<u64>, key: &delay_queue::Key, delay_ms: u64)
    requires
        delay_queue_items(*old(queue)).contains_key(*key),
        delay_queue_settled(*old(queue)).contains(*key),
        delay_queue_items(*old(queue))[*key].1 > 0,
        delay_ms <= MAX_DELAY_MS,
    ensures
        delay_queue_items(*final(queue)) == delay_queue_items(*old(queue)).insert(
            *key,
            (delay_queue_items(*old(queue))[*key].0, delay_ms),
        ),
        delay_queue_settled(*final(queue)) == delay_queue_settled(*old(queue)),
        delay_queue_idle(*final(queue)) == delay_queue_idle(*old(queue)),
        delay_queue_polls(*final(queue)) == delay_queue_polls(*old(queue)),
{
    queue.reset(key, Duration::from_millis(delay_ms))
}

/// `DelayQueue::poll_expired`: takes out an item whose delay is over, if there is one; which one,
/// and when, depends on the time. Otherwise the queue holds what it held, keeps track of what it
/// kept track of, and wakes the task once there is one. A queue that waits for nothing says at once
/// that it is empty; one that says so waits for nothing, and only an empty one does. It has to be
/// called in a task of a runtime whose timer runs.
#[verifier::external_body]
pub(crate) fn delay_queue_poll(queue: &mut DelayQueue<u64>, cx: &mut Context<'_>) -> (polled:
    DelayPoll)
    ensures
        delay_queue_polls(*final(queue)) == delay_queue_polls(*old(queue)).push(polled),
        polled matches DelayPoll::Expired(item) ==> exists|key: delay_queue::Key|
            #[trigger] delay_queue_items(*old(queue)).contains_key(key)
                && delay_queue_items(*old(queue))[key].0 == item
                && delay_queue_items(*final(queue)) == delay_queue_items(*old(queue)).remove(key),
        !(polled is Expired) ==> delay_queue_items(*final(queue)) == delay_queue_items(*old(queue)),
        !(polled is Expired) ==> delay_queue_settled(*old(queue)).subset_of(
            delay_queue_settled(*final(queue)),
        ),
        delay_queue_idle(*old(queue)) ==> polled is Empty,
        polled is Empty ==> delay_queue_idle(*final(queue)),
        delay_queue_idle(*final(queue)) ==> delay_queue_items(*final(queue)).dom()
            == Set::<delay_queue::Key>::empty(),
        polled is Pending ==> !delay_queue_idle(*final(queue)),
{
    match queue.poll_expired(cx) {
        Poll::Pending => DelayPoll::Pending,
        Poll::Ready(None) => DelayPoll::Empty,
        Poll::Ready(Some(Ok(expired))) => DelayPoll::Expired(expired.into_inner()),
        Poll::Ready(Some(Err(error))) => DelayPoll::Failed { shutdown: error.is_shutdown() },
    }
}

// === Shared pointers ===

/// `Arc::strong_count`: how many pointers to the same value there are, this one among them. What
/// more there is depends on the tasks that hold them.
#[verifier::external_body]
pub(crate) fn strong_count<T>(pointer: &Arc<T>) -> (count: usize)
    ensures
        count >= 1,
{
    Arc::strong_count(pointer)
}

} // verus!
