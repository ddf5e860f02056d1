//! A ready channel: one sender says once that something is ready, any number of receivers wait
//! for it.
//!
//! The two halves decide; the state that they share, and the lock around it, belong to whoever
//! runs them. A waker of any kind can be registered: it is only kept and handed back.

use vstd::prelude::*;

verus! {

/// Something that can be told that it is ready, such as the sending half of a ready channel.
pub trait Signal {
    /// Signals that it is ready. Returns `None` if nobody listens any more.
    fn ready(&self) -> Option<()>;
}

/// What has been said on a channel so far.
#[derive(Clone, Copy, Debug, PartialEq, Eq, Structural)]
pub struct Status {
    /// The sender said that it is ready.
    pub ready: bool,
    /// The sender is gone.
    pub closed: bool,
}

/// A registered waker, with the number that it was registered under.
pub struct Listener<W> {
    pub id: u64,
    pub waker: W,
}

/// The state that the two halves of a channel share.
pub struct Shared<W> {
    pub status: Status,
    /// How many receivers there are.
    pub receivers: u64,
    /// The wakers to call when the status changes, in the order in which they were registered.
    pub listeners: Vec<Listener<W>>,
    /// The number of the next listener.
    pub next_listener: u64,
}

/// The sending half of a channel.
pub struct ReadySender {}

/// The receiving half of a channel.
pub struct ReadyReceiver {
    /// The listener that this receiver registered last.
    pub listener: Option<u64>,
}

/// What a receiver learns from polling.
#[derive(Clone, Copy, Debug, PartialEq, Eq)]
pub enum Polled {
    /// It is ready, or (`None`) never will be.
    Done(Option<()>),
    /// Nothing yet. With `wake_now` the status has changed meanwhile: poll again at once.
    Pending { wake_now: bool },
}

/// What a receiver that sees `status` is told, if anything: ready wins over closed.
pub open spec fn outcome(status: Status) -> Option<Option<()>> {
    if status.ready {
        Some(Some(()))
    } else if status.closed {
        Some(None)
    } else {
        None
    }
}

/// The status once the sender said that it is ready.
pub open spec fn once_ready(status: Status) -> Status {
    Status { ready: true, closed: false }
}

/// The status once the sender is gone.
pub open spec fn once_closed(status: Status) -> Status {
    Status { ready: status.ready, closed: true }
}

/// What was said stays said: a receiver that polls after the sender said that it is ready is told
/// so, even if the sender is gone by then.
pub proof fn ready_outlives_the_sender(status: Status)
    ensures
        outcome(once_ready(status)) == Some(Some(())),
        outcome(once_closed(once_ready(status))) == Some(Some(())),
{
}

/// A receiver waits exactly as long as the sender has neither said that it is ready nor gone, and is
/// told that it is ready exactly if the sender said so.
pub proof fn a_receiver_waits_for_a_word(status: Status)
    ensures
        outcome(status) is None <==> !status.ready && !status.closed,
        outcome(status) == Some(Some(())) <==> status.ready,
        once_ready(status).ready,
        !once_ready(status).closed,
        once_closed(status).closed,
        once_closed(status).ready == status.ready,
{
}

/// A receiver is told that nothing will come exactly when the sender went without a word.
pub proof fn closing_unsaid_is_told(status: Status)
    ensures
        outcome(once_closed(status)) == Some(None::<()>) <==> !status.ready,
{
}

/// The listeners without the one with this number.
pub open spec fn without_listener<W>(listeners: Seq<Listener<W>>, id: u64) -> Seq<Listener<W>>
    decreases listeners.len(),
{
    if listeners.len() == 0 {
        listeners
    } else if listeners.last().id == id {
        listeners.drop_last()
    } else {
        without_listener(listeners.drop_last(), id).push(listeners.last())
    }
}

/// Taking out the listener at `i`.
proof fn without_listener_at<W>(listeners: Seq<Listener<W>>, id: u64, i: int)
    requires
        0 <= i < listeners.len(),
        listeners[i].id == id,
        forall|j: int, k: int|
            0 <= j < k < listeners.len() ==> (#[trigger] listeners[j]).id != (
            #[trigger] listeners[k]).id,
    ensures
        without_listener(listeners, id) == listeners.remove(i),
    decreases listeners.len(),
{
    let last = listeners.len() - 1;
    if i == last {
        assert(listeners.drop_last() =~= listeners.remove(i));
    } else {
        assert(listeners[i].id != listeners[last].id);
        without_listener_at(listeners.drop_last(), id, i);
        assert(listeners.drop_last().remove(i).push(listeners.last()) =~= listeners.remove(i));
    }
}

/// There is no such listener to take out.
proof fn without_no_listener<W>(listeners: Seq<Listener<W>>, id: u64)
    requires
        forall|j: int| 0 <= j < listeners.len() ==> (#[trigger] listeners[j]).id != id,
    ensures
        without_listener(listeners, id) == listeners,
    decreases listeners.len(),
{
    if listeners.len() > 0 {
        without_no_listener(listeners.drop_last(), id);
        assert(listeners.drop_last().push(listeners.last()) =~= listeners);
    }
}

/// Taking out a listener leaves the others as they are.
proof fn without_one<W>(listeners: Seq<Listener<W>>, id: u64)
    requires
        forall|j: int, k: int|
            0 <= j < k < listeners.len() ==> (#[trigger] listeners[j]).id != (
            #[trigger] listeners[k]).id,
    ensures
        ({
            ||| without_listener(listeners, id) == listeners
            ||| exists|i: int|
                0 <= i < listeners.len() && #[trigger] listeners[i].id == id && without_listener(
                    listeners,
                    id,
                ) == listeners.remove(i)
        }),
        forall|other: Listener<W>|
            listeners.contains(other) && other.id != id ==> #[trigger] without_listener(
                listeners,
                id,
            ).contains(other),
{
    let after = without_listener(listeners, id);
    if exists|i: int| 0 <= i < listeners.len() && (#[trigger] listeners[i]).id == id {
        let i = choose|i: int| 0 <= i < listeners.len() && (#[trigger] listeners[i]).id == id;
        without_listener_at(listeners, id, i);
        assert forall|other: Listener<W>|
            listeners.contains(other) && other.id != id implies #[trigger] after.contains(
            other,
        ) by {
            let j = listeners.index_of(other);
            let to = if j < i {
                j
            } else {
                j - 1
            };
            assert(after[to] == other);
        }
    } else {
        without_no_listener(listeners, id);
    }
}

impl<W> Shared<W> {
    /// No two listeners share a number, and the next number is new.
    pub open spec fn wf(self) -> bool {
        &&& forall|i: int, j: int|
            0 <= i < j < self.listeners@.len() ==> #[trigger] self.listeners@[i].id
                != #[trigger] self.listeners@[j].id
        &&& forall|i: int|
            0 <= i < self.listeners@.len() ==> #[trigger] self.listeners@[i].id
                < self.next_listener
    }

    /// The listener `id` will be called when the status changes.
    pub open spec fn listens(self, id: u64) -> bool {
        exists|i: int| 0 <= i < self.listeners@.len() && (#[trigger] self.listeners@[i]).id == id
    }

    /// The listener `id` is registered with this waker.
    pub open spec fn wakes(self, id: u64, waker: W) -> bool {
        self.listeners@.contains(Listener { id, waker })
    }

    /// Taking out a listener leaves the others in place.
    proof fn others_stay(self, after: Self, id: u64)
        requires
            self.wf(),
            after.listeners@ == without_listener(self.listeners@, id),
            after.next_listener >= self.next_listener,
        ensures
            after.wf(),
            forall|other: u64| #[trigger]
                after.listens(other) == (self.listens(other) && other != id),
            forall|other: u64, waker: W|
                self.wakes(other, waker) && other != id ==> #[trigger] after.wakes(other, waker),
    {
        let before = self.listeners@;
        if self.listens(id) {
            let i = choose|i: int| 0 <= i < before.len() && (#[trigger] before[i]).id == id;
            without_listener_at(before, id, i);
            without_one(before, id);
            assert forall|other: u64| #[trigger] after.listens(other) == (self.listens(other)
                && other != id) by {
                if self.listens(other) && other != id {
                    let j = choose|j: int| 0 <= j < before.len() && (#[trigger] before[j]).id
                        == other;
                    assert(after.listeners@.contains(before[j]));
                }
                if after.listens(other) {
                    let j = choose|j: int|
                        0 <= j < after.listeners@.len() && (#[trigger] after.listeners@[j]).id
                            == other;
                    let from = if j < i {
                        j
                    } else {
                        j + 1
                    };
                    assert(before[from].id == other);
                }
            }
        } else {
            without_no_listener(before, id);
        }
    }

    /// The position of a listener.
    fn position(&self, id: u64) -> (position: Option<usize>)
        ensures
            match position {
                Some(p) => p < self.listeners@.len() && self.listeners@[p as int].id == id,
                None => !self.listens(id),
            },
    {
        let mut i: usize = 0;
        while i < self.listeners.len()
            invariant
                i <= self.listeners.len(),
                forall|j: int| 0 <= j < i ==> (#[trigger] self.listeners@[j]).id != id,
            decreases self.listeners.len() - i,
        {
            if self.listeners[i].id == id {
                return Some(i);
            }
            i = i + 1;
        }
        None
    }

    /// Takes a listener out.
    fn deregister(&mut self, id: u64)
        requires
            old(self).wf(),
        ensures
            final(self).wf(),
            final(self).listeners@ == without_listener(old(self).listeners@, id),
            *final(self) == (Shared { listeners: final(self).listeners, ..*old(self) }),
            forall|other: u64| #[trigger]
                final(self).listens(other) == (old(self).listens(other) && other != id),
    {
        match self.position(id) {
            Some(i) => {
                self.listeners.remove(i);
                proof {
                    without_listener_at(old(self).listeners@, id, i as int);
                }
            },
            None => {
                proof {
                    without_no_listener(self.listeners@, id);
                }
            },
        }
        proof {
            old(self).others_stay(*self, id);
        }
    }
}

impl ReadyReceiver {
    /// The receiver waits for nothing yet, or its listener is registered.
    pub open spec fn registered<W>(self, shared: Shared<W>) -> bool {
        self.listener matches Some(id) ==> shared.listens(id)
    }

    /// What polling comes to: `before` and `after` are the shared state, `receiver` is this one
    /// afterwards. The other arguments are those of `poll`. A waker that wakes another task is
    /// replaced.
    pub open spec fn polls<W>(
        self,
        seen: Status,
        will_wake: bool,
        waker: W,
        before: Shared<W>,
        receiver: ReadyReceiver,
        after: Shared<W>,
        polled: Polled,
    ) -> bool {
        match outcome(seen) {
            Some(told) => polled == Polled::Done(told) && receiver == self && after == before,
            None => if self.listener is Some && will_wake {
                &&& polled == (Polled::Pending { wake_now: false })
                &&& receiver == self
                &&& after == before
            } else {
                let others = match self.listener {
                    Some(id) => without_listener(before.listeners@, id),
                    None => before.listeners@,
                };
                let listener = Listener { id: before.next_listener, waker: waker };
                &&& polled == (Polled::Pending {
                    wake_now: before.status.ready || before.status.closed,
                })
                &&& receiver == (ReadyReceiver { listener: Some(before.next_listener) })
                &&& after.listeners@ == others.push(listener)
                &&& after.next_listener == before.next_listener + 1
                &&& after.status == before.status
                &&& after.receivers == before.receivers
            },
        }
    }

    /// What leaving comes to.
    pub open spec fn leaves<W>(self, before: Shared<W>, after: Shared<W>) -> bool {
        &&& after.listeners@ == match self.listener {
            Some(id) => without_listener(before.listeners@, id),
            None => before.listeners@,
        }
        &&& after.receivers == before.receivers - 1
        &&& after.status == before.status
        &&& after.next_listener == before.next_listener
    }

    /// The waker that this receiver registered last.
    pub fn waker<'a, W>(&self, shared: &'a Shared<W>) -> (waker: Option<&'a W>)
        requires
            shared.wf(),
        ensures
            match waker {
                Some(w) => self.listener is Some && exists|i: int|
                    0 <= i < shared.listeners@.len() && (#[trigger] shared.listeners@[i]).id
                        == self.listener->0 && shared.listeners@[i].waker == *w,
                None => self.listener is None || !shared.listens(self.listener->0),
            },
    {
        match self.listener {
            Some(id) => match shared.position(id) {
                Some(i) => Some(&shared.listeners[i].waker),
                None => None,
            },
            None => None,
        }
    }

    /// Polls the channel. `seen` is the status read before the shared state was locked,
    /// `will_wake` says whether the waker registered last wakes the task that polls, and `waker`
    /// is the one to register if it does not.
    pub fn poll<W>(
        &mut self,
        seen: Status,
        will_wake: bool,
        waker: W,
        shared: &mut Shared<W>,
    ) -> (polled: Polled)
        requires
            old(shared).wf(),
            old(shared).next_listener < u64::MAX,
        ensures
            old(self).polls(
                seen,
                will_wake,
                waker,
                *old(shared),
                *final(self),
                *final(shared),
                polled,
            ),
            final(shared).wf(),
            old(self).registered(*old(shared)) ==> final(self).registered(*final(shared)),
    {
        if seen.ready {
            return Polled::Done(Some(()));
        }
        if seen.closed {
            return Polled::Done(None);
        }
        if self.listener.is_some() && will_wake {
            return Polled::Pending { wake_now: false };
        }
        let wake_now = shared.status.ready || shared.status.closed;
        if let Some(id) = self.listener {
            shared.deregister(id);
        }
        let id = shared.next_listener;
        self.listener = Some(id);
        shared.listeners.push(Listener { id: id, waker: waker });
        shared.next_listener = id + 1;
        proof {
            let last = shared.listeners@.len() - 1;
            assert(shared.listeners@[last].id == id);
        }
        Polled::Pending { wake_now: wake_now }
    }

    /// A second receiver of the same channel. It has registered nothing yet.
    pub fn clone<W>(&self, shared: &mut Shared<W>) -> (receiver: ReadyReceiver)
        requires
            old(shared).receivers < u64::MAX,
        ensures
            receiver.listener is None,
            *final(shared) == (Shared {
                receivers: (old(shared).receivers + 1) as u64,
                ..*old(shared)
            }),
    {
        shared.receivers = shared.receivers + 1;
        ReadyReceiver { listener: None }
    }

    /// Takes the receiver out of the channel: its listener is no longer called.
    pub fn leave<W>(self, shared: &mut Shared<W>)
        requires
            old(shared).wf(),
            old(shared).receivers > 0,
        ensures
            self.leaves(*old(shared), *final(shared)),
            final(shared).wf(),
            forall|id: u64| #[trigger]
                final(shared).listens(id) == (old(shared).listens(id) && self.listener != Some(id)),
    {
        shared.receivers = shared.receivers - 1;
        if let Some(id) = self.listener {
            shared.deregister(id);
        }
    }
}

impl ReadySender {
    /// Says that it is ready. Returns `None`, and says nothing, if there are no receivers.
    /// Otherwise every listener is to be woken.
    pub fn ready<W>(&self, shared: &mut Shared<W>) -> (said: Option<()>)
        ensures
            said is Some == (old(shared).receivers > 0),
            *final(shared) == if said is Some {
                Shared { status: once_ready(old(shared).status), ..*old(shared) }
            } else {
                *old(shared)
            },
    {
        if shared.receivers == 0 {
            return None;
        }
        shared.status = Status { ready: true, closed: false };
        Some(())
    }

    /// Closes the channel: nothing will be said on it any more. Every listener is to be woken,
    /// so that a receiver that still waits learns of it.
    pub fn close<W>(self, shared: &mut Shared<W>)
        ensures
            *final(shared) == (Shared { status: once_closed(old(shared).status), ..*old(shared) }),
    {
        shared.status.closed = true;
    }
}

// === No wakeup is lost ===

/// Something happens to the shared state that is not the doing of the receiver with this listener:
/// the sender speaks or goes, or another receiver polls, is made or leaves.
pub open spec fn others_act<W>(before: Shared<W>, after: Shared<W>, listener: Option<u64>) -> bool {
    // The sender, or another receiver that is made
    ||| after == (Shared { status: after.status, receivers: after.receivers, ..before })
    ||| exists|
        other: ReadyReceiver,
        seen: Status,
        will_wake: bool,
        waker: W,
        receiver: ReadyReceiver,
        polled: Polled,
    |
        #![trigger other.polls(seen, will_wake, waker, before, receiver, after, polled)]
        (other.listener is None || other.listener != listener) && other.polls(
            seen,
            will_wake,
            waker,
            before,
            receiver,
            after,
            polled,
        )
    ||| exists|other: ReadyReceiver|
        (other.listener is None || other.listener != listener) && #[trigger] other.leaves(
            before,
            after,
        )
}

/// A run of the shared state in which the receiver with this listener does nothing.
pub open spec fn others_run<W>(run: Seq<Shared<W>>, listener: Option<u64>) -> bool {
    &&& run.len() > 0
    &&& run[0].wf()
    &&& forall|i: int|
        0 <= i < run.len() - 1 ==> others_act(#[trigger] run[i], run[i + 1], listener)
}

/// What others do leaves a listener in place.
proof fn others_keep_listener<W>(before: Shared<W>, after: Shared<W>, listener: Option<u64>)
    requires
        before.wf(),
        others_act(before, after, listener),
    ensures
        after.wf(),
        listener matches Some(id) ==> forall|waker: W|
            before.wakes(id, waker) ==> #[trigger] after.wakes(id, waker),
{
    if after == (Shared { status: after.status, receivers: after.receivers, ..before }) {
        assert(after.listeners@ == before.listeners@);
    } else if exists|other: ReadyReceiver|
        (other.listener is None || other.listener != listener) && #[trigger] other.leaves(
            before,
            after,
        ) {
        let other = choose|other: ReadyReceiver|
            (other.listener is None || other.listener != listener) && #[trigger] other.leaves(
                before,
                after,
            );
        leaving_keeps_others(other, before, after);
    } else {
        let (other, seen, will_wake, waker, receiver, polled) = choose|
            other: ReadyReceiver,
            seen: Status,
            will_wake: bool,
            waker: W,
            receiver: ReadyReceiver,
            polled: Polled,
        |
            #![trigger other.polls(seen, will_wake, waker, before, receiver, after, polled)]
            (other.listener is None || other.listener != listener) && other.polls(
                seen,
                will_wake,
                waker,
                before,
                receiver,
                after,
                polled,
            );
        polling_keeps_others(other, seen, will_wake, waker, before, receiver, after, polled);
    }
}

/// A receiver that leaves takes no listener out but its own.
proof fn leaving_keeps_others<W>(other: ReadyReceiver, before: Shared<W>, after: Shared<W>)
    requires
        before.wf(),
        other.leaves(before, after),
    ensures
        after.wf(),
        forall|id: u64, waker: W|
            before.wakes(id, waker) && other.listener != Some(id) ==> #[trigger] after.wakes(
                id,
                waker,
            ),
{
    if let Some(id) = other.listener {
        before.others_stay(after, id);
    }
}

/// A receiver that polls takes no listener out but its own, and its new one listens.
proof fn polling_keeps_others<W>(
    other: ReadyReceiver,
    seen: Status,
    will_wake: bool,
    waker: W,
    before: Shared<W>,
    receiver: ReadyReceiver,
    after: Shared<W>,
    polled: Polled,
)
    requires
        before.wf(),
        other.polls(seen, will_wake, waker, before, receiver, after, polled),
    ensures
        after.wf(),
        forall|id: u64, w: W|
            before.wakes(id, w) && other.listener != Some(id) ==> #[trigger] after.wakes(id, w),
        outcome(seen) is None && !(other.listener is Some && will_wake) ==> after.wakes(
            before.next_listener,
            waker,
        ),
{
    if outcome(seen) is None && !(other.listener is Some && will_wake) {
        let others = match other.listener {
            Some(id) => without_listener(before.listeners@, id),
            None => before.listeners@,
        };
        if let Some(id) = other.listener {
            without_one(before.listeners@, id);
        }
        let listener = Listener { id: before.next_listener, waker };
        assert(after.listeners@[others.len() as int] == listener);
        assert forall|id: u64, w: W|
            before.wakes(id, w) && other.listener != Some(id) implies #[trigger] after.wakes(
            id,
            w,
        ) by {
            let kept = Listener { id, waker: w };
            assert(others.contains(kept));
            assert(after.listeners@[others.index_of(kept)] == kept);
        }
    }
}

/// A listener that listens at the start of such a run does so throughout.
proof fn listens_throughout<W>(run: Seq<Shared<W>>, listener: Option<u64>, i: int)
    requires
        others_run(run, listener),
        0 <= i < run.len(),
    ensures
        run[i].wf(),
        listener matches Some(id) ==> forall|waker: W| #[trigger]
            run[0].wakes(id, waker) ==> run[i].wakes(id, waker),
    decreases i,
{
    if i > 0 {
        listens_throughout(run, listener, i - 1);
        assert(others_act(run[i - 1], run[i - 1 + 1], listener));
        others_keep_listener(run[i - 1], run[i], listener);
    }
}

/// No wakeup is lost: a receiver that is told to wait is woken by whatever the sender says from the
/// moment at which the receiver looked at the status. `earlier` is the shared state from that
/// moment until the receiver polls, `later` is the shared state from then on. Either the listener
/// is registered whenever the sender can speak, and so is woken; or the receiver registers it only
/// now, and is told to poll again at once if the sender has spoken meanwhile. It stays registered
/// with the same waker, which is the one that was handed to the poll if it is registered only now.
pub proof fn no_wakeup_is_lost<W>(
    earlier: Seq<Shared<W>>,
    receiver: ReadyReceiver,
    will_wake: bool,
    waker: W,
    waiting: ReadyReceiver,
    polled: Polled,
    later: Seq<Shared<W>>,
)
    requires
        others_run(earlier, receiver.listener),
        receiver.registered(earlier[0]),
        receiver.polls(
            earlier[0].status,
            will_wake,
            waker,
            earlier.last(),
            waiting,
            later[0],
            polled,
        ),
        polled is Pending,
        others_run(later, waiting.listener),
    ensures
        waiting.listener is Some,
        exists|registered: W|
            {
                &&& #[trigger] later[0].wakes(waiting.listener->0, registered)
                &&& forall|i: int|
                    0 <= i < later.len() ==> (#[trigger] later[i]).wakes(
                        waiting.listener->0,
                        registered,
                    )
                &&& if receiver.listener is Some && will_wake {
                    forall|i: int|
                        0 <= i < earlier.len() ==> (#[trigger] earlier[i]).wakes(
                            waiting.listener->0,
                            registered,
                        )
                } else {
                    &&& registered == waker
                    &&& polled == (Polled::Pending {
                        wake_now: earlier.last().status.ready || earlier.last().status.closed,
                    })
                }
            },
{
    let kept = receiver.listener is Some && will_wake;
    let registered = if kept {
        let at = choose|at: int|
            0 <= at < earlier[0].listeners@.len() && (#[trigger] earlier[0].listeners@[at]).id
                == receiver.listener->0;
        earlier[0].listeners@[at].waker
    } else {
        waker
    };
    if kept {
        assert(earlier[0].wakes(receiver.listener->0, registered));
    }
    assert forall|i: int| 0 <= i < earlier.len() implies (#[trigger] earlier[i]).wf() && (kept
        ==> earlier[i].wakes(receiver.listener->0, registered)) by {
        listens_throughout(earlier, receiver.listener, i);
    }
    polling_keeps_others(
        receiver,
        earlier[0].status,
        will_wake,
        waker,
        earlier.last(),
        waiting,
        later[0],
        polled,
    );
    assert(later[0].wakes(waiting.listener->0, registered));
    assert forall|i: int| 0 <= i < later.len() implies (#[trigger] later[i]).wakes(
        waiting.listener->0,
        registered,
    ) by {
        listens_throughout(later, waiting.listener, i);
    }
}

/// Polling tells what was seen, and nothing else changes then. A receiver that is told to wait is
/// registered: under the number that it had if its waker still wakes the task that polls, and
/// otherwise under a new one with the new waker, after all others. Only its own old listener goes.
pub proof fn polling_tells_what_was_seen<W>(
    receiver: ReadyReceiver,
    seen: Status,
    will_wake: bool,
    waker: W,
    before: Shared<W>,
    after_receiver: ReadyReceiver,
    after: Shared<W>,
    polled: Polled,
)
    requires
        before.wf(),
        receiver.polls(seen, will_wake, waker, before, after_receiver, after, polled),
    ensures
        polled == Polled::Done(Some(())) <==> seen.ready,
        polled == Polled::Done(None::<()>) <==> seen.closed && !seen.ready,
        polled is Pending <==> !seen.ready && !seen.closed,
        after.status == before.status,
        after.receivers == before.receivers,
        polled is Done ==> after == before && after_receiver == receiver,
        polled is Pending && receiver.listener is Some && will_wake ==> after == before
            && after_receiver == receiver && polled == (Polled::Pending { wake_now: false }),
        polled is Pending && !(receiver.listener is Some && will_wake) ==> {
            &&& polled == (Polled::Pending {
                wake_now: before.status.ready || before.status.closed,
            })
            &&& after_receiver.listener == Some(before.next_listener)
            &&& after.listeners@.last().id == before.next_listener
            &&& after.listeners@.last().waker == waker
            &&& forall|listener: Listener<W>|
                before.listeners@.contains(listener) && receiver.listener != Some(listener.id)
                    ==> #[trigger] after.listeners@.contains(listener)
        },
{
    if polled is Pending && !(receiver.listener is Some && will_wake) {
        polling_keeps_others(
            receiver,
            seen,
            will_wake,
            waker,
            before,
            after_receiver,
            after,
            polled,
        );
        assert forall|listener: Listener<W>|
            before.listeners@.contains(listener) && receiver.listener != Some(
                listener.id,
            ) implies #[trigger] after.listeners@.contains(listener) by {
            assert(before.wakes(listener.id, listener.waker));
            assert(after.wakes(listener.id, listener.waker));
        }
    }
}

/// A receiver that leaves is one receiver less, and takes its own listener with it and no other.
pub proof fn leaving_takes_one_listener<W>(
    receiver: ReadyReceiver,
    before: Shared<W>,
    after: Shared<W>,
)
    requires
        before.wf(),
        receiver.leaves(before, after),
    ensures
        after.receivers == before.receivers - 1,
        after.status == before.status,
        after.next_listener == before.next_listener,
        forall|listener: Listener<W>| #[trigger]
            after.listeners@.contains(listener) <==> before.listeners@.contains(listener)
                && receiver.listener != Some(listener.id),
{
    leaving_keeps_others(receiver, before, after);
    assert forall|listener: Listener<W>| #[trigger]
        after.listeners@.contains(listener) <==> before.listeners@.contains(listener)
            && receiver.listener != Some(listener.id) by {
        if before.listeners@.contains(listener) && receiver.listener != Some(listener.id) {
            assert(before.wakes(listener.id, listener.waker));
            assert(after.wakes(listener.id, listener.waker));
        }
        if after.listeners@.contains(listener) {
            match receiver.listener {
                Some(id) => {
                    without_one(before.listeners@, id);
                    before.others_stay(after, id);
                    let k = after.listeners@.index_of(listener);
                    assert(after.listens(listener.id));
                    if after.listeners@ != before.listeners@ {
                        let i = choose|i: int|
                            0 <= i < before.listeners@.len() && #[trigger] before.listeners@[i].id
                                == id && after.listeners@ == before.listeners@.remove(i);
                        let from = if k < i {
                            k
                        } else {
                            k + 1
                        };
                        assert(before.listeners@[from] == listener);
                    }
                },
                None => {},
            }
        }
    }
}

/// Creates a channel: its shared state, its sender, and its first receiver.
pub fn channel<W>() -> (channel: (Shared<W>, ReadySender, ReadyReceiver))
    ensures
        channel.0.wf(),
        channel.0.status == (Status { ready: false, closed: false }),
        channel.0.receivers == 1,
        channel.0.listeners@ == Seq::<Listener<W>>::empty(),
        channel.0.next_listener == 0,
        channel.2.listener is None,
{
    let shared = Shared {
        status: Status { ready: false, closed: false },
        receivers: 1,
        listeners: Vec::new(),
        next_listener: 0,
    };
    (shared, ReadySender {  }, ReadyReceiver { listener: None })
}

} // verus!
