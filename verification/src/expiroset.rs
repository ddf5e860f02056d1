//! An ordered list of elements that expire after a timeout.

use std::task::Context;

use tokio::time::{delay_queue, DelayQueue};
use vstd::prelude::*;
use vstd::std_specs::cmp::PartialEqSpec;

use crate::external;
use crate::external::{DelayPoll, MAX_DELAYED, MAX_DELAY_MS};

verus! {

/// An element with its timeout in milliseconds, where it stands in the delay queue, and the token
/// that the queue hands back.
struct Entry<T> {
    value: T,
    timeout_ms: u64,
    token: u64,
    key: delay_queue::Key,
}

/// An ordered list of elements that expire after a timeout.
///
/// Use `poll_expired` to extract elements and advance the timers, and `iter` to look at the
/// elements in insertion order.
pub struct ExpiroSet<T> {
    vmap: Vec<Entry<T>>,
    queue: DelayQueue<u64>,
    /// How many items the queue holds. Some can be of elements that are no longer in the list.
    delayed: usize,
    next_token: u64,
    /// The queue keeps track of the items with this token and those after it: none was handed out
    /// since they were put in.
    settled_from: u64,
}

/// An element as it stands in the list.
pub struct Element<T> {
    pub value: T,
    /// The timeout in milliseconds that it was given last.
    pub timeout_ms: u64,
    /// The timer that it waits for. The element expires when polling the timers gives this one.
    pub timer: u64,
}

/// What polling for expired elements gives.
pub enum Expiry<T> {
    /// No element has expired yet.
    Pending,
    /// There are currently no elements, and nothing is waited for.
    Empty,
    /// This element has expired.
    Expired(T),
    /// The timer failed, for good if it was shut down.
    Failed { shutdown: bool },
}

impl<T> Expiry<T> {
    /// This is what the answer of the timers comes to, given the elements that wait for them.
    pub open spec fn tells(self, polled: DelayPoll, elements: Seq<Element<T>>) -> bool {
        match polled {
            DelayPoll::Pending => self is Pending,
            DelayPoll::Empty => self is Empty,
            DelayPoll::Expired(timer) => exists|i: int|
                #[trigger] has_timer(elements, timer, i) && self == Expiry::Expired(
                    elements[i].value,
                ),
            DelayPoll::Failed { shutdown } => self == (Expiry::<T>::Failed { shutdown }),
        }
    }
}

// === The list ===

/// An item with this timer waits in the queue, for this many milliseconds.
pub open spec fn is_queued(queue: DelayQueue<u64>, timer: u64, timeout_ms: u64) -> bool {
    exists|key: delay_queue::Key| #[trigger]
        external::delay_queue_items(queue).dom().contains(key) && external::delay_queue_items(
            queue,
        )[key] == (timer, timeout_ms)
}

/// The element at `i` waits for this timer.
pub open spec fn has_timer<T>(elements: Seq<Element<T>>, timer: u64, i: int) -> bool {
    0 <= i < elements.len() && elements[i].timer == timer
}

/// No element waits for this timer.
pub open spec fn no_timer<T>(elements: Seq<Element<T>>, timer: u64) -> bool {
    forall|j: int| 0 <= j < elements.len() ==> (#[trigger] elements[j]).timer != timer
}

/// `i` is the position of the first element that equals `value`.
pub open spec fn first_equal<T: PartialEq>(elements: Seq<Element<T>>, value: T, i: int) -> bool {
    &&& 0 <= i < elements.len()
    &&& elements[i].value.eq_spec(&value)
    &&& forall|j: int| 0 <= j < i ==> !(#[trigger] elements[j]).value.eq_spec(&value)
}

/// No element equals `value`.
pub open spec fn none_equal<T: PartialEq>(elements: Seq<Element<T>>, value: T) -> bool {
    forall|j: int| 0 <= j < elements.len() ==> !(#[trigger] elements[j]).value.eq_spec(&value)
}

/// The first element that equals `value`, if there is one, has another timeout. It waits for the
/// timer that it waited for, or for one that no element had; the others wait for theirs.
pub open spec fn reset_to<T: PartialEq>(
    before: Seq<Element<T>>,
    value: T,
    timeout_ms: u64,
    after: Seq<Element<T>>,
) -> bool {
    if none_equal(before, value) {
        after == before
    } else {
        exists|i: int| #[trigger]
            first_equal(before, value, i) && {
                let timer = after[i].timer;
                &&& after == before.update(i, Element { timeout_ms, timer, ..before[i] })
                &&& timer == before[i].timer || no_timer(before, timer)
            }
    }
}

/// Something that happens to a list of elements.
pub enum Change<T> {
    /// This value is added, with a timeout and a timer.
    Insert(T, u64, u64),
    /// The first element that equals this value is removed, if there is one.
    Remove(T),
    /// The first element that equals this value is given this timeout and this timer, if there is
    /// one.
    Reset(T, u64, u64),
    /// The element at this position expires, if there is one.
    Expire(nat),
}

impl<T: PartialEq> Change<T> {
    /// The elements after the change.
    pub open spec fn applied(self, elements: Seq<Element<T>>) -> Seq<Element<T>> {
        match self {
            Change::Insert(value, timeout_ms, timer) => elements.push(
                Element { value, timeout_ms, timer },
            ),
            Change::Remove(value) => if none_equal(elements, value) {
                elements
            } else {
                elements.remove(choose|i: int| first_equal(elements, value, i))
            },
            Change::Reset(value, timeout_ms, timer) => if none_equal(elements, value) {
                elements
            } else {
                let i = choose|i: int| first_equal(elements, value, i);
                elements.update(i, Element { timeout_ms, timer, ..elements[i] })
            },
            Change::Expire(i) => if i < elements.len() {
                elements.remove(i as int)
            } else {
                elements
            },
        }
    }
}

/// The elements after these changes to an empty list, one after the other.
pub open spec fn elements_after<T: PartialEq>(changes: Seq<Change<T>>) -> Seq<Element<T>>
    decreases changes.len(),
{
    if changes.len() == 0 {
        Seq::empty()
    } else {
        changes.last().applied(elements_after(changes.drop_last()))
    }
}

/// Which of the changes inserted each of the elements.
pub open spec fn inserted_by<T: PartialEq>(changes: Seq<Change<T>>) -> Seq<int>
    decreases changes.len(),
{
    if changes.len() == 0 {
        Seq::empty()
    } else {
        let elements = elements_after(changes.drop_last());
        let inserted = inserted_by(changes.drop_last());
        match changes.last() {
            Change::Insert(_, _, _) => inserted.push(changes.len() - 1),
            Change::Remove(value) => if none_equal(elements, value) {
                inserted
            } else {
                inserted.remove(choose|i: int| first_equal(elements, value, i))
            },
            Change::Reset(_, _, _) => inserted,
            Change::Expire(i) => if i < elements.len() {
                inserted.remove(i as int)
            } else {
                inserted
            },
        }
    }
}

/// If some element equals the value, there is a first one.
proof fn first_equal_exists<T: PartialEq>(elements: Seq<Element<T>>, value: T)
    requires
        !none_equal(elements, value),
    ensures
        exists|i: int| first_equal(elements, value, i),
    decreases elements.len(),
{
    let rest = elements.drop_last();
    if none_equal(rest, value) {
        let last = elements.len() - 1;
        assert forall|j: int| 0 <= j < last implies !(#[trigger] elements[j]).value.eq_spec(
            &value,
        ) by {
            assert(rest[j] == elements[j]);
        }
        assert(first_equal(elements, value, last));
    } else {
        first_equal_exists(rest, value);
        let i = choose|i: int| first_equal(rest, value, i);
        assert forall|j: int| 0 <= j < i implies !(#[trigger] elements[j]).value.eq_spec(&value) by {
            assert(rest[j] == elements[j]);
        }
        assert(first_equal(elements, value, i));
    }
}

/// The first element that equals the value stands in one place.
proof fn first_equal_is_unique<T: PartialEq>(elements: Seq<Element<T>>, value: T, i: int, j: int)
    requires
        first_equal(elements, value, i),
        first_equal(elements, value, j),
    ensures
        i == j,
{
    if i < j {
        assert(!elements[i].value.eq_spec(&value));
    } else if j < i {
        assert(!elements[j].value.eq_spec(&value));
    }
}

/// The elements stay in insertion order, whatever is inserted, removed, reset and expires: each was
/// inserted by one change, and those changes came one after the other.
pub proof fn elements_stay_in_insertion_order<T: PartialEq>(changes: Seq<Change<T>>)
    ensures
        ({
            let elements = elements_after(changes);
            let inserted = inserted_by(changes);
            &&& inserted.len() == elements.len()
            &&& forall|i: int, j: int|
                0 <= i < j < inserted.len() ==> #[trigger] inserted[i] < #[trigger] inserted[j]
            &&& forall|i: int|
                0 <= i < inserted.len() ==> {
                    &&& 0 <= #[trigger] inserted[i] < changes.len()
                    &&& changes[inserted[i]] matches Change::Insert(value, _, _)
                    &&& value == elements[i].value
                }
        }),
    decreases changes.len(),
{
    if changes.len() > 0 {
        let rest = changes.drop_last();
        elements_stay_in_insertion_order(rest);
        let elements = elements_after(rest);
        let inserted = inserted_by(rest);
        assert forall|i: int| 0 <= i < inserted.len() implies changes[#[trigger] inserted[i]]
            == rest[inserted[i]] by {}
        match changes.last() {
            Change::Remove(value) => {
                if !none_equal(elements, value) {
                    first_equal_exists(elements, value);
                }
            },
            Change::Reset(value, _, _) => {
                if !none_equal(elements, value) {
                    first_equal_exists(elements, value);
                }
            },
            _ => {},
        }
    }
}

/// Removing a value takes out the first element that equals it, and no other. If none does, nothing
/// changes.
pub proof fn the_first_equal_element_is_removed<T: PartialEq>(elements: Seq<Element<T>>, value: T)
    ensures
        ({
            let after = Change::Remove(value).applied(elements);
            ||| after == elements && forall|j: int|
                0 <= j < elements.len() ==> !(#[trigger] elements[j]).value.eq_spec(&value)
            ||| exists|i: int|
                {
                    &&& 0 <= i < elements.len()
                    &&& (#[trigger] elements[i]).value.eq_spec(&value)
                    &&& forall|j: int|
                        0 <= j < i ==> !(#[trigger] elements[j]).value.eq_spec(&value)
                    &&& after == elements.remove(i)
                }
        }),
{
    if !none_equal(elements, value) {
        first_equal_exists(elements, value);
        let i = choose|i: int| first_equal(elements, value, i);
        assert(elements[i].value.eq_spec(&value));
    }
}

/// A value that is inserted comes last, with the timeout that it was given, and the others stay.
pub proof fn an_inserted_value_comes_last<T: PartialEq>(
    elements: Seq<Element<T>>,
    value: T,
    timeout_ms: u64,
    timer: u64,
)
    ensures
        ({
            let after = Change::Insert(value, timeout_ms, timer).applied(elements);
            &&& after.len() == elements.len() + 1
            &&& after.last().value == value
            &&& after.last().timeout_ms == timeout_ms
            &&& forall|i: int| 0 <= i < elements.len() ==> after[i] == #[trigger] elements[i]
        }),
{
}

/// Giving a value another timeout gives it to the first element that equals the value, and to no
/// other. Nothing else of the list changes but which timer that element waits for.
pub proof fn the_first_equal_element_is_reset<T: PartialEq>(
    before: Seq<Element<T>>,
    value: T,
    timeout_ms: u64,
    after: Seq<Element<T>>,
)
    requires
        reset_to(before, value, timeout_ms, after),
    ensures
        after.len() == before.len(),
        ({
            ||| after == before && forall|j: int|
                0 <= j < before.len() ==> !(#[trigger] before[j]).value.eq_spec(&value)
            ||| exists|i: int|
                {
                    &&& 0 <= i < before.len()
                    &&& (#[trigger] before[i]).value.eq_spec(&value)
                    &&& forall|j: int| 0 <= j < i ==> !(#[trigger] before[j]).value.eq_spec(&value)
                    &&& after[i].value == before[i].value
                    &&& after[i].timeout_ms == timeout_ms
                    &&& forall|j: int|
                        0 <= j < before.len() && j != i ==> after[j] == #[trigger] before[j]
                }
        }),
{
    if !none_equal(before, value) {
        let i = choose|i: int| #[trigger]
            first_equal(before, value, i) && {
                let timer = after[i].timer;
                &&& after == before.update(i, Element { timeout_ms, timer, ..before[i] })
                &&& timer == before[i].timer || no_timer(before, timer)
            };
        assert(before[i].value.eq_spec(&value));
    }
}

/// What the timers answer is what is told, and of an expired timer, the element that waits for it.
pub proof fn an_answer_is_told_as_it_is<T>(
    expiry: Expiry<T>,
    polled: DelayPoll,
    elements: Seq<Element<T>>,
)
    requires
        expiry.tells(polled, elements),
    ensures
        expiry is Pending <==> polled is Pending,
        expiry is Empty <==> polled is Empty,
        expiry is Expired <==> polled is Expired,
        expiry matches Expiry::Failed { shutdown } ==> polled == (DelayPoll::Failed { shutdown }),
        expiry matches Expiry::Expired(value) ==> exists|i: int|
            {
                &&& 0 <= i < elements.len()
                &&& polled == DelayPoll::Expired((#[trigger] elements[i]).timer)
                &&& value == elements[i].value
            },
{
    if polled is Expired {
        let i = choose|i: int| #[trigger]
            has_timer(elements, polled->Expired_0, i) && expiry == Expiry::Expired(
                elements[i].value,
            );
        assert(elements[i].timer == polled->Expired_0);
    }
}

// === The set ===

impl<T> View for ExpiroSet<T> {
    type V = Seq<Element<T>>;

    /// The elements in insertion order.
    closed spec fn view(&self) -> Seq<Element<T>> {
        Seq::new(
            self.vmap@.len(),
            |i: int|
                Element {
                    value: self.vmap@[i].value,
                    timeout_ms: self.vmap@[i].timeout_ms,
                    timer: self.vmap@[i].token,
                },
        )
    }
}

impl<T> ExpiroSet<T> {
    /// Each element of the list has an item of its own in the delay queue.
    pub closed spec fn wf(self) -> bool {
        &&& self.agrees(external::delay_queue_items(self.queue))
        &&& self.idle() ==> self.delayed == 0
        &&& forall|i: int|
            0 <= i < self.vmap@.len() && (#[trigger] self.vmap@[i]).token >= self.settled_from
                ==> external::delay_queue_settled(self.queue).contains(self.vmap@[i].key)
    }

    /// Each element of the list has an item of its own in a delay queue with these items.
    spec fn agrees(self, items: Map<delay_queue::Key, (u64, u64)>) -> bool {
        &&& items.dom().finite()
        &&& items.len() == self.delayed <= MAX_DELAYED
        &&& self.settled_from <= self.next_token
        &&& forall|key: delay_queue::Key| #[trigger]
            items.contains_key(key) ==> items[key].0 < self.next_token
        &&& forall|a: delay_queue::Key, b: delay_queue::Key|
            #![trigger items.contains_key(a), items.contains_key(b)]
            items.contains_key(a) && items.contains_key(b) && items[a].0 == items[b].0 ==> a == b
        &&& forall|i: int|
            0 <= i < self.vmap@.len() ==> {
                &&& items.contains_key((#[trigger] self.vmap@[i]).key)
                &&& items[self.vmap@[i].key] == (self.vmap@[i].token, self.vmap@[i].timeout_ms)
            }
        &&& forall|i: int, j: int|
            0 <= i < j < self.vmap@.len() ==> (#[trigger] self.vmap@[i]).token != (
            #[trigger] self.vmap@[j]).token
    }

    /// The delay queue had these items before it handed out `token` from under `key`.
    spec fn handed_out(
        self,
        token: u64,
        items: Map<delay_queue::Key, (u64, u64)>,
        key: delay_queue::Key,
    ) -> bool {
        &&& self.agrees(items)
        &&& items.contains_key(key)
        &&& items[key].0 == token
        &&& external::delay_queue_items(self.queue) == items.remove(key)
        &&& self.idle() ==> self.delayed == 1
    }

    /// Nothing is waited for. That is so as long as nothing was inserted since the set was made, or
    /// since it was found empty.
    pub closed spec fn idle(self) -> bool {
        external::delay_queue_idle(self.queue)
    }

    /// What polling the timers gave so far, oldest first.
    pub closed spec fn polls(self) -> Seq<DelayPoll> {
        external::delay_queue_polls(self.queue)
    }

    /// The queue in which the elements wait.
    pub closed spec fn waits_in(self) -> DelayQueue<u64> {
        self.queue
    }

    /// Each element waits in the queue under its timer, for as long as its timeout says.
    pub proof fn elements_wait_for_their_timeouts(self, i: int)
        requires
            self.wf(),
            0 <= i < self@.len(),
        ensures
            is_queued(self.waits_in(), self@[i].timer, self@[i].timeout_ms),
    {
        let items = external::delay_queue_items(self.queue);
        assert(items.contains_key(self.vmap@[i].key));
        assert(items.dom().contains(self.vmap@[i].key));
    }

    /// How many times another element can be inserted, or given another timeout, at least.
    pub closed spec fn room(self) -> nat {
        if self.delayed >= MAX_DELAYED || self.next_token == u64::MAX {
            0
        } else if MAX_DELAYED - self.delayed <= u64::MAX - self.next_token {
            (MAX_DELAYED - self.delayed) as nat
        } else {
            (u64::MAX - self.next_token) as nat
        }
    }

    /// Another element can be inserted, or given another timeout.
    pub open spec fn has_room(self) -> bool {
        self.room() > 0
    }

    /// Each element waits for a timer of its own.
    pub proof fn timers_are_distinct(self)
        requires
            self.wf(),
        ensures
            forall|i: int, j: int|
                0 <= i < j < self@.len() ==> (#[trigger] self@[i]).timer != (
                #[trigger] self@[j]).timer,
    {
    }

    /// Creates a new ExpiroSet.
    pub fn new() -> (set: Self)
        ensures
            set.wf(),
            set.room() == 0x3fff_ffff,
            set.idle(),
            set.polls() == Seq::<DelayPoll>::empty(),
            set@ == Seq::<Element<T>>::empty(),
    {
        ExpiroSet {
            vmap: Vec::new(),
            queue: external::delay_queue_new(),
            delayed: 0,
            next_token: 0,
            settled_from: 0,
        }
    }

    /// Checks if another element can be inserted, or given another timeout.
    pub fn can_insert(&self) -> (room: bool)
        ensures
            room == self.has_room(),
    {
        self.delayed < MAX_DELAYED && self.next_token < u64::MAX
    }

    /// Puts a new item into the delay queue, which no element of the list has yet. Returns its
    /// token and its key.
    fn delay(&mut self, timeout_ms: u64) -> (placed: (u64, delay_queue::Key))
        requires
            old(self).wf(),
            old(self).has_room(),
            timeout_ms <= MAX_DELAY_MS,
        ensures
            final(self).wf(),
            final(self).vmap == old(self).vmap,
            final(self).next_token == old(self).next_token + 1,
            final(self).settled_from == old(self).settled_from,
            final(self).room() == old(self).room() - 1,
            final(self).polls() == old(self).polls(),
            !final(self).idle(),
            placed.0 == old(self).next_token,
            !external::delay_queue_items(old(self).queue).contains_key(placed.1),
            external::delay_queue_items(final(self).queue) == external::delay_queue_items(
                old(self).queue,
            ).insert(placed.1, (placed.0, timeout_ms)),
            external::delay_queue_settled(final(self).queue) == external::delay_queue_settled(
                old(self).queue,
            ).insert(placed.1),
    {
        let token: u64 = self.next_token;
        let key = external::delay_queue_insert(&mut self.queue, token, timeout_ms);
        self.next_token = token + 1;
        self.delayed = self.delayed + 1;
        (token, key)
    }

    /// Adds the value to the back of the list with the given timeout in milliseconds.
    pub fn insert(&mut self, value: T, timeout_ms: u64)
        requires
            old(self).wf(),
            old(self).has_room(),
            timeout_ms <= MAX_DELAY_MS,
        ensures
            final(self).wf(),
            final(self)@ == old(self)@.push(
                Element { value, timeout_ms, timer: final(self)@.last().timer },
            ),
            no_timer(old(self)@, final(self)@.last().timer),
            final(self).polls() == old(self).polls(),
            final(self).room() == old(self).room() - 1,
            !final(self).idle(),
    {
        let (token, key) = self.delay(timeout_ms);
        self.vmap.push(Entry { value: value, timeout_ms: timeout_ms, token: token, key: key });
        proof {
            assert forall|j: int| 0 <= j < old(self)@.len() implies (#[trigger] old(
                self,
            )@[j]).timer != token by {
                assert(external::delay_queue_items(old(self).queue).contains_key(
                    old(self).vmap@[j].key,
                ));
            }
            assert(self@ =~= old(self)@.push(Element { value, timeout_ms, timer: token }));
        }
    }

    /// The elements in insertion order.
    pub fn iter(&self) -> (elements: Vec<&T>)
        ensures
            elements@.len() == self@.len(),
            forall|i: int| 0 <= i < self@.len() ==> *(#[trigger] elements@[i]) == self@[i].value,
    {
        let mut elements: Vec<&T> = Vec::new();
        for i in 0..self.vmap.len()
            invariant
                elements@.len() == i,
                forall|j: int| 0 <= j < i ==> *(#[trigger] elements@[j]) == self.vmap@[j].value,
        {
            elements.push(&self.vmap[i].value);
        }
        elements
    }

    /// The position of the element with this token.
    fn token_pos(&self, token: u64) -> (position: Option<usize>)
        ensures
            match position {
                Some(i) => i < self.vmap@.len() && self.vmap@[i as int].token == token,
                None => forall|i: int|
                    0 <= i < self.vmap@.len() ==> (#[trigger] self.vmap@[i]).token != token,
            },
    {
        for i in 0..self.vmap.len()
            invariant
                forall|j: int| 0 <= j < i ==> (#[trigger] self.vmap@[j]).token != token,
        {
            if self.vmap[i].token == token {
                return Some(i);
            }
        }
        None
    }

    /// Does to the list what polling did to the delay queue: an element whose item the queue has
    /// handed out is taken out of the list too. None if the item was that of an element which is
    /// no longer in the list.
    fn settle(&mut self, polled: DelayPoll) -> (expiry: Option<Expiry<T>>)
        requires
            match polled {
                DelayPoll::Expired(token) => exists|
                    items: Map<delay_queue::Key, (u64, u64)>,
                    key: delay_queue::Key,
                | #[trigger] old(self).handed_out(token, items, key),
                _ => old(self).wf(),
            },
        ensures
            final(self).wf(),
            final(self).queue == old(self).queue,
            final(self).room() >= old(self).room(),
            match expiry {
                Some(e) => {
                    &&& e.tells(polled, old(self)@)
                    &&& polled matches DelayPoll::Expired(timer) ==> exists|i: int| #[trigger]
                        has_timer(old(self)@, timer, i) && e == Expiry::Expired(old(self)@[i].value)
                            && final(self)@ == old(self)@.remove(i)
                    &&& !(polled is Expired) ==> final(self)@ == old(self)@
                },
                None => {
                    &&& polled matches DelayPoll::Expired(timer)
                    &&& no_timer(old(self)@, timer)
                    &&& final(self)@ == old(self)@
                },
            },
    {
        match polled {
            DelayPoll::Pending => Some(Expiry::Pending),
            DelayPoll::Empty => Some(Expiry::Empty),
            DelayPoll::Failed { shutdown } => Some(Expiry::Failed { shutdown: shutdown }),
            DelayPoll::Expired(token) => {
                let ghost (items, key) = choose|
                    items: Map<delay_queue::Key, (u64, u64)>,
                    key: delay_queue::Key,
                | #[trigger] self.handed_out(token, items, key);
                assert(items.contains_key(key) && items.remove(key).dom().len() == items.dom().len()
                    - 1);
                self.delayed = self.delayed - 1;
                self.settled_from = self.next_token;
                proof {
                    assert forall|i: int| 0 <= i < self.vmap@.len() implies (
                    #[trigger] self.vmap@[i]).token < self.next_token by {
                        assert(items.contains_key(self.vmap@[i].key));
                    }
                }
                match self.token_pos(token) {
                    Some(i) => {
                        let ghost before = self.vmap@;
                        let entry = self.vmap.remove(i);
                        proof {
                            assert(items.contains_key(before[i as int].key));
                            assert(before[i as int].key == key);
                            assert forall|j: int| 0 <= j < self.vmap@.len() implies {
                                &&& items.remove(key).contains_key((#[trigger] self.vmap@[j]).key)
                                &&& items.remove(key)[self.vmap@[j].key] == (
                                    self.vmap@[j].token,
                                    self.vmap@[j].timeout_ms,
                                )
                            } by {
                                let k = if j < i {
                                    j
                                } else {
                                    j + 1
                                };
                                assert(self.vmap@[j] == before[k]);
                                if k < i {
                                    assert(before[k].token != before[i as int].token);
                                } else {
                                    assert(before[i as int].token != before[k].token);
                                }
                            }
                            assert(self@ =~= old(self)@.remove(i as int));
                            assert(has_timer(old(self)@, token, i as int));
                        }
                        Some(Expiry::Expired(entry.value))
                    },
                    None => {
                        assert(self@ =~= old(self)@);
                        assert forall|j: int| 0 <= j < self.vmap@.len() implies (
                        #[trigger] self.vmap@[j]).key != key by {
                            assert(items[self.vmap@[j].key].0 != token);
                        }
                        None
                    },
                }
            },
        }
    }

    /// Tries to pull an expired element out of the delay queue, registering the wakeup when
    /// needed. Items of elements that are no longer in the list are passed over.
    pub fn poll_expired(&mut self, cx: &mut Context<'_>) -> (expiry: Expiry<T>)
        requires
            old(self).wf(),
        ensures
            final(self).wf(),
            final(self).room() >= old(self).room(),
            final(self).polls().len() > old(self).polls().len(),
            final(self).polls().take(old(self).polls().len() as int) == old(self).polls(),
            forall|i: int|
                old(self).polls().len() <= i < final(self).polls().len() - 1 ==> {
                    &&& #[trigger] final(self).polls()[i] matches DelayPoll::Expired(timer)
                    &&& no_timer(old(self)@, timer)
                },
            expiry.tells(final(self).polls().last(), old(self)@),
            expiry matches Expiry::Expired(value) ==> exists|i: int|
                {
                    &&& 0 <= i < old(self)@.len()
                    &&& value == (#[trigger] old(self)@[i]).value
                    &&& final(self).polls().last() == DelayPoll::Expired(old(self)@[i].timer)
                    &&& final(self)@ == old(self)@.remove(i)
                },
            !(expiry is Expired) ==> final(self)@ == old(self)@,
            expiry is Empty ==> final(self)@.len() == 0,
            old(self).idle() ==> expiry is Empty,
            expiry is Empty ==> final(self).idle(),
            expiry is Pending ==> !final(self).idle(),
    {
        let ghost first = self.polls();
        loop
            invariant
                self.wf(),
                first == old(self).polls(),
                self.room() >= old(self).room(),
                self@ == old(self)@,
                self.polls().len() >= first.len(),
                self.polls().take(first.len() as int) == first,
                forall|i: int|
                    first.len() <= i < self.polls().len() ==> {
                        &&& #[trigger] self.polls()[i] matches DelayPoll::Expired(timer)
                        &&& no_timer(old(self)@, timer)
                    },
                old(self).idle() ==> self.idle() && self.polls() == first,
            decreases self.delayed,
        {
            let ghost before = *self;
            let polled = external::delay_queue_poll(&mut self.queue, cx);
            proof {
                let items = external::delay_queue_items(before.queue);
                assert(self@ =~= before@);
                assert(self.polls().take(first.len() as int) =~= first);
                if let DelayPoll::Expired(token) = polled {
                    let key = choose|key: delay_queue::Key| #[trigger]
                        items.contains_key(key) && items[key].0 == token
                            && external::delay_queue_items(self.queue) == items.remove(key);
                    assert(items.remove(key).dom().len() == items.dom().len() - 1);
                    assert(self.handed_out(token, items, key));
                } else {
                    assert(self.idle() ==> items.dom().len() == 0);
                }
            }
            if let Some(expiry) = self.settle(polled) {
                proof {
                    if expiry is Empty {
                        assert(self.delayed == 0);
                        if self.vmap@.len() > 0 {
                            assert(external::delay_queue_items(self.queue).dom().contains(
                                self.vmap@[0].key,
                            ));
                        }
                    }
                }
                return expiry;
            }
        }
    }
}

impl<T: PartialEq> ExpiroSet<T> {
    /// Returns the position of value in the list if it is found.
    fn get_pos(&self, value: &T) -> (position: Option<usize>)
        requires
            T::obeys_eq_spec(),
        ensures
            match position {
                Some(i) => first_equal(self@, *value, i as int),
                None => none_equal(self@, *value),
            },
    {
        for i in 0..self.vmap.len()
            invariant
                T::obeys_eq_spec(),
                forall|j: int| 0 <= j < i ==> !(#[trigger] self@[j]).value.eq_spec(value),
        {
            assert(self@[i as int].value == self.vmap@[i as int].value);
            if self.vmap[i].value == *value {
                return Some(i);
            }
        }
        None
    }

    /// Checks if the value is in the list.
    pub fn contains(&self, value: &T) -> (present: bool)
        requires
            T::obeys_eq_spec(),
        ensures
            present == !none_equal(self@, *value),
    {
        self.get_pos(value).is_some()
    }

    /// Removes the value from the list. Returns whether the value was present.
    pub fn remove(&mut self, value: &T) -> (present: bool)
        requires
            old(self).wf(),
            T::obeys_eq_spec(),
        ensures
            final(self).wf(),
            final(self).room() >= old(self).room(),
            final(self).idle() == old(self).idle(),
            final(self).polls() == old(self).polls(),
            present == !none_equal(old(self)@, *value),
            final(self)@ == Change::Remove(*value).applied(old(self)@),
            present ==> exists|i: int| #[trigger]
                first_equal(old(self)@, *value, i) && final(self)@ == old(self)@.remove(i),
    {
        match self.get_pos(value) {
            Some(i) => {
                let _ = self.remove_at(i);
                proof {
                    let at = choose|at: int| first_equal(old(self)@, *value, at);
                    first_equal_is_unique(old(self)@, *value, i as int, at);
                }
                true
            },
            None => false,
        }
    }

    /// Sets the timeout of the value in milliseconds. Returns whether it was successful, that is,
    /// whether the value is present.
    pub fn reset(&mut self, value: &T, timeout_ms: u64) -> (present: bool)
        requires
            old(self).wf(),
            T::obeys_eq_spec(),
            old(self).has_room() || none_equal(old(self)@, *value),
            timeout_ms <= MAX_DELAY_MS,
        ensures
            final(self).wf(),
            final(self).idle() == old(self).idle(),
            final(self).polls() == old(self).polls(),
            final(self).room() + 1 >= old(self).room(),
            present == !none_equal(old(self)@, *value),
            reset_to(old(self)@, *value, timeout_ms, final(self)@),
            exists|timer: u64|
                final(self)@ == #[trigger] Change::Reset(*value, timeout_ms, timer).applied(
                    old(self)@,
                ),
    {
        match self.get_pos(value) {
            Some(i) => {
                self.reset_at(i, timeout_ms);
                proof {
                    let timer = self@[i as int].timer;
                    let at = choose|at: int| first_equal(old(self)@, *value, at);
                    first_equal_is_unique(old(self)@, *value, i as int, at);
                    assert(self@ == Change::Reset(*value, timeout_ms, timer).applied(old(self)@));
                }
                true
            },
            None => {
                assert(self@ == Change::Reset(*value, timeout_ms, 0).applied(old(self)@));
                false
            },
        }
    }
}

impl<T> ExpiroSet<T> {
    /// Removes the element at this position, and hands its value out.
    pub fn remove_at(&mut self, i: usize) -> (value: T)
        requires
            old(self).wf(),
            i < old(self)@.len(),
        ensures
            final(self).wf(),
            final(self).room() >= old(self).room(),
            final(self).idle() == old(self).idle(),
            final(self).polls() == old(self).polls(),
            value == old(self)@[i as int].value,
            final(self)@ == old(self)@.remove(i as int),
    {
        let ghost items = external::delay_queue_items(self.queue);
        let entry = self.vmap.remove(i);
        if entry.token >= self.settled_from {
            let _ = external::delay_queue_remove(&mut self.queue, &entry.key);
            self.delayed = self.delayed - 1;
        }
        // Otherwise the item is passed over once its time has come
        proof {
            let before = old(self).vmap@;
            assert(items.contains_key(before[i as int].key));
            assert(items.remove(entry.key).dom().len() == items.dom().len() - 1);
            assert forall|j: int| 0 <= j < self.vmap@.len() implies (
            #[trigger] self.vmap@[j]).key != entry.key && items.contains_key(self.vmap@[j].key)
                && items[self.vmap@[j].key] == (self.vmap@[j].token, self.vmap@[j].timeout_ms) by {
                let k = if j < i {
                    j
                } else {
                    j + 1
                };
                assert(self.vmap@[j] == before[k]);
                if k < i {
                    assert(before[k].token != before[i as int].token);
                } else {
                    assert(before[i as int].token != before[k].token);
                }
            }
            assert forall|j: int|
                0 <= j < self.vmap@.len() && (#[trigger] self.vmap@[j]).token
                    >= self.settled_from implies external::delay_queue_settled(
                self.queue,
            ).contains(self.vmap@[j].key) by {
                let k = if j < i {
                    j
                } else {
                    j + 1
                };
                assert(self.vmap@[j] == before[k]);
            }
            assert(self@ =~= old(self)@.remove(i as int));
        }
        entry.value
    }

    /// Sets the timeout of the element at this position in milliseconds.
    pub fn reset_at(&mut self, i: usize, timeout_ms: u64)
        requires
            old(self).wf(),
            old(self).has_room(),
            i < old(self)@.len(),
            timeout_ms <= MAX_DELAY_MS,
        ensures
            final(self).wf(),
            final(self).idle() == old(self).idle(),
            final(self).polls() == old(self).polls(),
            final(self).room() + 1 >= old(self).room(),
            ({
                let timer = final(self)@[i as int].timer;
                &&& final(self)@ == old(self)@.update(
                    i as int,
                    Element { timeout_ms, timer, ..old(self)@[i as int] },
                )
                &&& timer == old(self)@[i as int].timer || no_timer(old(self)@, timer)
            }),
    {
        let ghost items = external::delay_queue_items(self.queue);
        let ghost entry = self.vmap@[i as int];
        assert(items.contains_key(entry.key));
        assert(!self.idle()) by {
            assert(items.dom().contains(entry.key));
        }
        if self.vmap[i].token >= self.settled_from && self.vmap[i].timeout_ms > 0 {
            external::delay_queue_reset(&mut self.queue, &self.vmap[i].key, timeout_ms);
            self.vmap[i].timeout_ms = timeout_ms;
            proof {
                assert(external::delay_queue_items(self.queue).dom() =~= items.dom());
                self.one_changed(*old(self), i as int);
            }
        } else {
            // The queue takes the element for expired, or may have lost track of it. So it gets a
            // new item, and the old one is passed over once its time has come.
            let (token, key) = self.delay(timeout_ms);
            self.vmap[i].token = token;
            self.vmap[i].key = key;
            self.vmap[i].timeout_ms = timeout_ms;
            proof {
                self.one_changed(*old(self), i as int);
            }
        }
        proof {
            let timer = self@[i as int].timer;
            assert(self@ =~= old(self)@.update(
                i as int,
                Element { timeout_ms, timer, ..old(self)@[i as int] },
            ));
            if timer != entry.token {
                assert forall|j: int| 0 <= j < old(self)@.len() implies (#[trigger] old(
                    self,
                )@[j]).timer != timer by {
                    assert(items.contains_key(old(self).vmap@[j].key));
                }
            }
        }
    }

    /// The same list with each value made into another, the timers left running.
    pub fn convert<U, F: Fn(T) -> U>(self, f: F) -> (set: ExpiroSet<U>)
        requires
            self.wf(),
            forall|value: T| #[trigger] f.requires((value,)),
        ensures
            set.wf(),
            set.room() == self.room(),
            set.idle() == self.idle(),
            set.polls() == self.polls(),
            set@.len() == self@.len(),
            forall|i: int|
                0 <= i < self@.len() ==> {
                    &&& f.ensures((self@[i].value,), (#[trigger] set@[i]).value)
                    &&& set@[i].timeout_ms == self@[i].timeout_ms
                    &&& set@[i].timer == self@[i].timer
                },
    {
        let ghost all = self.vmap@;
        let mut vmap: Vec<Entry<U>> = Vec::new();
        for entry in iter: self.vmap
            invariant
                iter.seq() == all,
                forall|value: T| #[trigger] f.requires((value,)),
                vmap@.len() == iter.index(),
                forall|i: int|
                    0 <= i < vmap@.len() ==> {
                        &&& f.ensures((all[i].value,), (#[trigger] vmap@[i]).value)
                        &&& vmap@[i].timeout_ms == all[i].timeout_ms
                        &&& vmap@[i].token == all[i].token
                        &&& vmap@[i].key == all[i].key
                    },
        {
            assert(entry == all[iter.index() as int]);
            let value = f(entry.value);
            vmap.push(
                Entry {
                    value: value,
                    timeout_ms: entry.timeout_ms,
                    token: entry.token,
                    key: entry.key,
                },
            );
        }
        let set = ExpiroSet {
            vmap: vmap,
            queue: self.queue,
            delayed: self.delayed,
            next_token: self.next_token,
            settled_from: self.settled_from,
        };
        proof {
            let items = external::delay_queue_items(set.queue);
            assert forall|i: int| 0 <= i < set.vmap@.len() implies {
                &&& items.contains_key((#[trigger] set.vmap@[i]).key)
                &&& items[set.vmap@[i].key] == (set.vmap@[i].token, set.vmap@[i].timeout_ms)
            } by {
                assert(items.contains_key(all[i].key));
            }
            assert forall|i: int, j: int| 0 <= i < j < set.vmap@.len() implies (
            #[trigger] set.vmap@[i]).token != (#[trigger] set.vmap@[j]).token by {
                assert(all[i].token != all[j].token);
            }
            assert forall|i: int|
                0 <= i < set.vmap@.len() && (#[trigger] set.vmap@[i]).token
                    >= set.settled_from implies external::delay_queue_settled(set.queue).contains(
                set.vmap@[i].key,
            ) by {
                assert(all[i].token >= self.settled_from);
            }
        }
        set
    }

    /// The list with another timeout for the entry at `i`, and the queue with its item under the
    /// same key, or a new item for it, agree.
    proof fn one_changed(self, before: Self, i: int)
        requires
            before.wf(),
            0 <= i < before.vmap@.len(),
            self.vmap@.len() == before.vmap@.len(),
            forall|j: int| 0 <= j < self.vmap@.len() && j != i ==> self.vmap@[j] == before.vmap@[j],
            self.settled_from == before.settled_from,
            self.next_token >= before.next_token,
            !self.idle(),
            ({
                let items = external::delay_queue_items(before.queue);
                let now = external::delay_queue_items(self.queue);
                let entry = self.vmap@[i];
                &&& now == items.insert(entry.key, (entry.token, entry.timeout_ms))
                &&& now.len() == self.delayed <= MAX_DELAYED
                &&& external::delay_queue_settled(before.queue).insert(entry.key).subset_of(
                    external::delay_queue_settled(self.queue),
                )
                &&& {
                    ||| entry.key == before.vmap@[i].key && entry.token == before.vmap@[i].token
                    ||| !items.contains_key(entry.key) && entry.token == before.next_token
                        < self.next_token
                }
            }),
        ensures
            self.wf(),
    {
        let items = external::delay_queue_items(before.queue);
        let now = external::delay_queue_items(self.queue);
        let entry = self.vmap@[i];
        assert forall|j: int| 0 <= j < self.vmap@.len() implies {
            &&& now.contains_key((#[trigger] self.vmap@[j]).key)
            &&& now[self.vmap@[j].key] == (self.vmap@[j].token, self.vmap@[j].timeout_ms)
        } by {
            assert(items.contains_key(before.vmap@[j].key));
            if j < i {
                assert(before.vmap@[j].token != before.vmap@[i].token);
            } else if j > i {
                assert(before.vmap@[i].token != before.vmap@[j].token);
            }
        }
        assert forall|j: int, k: int| 0 <= j < k < self.vmap@.len() implies (
        #[trigger] self.vmap@[j]).token != (#[trigger] self.vmap@[k]).token by {
            assert(items.contains_key(before.vmap@[j].key));
            assert(items.contains_key(before.vmap@[k].key));
            assert(before.vmap@[j].token != before.vmap@[k].token);
        }
        assert(items.contains_key(before.vmap@[i].key));
        assert forall|j: int|
            0 <= j < self.vmap@.len() && (#[trigger] self.vmap@[j]).token
                >= self.settled_from implies external::delay_queue_settled(self.queue).contains(
            self.vmap@[j].key,
        ) by {
            if j != i {
                assert(before.vmap@[j].token >= before.settled_from);
            }
        }
    }
}

} // verus!
