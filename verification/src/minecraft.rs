//! The requests of the attendants, and the handler that passes them on to the server's console.
//!
//! The handler decides; writing to the console, waiting for requests, waking up for expired guards
//! and telling clients belong to whoever runs it.

use std::collections::{HashMap, VecDeque};
use std::task::Context;

use tokio::time::DelayQueue;
use vstd::prelude::*;
use vstd::std_specs::cmp::PartialEqSpec;
use vstd::string::*;

use crate::expiroset;
use crate::expiroset::{Element, Expiry, ExpiroSet};
use crate::external;
use crate::external::{DelayPoll, MAX_DELAY_MS};
use crate::filters::{InputFilter, OurInputFilter, OutputFilter};
use crate::guards;
use crate::guards::Held;
use crate::shared::Kept;
use crate::slang;
use crate::slang::StringExt;
use crate::text;
use crate::util::strip_leading_ascii_hspace;

verus! {

broadcast use vstd::std_specs::hash::group_hash_axioms;

// === Attendant requests ===

/// A command sent by an attendant to the request handler. Durations are in seconds.
pub enum AttendantCommand<S> {
    SendCommand(String),
    AddOutputFilter(OutputFilter),
    StartGuard(OurInputFilter<S>, u64),
    RenewGuard(OurInputFilter<S>, u64),
    /// Send a command and return the lines that match in a single command to prevent queuing
    /// issues.
    GetLine(String, OutputFilter),
}

impl<S> AttendantCommand<S> {
    /// The console command, if any.
    pub open spec fn slash(self) -> Option<Seq<char>> {
        match self {
            AttendantCommand::SendCommand(s) => Some(s@),
            AttendantCommand::GetLine(s, _) => Some(s@),
            _ => None,
        }
    }

    /// Returns a reference to the command string, if any.
    pub fn get_slash(&self) -> (slash: Option<&str>)
        ensures
            match slash {
                Some(s) => self.slash() == Some(s@),
                None => self.slash() is None,
            },
    {
        match self {
            AttendantCommand::SendCommand(s) => Some(s.as_str()),
            AttendantCommand::GetLine(s, _) => Some(s.as_str()),
            _ => None,
        }
    }
}

/// A client's command that can be queued because of guards.
pub struct AttendantRequest<S> {
    /// Signals request completion to the client, because requests can be blocked by input filters.
    pub done: S,
    pub command: AttendantCommand<S>,
    /// Needed for the request to pass its own input filters.
    pub client_id: u32,
}

// === Processing requests ===

/// What becomes of a request.
pub enum Processed<S> {
    /// A guard blocks it. It is kept for later.
    Queued,
    /// It was processed. If there is a line, write it to the console; then signal completion.
    Handled { line: Option<String>, done: S },
}

/// A duration in seconds that can be set on a guard.
pub open spec fn can_be_set(seconds: u64) -> bool {
    seconds * 1000 <= MAX_DELAY_MS
}

impl<S> AttendantCommand<S> {
    /// The output filter that the command adds, if any.
    pub open spec fn output_filter(self) -> Option<OutputFilter> {
        match self {
            AttendantCommand::AddOutputFilter(filter) => Some(filter),
            AttendantCommand::GetLine(_, filter) => Some(filter),
            _ => None,
        }
    }

    /// What processing a command that no guard applies to comes to: `before` and `after` are what
    /// the handler keeps.
    pub open spec fn applies(self, before: Held<S>, after: Held<S>) -> bool {
        match self {
            AttendantCommand::StartGuard(filter, seconds) => {
                let timer = after.guards.last().timer;
                &&& expiroset::no_timer(before.guards, timer)
                &&& after == (Held {
                    guards: before.guards.push(
                        Element { value: filter, timeout_ms: (seconds * 1000) as u64, timer },
                    ),
                    ..before
                })
            },
            AttendantCommand::RenewGuard(filter, seconds) => {
                &&& expiroset::reset_to(
                    before.guards,
                    filter,
                    (seconds * 1000) as u64,
                    after.guards,
                )
                &&& after == (Held { guards: after.guards, ..before })
            },
            _ => after == before,
        }
    }
}

/// The output filters once the command is processed.
pub open spec fn with_output_filter<S>(
    outputs: Seq<OutputFilter>,
    command: AttendantCommand<S>,
) -> Seq<OutputFilter> {
    match command.output_filter() {
        Some(filter) => outputs.push(filter),
        None => outputs,
    }
}

/// The line to write to the console for a command.
pub open spec fn console_line<S>(command: AttendantCommand<S>) -> Option<Seq<char>> {
    match command.slash() {
        Some(slash) => Some(slang::ending_with(slash, "\n"@)),
        None => None,
    }
}

impl<S> Processed<S> {
    /// The request was processed, and this is what is left to do for it.
    pub open spec fn handles(self, request: AttendantRequest<S>) -> bool {
        match self {
            Processed::Queued => false,
            Processed::Handled { line, done } => {
                &&& done == request.done
                &&& match line {
                    Some(l) => console_line(request.command) == Some(l@),
                    None => console_line(request.command) is None,
                }
            },
        }
    }
}

/// What waiting for a guard to expire gives.
pub enum GuardPoll<S> {
    /// No guard has expired yet.
    Pending,
    /// There are currently no guards.
    Empty,
    /// This guard has expired, and the requests that it blocked are unblocked. The client that
    /// asked for it is still to be told.
    Expired(OurInputFilter<S>),
    /// The timer failed, for good if it was shut down.
    Failed { shutdown: bool },
}

impl<S> GuardPoll<S> {
    /// This is what the answer of the guards' timers comes to, given the guards.
    pub open spec fn tells(
        self,
        polled: DelayPoll,
        guards: Seq<Element<OurInputFilter<S>>>,
    ) -> bool {
        match polled {
            DelayPoll::Pending => self is Pending,
            DelayPoll::Empty => self is Empty,
            DelayPoll::Expired(timer) => exists|i: int|
                #[trigger] expiroset::has_timer(guards, timer, i) && self == GuardPoll::Expired(
                    guards[i].value,
                ),
            DelayPoll::Failed { shutdown } => self == (GuardPoll::<S>::Failed { shutdown }),
        }
    }
}

/// What to do next.
pub enum NextEvent<S> {
    /// Process this request, which is no longer blocked.
    Process(AttendantRequest<S>),
    /// Wait for a new request, or for a guard to expire.
    Wait,
}

/// What happened while the handler waited.
pub enum HandlerEvent<S> {
    /// A request came in, or was unblocked.
    Request(AttendantRequest<S>),
    /// No more requests will come in.
    NoMoreRequests,
    /// Something about the guards.
    Guard(GuardPoll<S>),
}

/// What to do about it.
pub enum HandlerAction<S> {
    /// Go on waiting.
    Continue,
    /// If there is a line, write it to the console; then signal completion.
    Complete { line: Option<String>, done: S },
    /// Tell the client that asked for this guard that it has expired.
    TellExpired(OurInputFilter<S>),
    /// Stop.
    Stop,
}

/// Handles input requests.
pub struct RequestHandler<S> {
    /// Active input filters.
    input_filters: ExpiroSet<Kept<InputFilter<S>>>,
    /// The requests blocked by an input filter, under the key of the filter.
    queued_requests: HashMap<u64, Vec<AttendantRequest<S>>>,
    /// Requests that have been unblocked, that should be processed first.
    unblocked_requests: VecDeque<AttendantRequest<S>>,
}

/// The filters that are kept, as guards.
pub open spec fn kept_guards<S>(elements: Seq<Element<Kept<InputFilter<S>>>>) -> Seq<
    Element<OurInputFilter<S>>,
> {
    Seq::new(
        elements.len(),
        |i: int|
            Element {
                value: OurInputFilter(elements[i].value@),
                timeout_ms: elements[i].timeout_ms,
                timer: elements[i].timer,
            },
    )
}

/// Keeps a filter.
fn keep_filter<S>(filter: OurInputFilter<S>) -> (kept: Kept<InputFilter<S>>)
    ensures
        kept@ == filter.0,
{
    Kept::new(filter.0)
}

impl<S> View for RequestHandler<S> {
    type V = Held<S>;

    closed spec fn view(&self) -> Held<S> {
        Held {
            guards: kept_guards(self.input_filters@),
            blocked: self.queued_requests@.map_values(|q: Vec<AttendantRequest<S>>| q@),
            unblocked: self.unblocked_requests@,
        }
    }
}

impl<S> RequestHandler<S> {
    /// The active input filters agree with their timers.
    pub closed spec fn consistent(self) -> bool {
        self.input_filters.wf()
    }

    /// The parts of the handler agree, and no request waits for a guard that is gone.
    pub open spec fn wf(self) -> bool {
        self.consistent() && self@.live()
    }

    /// The queue in which the guards wait.
    pub closed spec fn waits_in(self) -> DelayQueue<u64> {
        self.input_filters.waits_in()
    }

    /// Each guard waits in the queue under its timer, for as long as its timeout says.
    pub proof fn guards_wait_for_their_timeouts(self, i: int)
        requires
            self.wf(),
            0 <= i < self@.guards.len(),
        ensures
            expiroset::is_queued(
                self.waits_in(),
                self@.guards[i].timer,
                self@.guards[i].timeout_ms,
            ),
    {
        self.input_filters.elements_wait_for_their_timeouts(i);
    }

    /// How many times another guard can be started or renewed, at least.
    pub closed spec fn room(self) -> nat {
        self.input_filters.room()
    }

    /// Another guard can be started.
    pub open spec fn has_room(self) -> bool {
        self.room() > 0
    }

    /// No guard is waited for. That is so as long as no guard was started since the handler was
    /// made, or since it was found that there are none.
    pub closed spec fn idle(self) -> bool {
        self.input_filters.idle()
    }

    /// What polling the guards' timers gave so far, oldest first.
    pub closed spec fn polls(self) -> Seq<DelayPoll> {
        self.input_filters.polls()
    }

    /// Each guard waits for a timer of its own.
    pub proof fn timers_are_distinct(self)
        requires
            self.wf(),
        ensures
            forall|i: int, j: int|
                0 <= i < j < self@.guards.len() ==> (#[trigger] self@.guards[i]).timer != (
                #[trigger] self@.guards[j]).timer,
    {
        self.input_filters.timers_are_distinct();
    }

    /// Whether a request leaves the handler without a guard to wait for, given whether it was.
    pub open spec fn idle_after(idle: bool, request: AttendantRequest<S>) -> bool {
        idle && !(request.command is StartGuard)
    }

    /// The request can be processed: a guard that it starts or renews can have that duration, and
    /// there is room for it.
    pub open spec fn accepts(self, request: AttendantRequest<S>) -> bool {
        match request.command {
            AttendantCommand::StartGuard(_, seconds) => self.has_room() && can_be_set(seconds),
            AttendantCommand::RenewGuard(filter, seconds) => {
                self.has_room() && can_be_set(seconds) || expiroset::none_equal(
                    self@.guards,
                    filter,
                )
            },
            _ => true,
        }
    }

    /// What processing a request comes to: `before` and `after` are what the handler keeps,
    /// `outputs_before` and `outputs_after` are the output filters.
    pub open spec fn processes(
        before: Held<S>,
        outputs_before: Seq<OutputFilter>,
        request: AttendantRequest<S>,
        after: Held<S>,
        outputs_after: Seq<OutputFilter>,
        processed: Processed<S>,
    ) -> bool {
        match request.command.slash() {
            None => {
                &&& processed.handles(request)
                &&& request.command.applies(before, after)
                &&& outputs_after == with_output_filter(outputs_before, request.command)
            },
            Some(slash) => exists|counts: Seq<usize>|
                {
                    let refreshed = #[trigger] before.refreshed(counts);
                    let stripped = text::without_leading_hspace(slash);
                    &&& guards::are_counts(before, counts)
                    &&& if guards::passes(refreshed.guards, stripped, request.client_id) {
                        &&& processed.handles(request)
                        &&& after == refreshed
                        &&& outputs_after == with_output_filter(outputs_before, request.command)
                    } else {
                        &&& processed is Queued
                        &&& outputs_after == outputs_before
                        &&& guards::admitted(
                            refreshed,
                            request,
                            stripped,
                            after,
                            None::<AttendantRequest<S>>,
                        )
                    }
                },
        }
    }

    /// Creates a handler that no request has reached yet.
    pub fn new(input_filters: ExpiroSet<OurInputFilter<S>>) -> (handler: Self)
        requires
            input_filters.wf(),
        ensures
            handler.wf(),
            handler.room() == input_filters.room(),
            handler.idle() == input_filters.idle(),
            handler@ == (Held {
                guards: input_filters@,
                blocked: Map::empty(),
                unblocked: Seq::empty(),
            }),
    {
        let handler = RequestHandler {
            input_filters: input_filters.convert(keep_filter),
            queued_requests: HashMap::new(),
            unblocked_requests: VecDeque::new(),
        };
        assert(handler@.blocked =~= Map::empty());
        assert(handler@.guards =~= input_filters@);
        handler
    }

    /// The position of the first guard that has the key.
    fn guard_pos(&self, key: u64) -> (position: Option<usize>)
        ensures
            match position {
                Some(i) => {
                    &&& i < self@.guards.len()
                    &&& self@.guards[i as int].value.0.key == key
                    &&& forall|j: int|
                        0 <= j < i ==> (#[trigger] self@.guards[j]).value.0.key != key
                },
                None => forall|j: int|
                    0 <= j < self@.guards.len() ==> (#[trigger] self@.guards[j]).value.0.key != key,
            },
    {
        let filters = self.input_filters.iter();
        let mut i: usize = 0;
        while i < filters.len()
            invariant
                i <= filters@.len() == self@.guards.len(),
                forall|j: int|
                    0 <= j < filters@.len() ==> (#[trigger] filters@[j])@
                        == self@.guards[j].value.0,
                forall|j: int| 0 <= j < i ==> (#[trigger] self@.guards[j]).value.0.key != key,
            decreases filters.len() - i,
        {
            if filters[i].get().key == key {
                return Some(i);
            }
            i = i + 1;
        }
        None
    }

    /// Checks if the request can be processed.
    pub fn can_process(&self, request: &AttendantRequest<S>) -> (can: bool)
        requires
            self.wf(),
        ensures
            can == self.accepts(*request),
    {
        match &request.command {
            AttendantCommand::StartGuard(_, seconds) => {
                self.input_filters.can_insert() && *seconds <= MAX_DELAY_MS / 1000
            },
            AttendantCommand::RenewGuard(filter, seconds) => {
                self.input_filters.can_insert() && *seconds <= MAX_DELAY_MS / 1000
                    || self.guard_pos(filter.0.key).is_none()
            },
            _ => true,
        }
    }

    /// Takes the next request that should be processed before any new request.
    pub fn next_unblocked(&mut self) -> (request: Option<AttendantRequest<S>>)
        requires
            old(self).wf(),
        ensures
            final(self).wf(),
            final(self).room() == old(self).room(),
            final(self).idle() == old(self).idle(),
            match request {
                Some(r) => {
                    &&& old(self)@.unblocked.len() > 0
                    &&& r == old(self)@.unblocked[0]
                    &&& final(self)@ == (Held {
                        unblocked: old(self)@.unblocked.drop_first(),
                        ..old(self)@
                    })
                },
                None => old(self)@.unblocked.len() == 0 && final(self)@ == old(self)@,
            },
    {
        let request = self.unblocked_requests.pop_front();
        assert(self@.blocked =~= old(self)@.blocked);
        assert(self@.unblocked.len() < old(self)@.unblocked.len() ==> self@.unblocked
            =~= old(self)@.unblocked.drop_first());
        request
    }

    /// Decides what to do next. The requests that are no longer blocked are processed first, in
    /// their order; a new request is waited for only if there are none.
    pub fn next_event(&mut self) -> (next: NextEvent<S>)
        requires
            old(self).wf(),
        ensures
            final(self).wf(),
            final(self).room() == old(self).room(),
            final(self).idle() == old(self).idle(),
            match next {
                NextEvent::Process(request) => {
                    &&& old(self)@.unblocked.len() > 0
                    &&& request == old(self)@.unblocked[0]
                    &&& final(self)@ == (Held {
                        unblocked: old(self)@.unblocked.drop_first(),
                        ..old(self)@
                    })
                },
                NextEvent::Wait => old(self)@.unblocked.len() == 0 && final(self)@ == old(self)@,
            },
    {
        match self.next_unblocked() {
            Some(request) => NextEvent::Process(request),
            None => NextEvent::Wait,
        }
    }

    /// Requeues all the requests blocked by a filter.
    pub fn requeue_requests_blocked_by(&mut self, filter: &OurInputFilter<S>)
        requires
            old(self).wf(),
        ensures
            final(self).wf(),
            final(self).room() == old(self).room(),
            final(self).idle() == old(self).idle(),
            final(self)@ == old(self)@.requeued(filter.0.key),
    {
        self.requeue(filter.0.key);
    }

    /// Requeues all the requests blocked by the filter with this key, active or not.
    fn requeue(&mut self, key: u64)
        requires
            old(self).consistent(),
        ensures
            final(self).consistent(),
            final(self).polls() == old(self).polls(),
            final(self).room() == old(self).room(),
            final(self).idle() == old(self).idle(),
            final(self)@ == old(self)@.requeued(key),
    {
        match self.queued_requests.remove(&key) {
            Some(queue) => {
                let ghost before = self.unblocked_requests@;
                let ghost all = queue@;
                for request in iter: queue
                    invariant
                        iter.seq() == all,
                        self.unblocked_requests@ == before + all.take(iter.index() as int),
                        self.input_filters == old(self).input_filters,
                        self.queued_requests@ == old(self).queued_requests@.remove(key),
                {
                    assert(all.take(iter.index() + 1) =~= all.take(iter.index() as int).push(
                        request,
                    ));
                    self.unblocked_requests.push_back(request);
                }
                assert(all.take(all.len() as int) =~= all);
            },
            None => {},
        }
        assert(self@ =~= old(self)@.requeued(key));
    }

    /// Drops the guards that nobody but the handler holds, given how many hold each.
    pub fn remove_unused_input_filters(&mut self, counts: &Vec<usize>)
        requires
            old(self).wf(),
            counts@.len() == old(self)@.guards.len(),
        ensures
            final(self).wf(),
            final(self).room() >= old(self).room(),
            final(self).idle() == old(self).idle(),
            final(self)@ == old(self)@.refreshed(counts@),
    {
        let mut expired: Vec<u64> = Vec::new();
        let filters = self.input_filters.iter();
        for i in 0..filters.len()
            invariant
                *self == *old(self),
                counts@.len() == filters@.len() == self@.guards.len(),
                forall|j: int|
                    0 <= j < filters@.len() ==> (#[trigger] filters@[j])@
                        == self@.guards[j].value.0,
                expired@ == self@.unused_keys(counts@, i as nat),
        {
            let key = filters[i].get().key;
            let blocking = self.queued_requests.contains_key(&key);
            if counts[i] == 1 || counts[i] == 2 && blocking {
                expired.push(key);
            }
        }
        let mut i: usize = 0;
        assert(expired@.take(0) =~= Seq::empty());
        while i < expired.len()
            invariant
                i <= expired.len(),
                self.wf(),
                self.room() >= old(self).room(),
                self.idle() == old(self).idle(),
                self@ == old(self)@.all_dropped(expired@.take(i as int)),
            decreases expired.len() - i,
        {
            let ghost before = self@;
            let key = expired[i];
            match self.guard_pos(key) {
                Some(at) => {
                    let _ = self.input_filters.remove_at(at);
                    proof {
                        assert(self@.guards =~= before.guards.remove(at as int));
                        guards::first_guard_at(before.guards, key, at as int);
                        guards::other_guards_stay(before.guards, at as int);
                    }
                },
                None => {
                    proof {
                        guards::no_guard(before.guards, key);
                        assert(!guards::guards_key(before.guards, key));
                    }
                },
            }
            proof {
                let without = guards::without_guard(before.guards, key);
                assert(self@ =~= Held { guards: without, ..before });
                assert(expired@.take(i + 1).drop_last() =~= expired@.take(i as int));
                assert(expired@.take(i + 1).last() == key);
            }
            self.requeue(key);
            i = i + 1;
        }
        assert(expired@.take(expired@.len() as int) =~= expired@);
    }

    /// Checks that all input filters are still used by an attendant and removes inactive ones.
    pub fn remove_expired_input_filters(&mut self)
        requires
            old(self).wf(),
        ensures
            final(self).wf(),
            final(self).room() >= old(self).room(),
            final(self).idle() == old(self).idle(),
            exists|counts: Seq<usize>|
                guards::are_counts(old(self)@, counts) && final(self)@
                    == #[trigger] old(self)@.refreshed(counts),
    {
        let mut counts: Vec<usize> = Vec::new();
        let filters = self.input_filters.iter();
        for i in 0..filters.len()
            invariant
                filters@.len() == self@.guards.len(),
                forall|j: int|
                    0 <= j < filters@.len() ==> (#[trigger] filters@[j])@
                        == self@.guards[j].value.0,
                counts@.len() == i,
                forall|j: int| 0 <= j < i ==> guards::is_count(self@, j, #[trigger] counts@[j]),
        {
            let holders = filters[i].holders();
            let blocking = self.queued_requests.contains_key(&filters[i].get().key);
            counts.push(
                if blocking && holders < usize::MAX {
                    holders + 1
                } else {
                    holders
                },
            );
            assert(self@.guards[i as int].value.held_by(holders));
            assert(guards::is_count(self@, i as int, counts@[i as int]));
        }
        self.remove_unused_input_filters(&counts);
    }

    /// Checks the request against the input filters. Returns the request if it passed them;
    /// otherwise, consumes the request and queues it. It does not refresh the input filter set.
    pub fn pass_or_queue(&mut self, request: AttendantRequest<S>, slash: &str) -> (passed: Option<
        AttendantRequest<S>,
    >)
        requires
            old(self).wf(),
        ensures
            final(self).wf(),
            final(self).room() == old(self).room(),
            final(self).idle() == old(self).idle(),
            guards::admitted(old(self)@, request, slash@, final(self)@, passed),
    {
        let filters = self.input_filters.iter();
        let mut i: usize = 0;
        while i < filters.len() && !filters[i].get().is_match(slash)
            invariant
                i <= filters@.len(),
                filters@.len() == self@.guards.len(),
                forall|j: int|
                    0 <= j < filters@.len() ==> (#[trigger] filters@[j])@
                        == self@.guards[j].value.0,
                forall|j: int|
                    0 <= j < i ==> !external::regex_is_match(
                        (#[trigger] self@.guards[j]).value.0.regex,
                        slash@,
                    ),
            decreases filters.len() - i,
        {
            i = i + 1;
        }
        if i == filters.len() || filters[i].get().from_same_attendant(&request) {
            return Some(request);
        }
        let key = filters[i].get().key;
        assert(guards::blocks(self@.guards, slash@, request.client_id, i as int));
        let mut queue = match self.queued_requests.remove(&key) {
            Some(queue) => queue,
            None => Vec::new(),
        };
        queue.push(request);
        self.queued_requests.insert(key, queue);
        assert(self@ =~= old(self)@.queued(key, request));
        None
    }

    /// Checks the request against the input filters. Returns the request if it passed them;
    /// otherwise, consumes the request and queues it. It also refreshes the input filter set.
    pub fn check_input_filters(&mut self, request: AttendantRequest<S>) -> (passed: Option<
        AttendantRequest<S>,
    >)
        requires
            old(self).wf(),
        ensures
            final(self).wf(),
            final(self).room() >= old(self).room(),
            final(self).idle() == old(self).idle(),
            match request.command.slash() {
                None => passed == Some(request) && *final(self) == *old(self),
                Some(slash) => exists|counts: Seq<usize>|
                    guards::are_counts(old(self)@, counts) && guards::admitted(
                        #[trigger] old(self)@.refreshed(counts),
                        request,
                        text::without_leading_hspace(slash),
                        final(self)@,
                        passed,
                    ),
            },
    {
        let slash = match request.command.get_slash() {
            // The regexes match against the command without leading spaces and tabs
            Some(slash) => strip_leading_ascii_hspace(slash).to_owned(),
            None => {
                return Some(request);
            },
        };
        self.remove_expired_input_filters();
        self.pass_or_queue(request, slash.as_str())
    }

    /// Processes a single request. `outputs` are the output filters that the console's output is
    /// run against.
    pub fn process_request(
        &mut self,
        request: AttendantRequest<S>,
        outputs: &mut Vec<OutputFilter>,
    ) -> (processed: Processed<S>)
        requires
            old(self).wf(),
            old(self).accepts(request),
        ensures
            final(self).wf(),
            final(self).idle() == Self::idle_after(old(self).idle(), request),
            final(self).room() + 1 >= old(self).room(),
            !(request.command is StartGuard) && !(request.command is RenewGuard)
                ==> final(self).room() >= old(self).room(),
            RequestHandler::processes(
                old(self)@,
                old(outputs)@,
                request,
                final(self)@,
                final(outputs)@,
                processed,
            ),
    {
        let request = match self.check_input_filters(request) {
            Some(request) => request,
            None => {
                return Processed::Queued;
            },
        };
        let done = request.done;
        match request.command {
            AttendantCommand::SendCommand(slash) => {
                let mut line = slash;
                line.now_ends_with("\n");
                Processed::Handled { line: Some(line), done: done }
            },
            AttendantCommand::AddOutputFilter(filter) => {
                outputs.push(filter);
                Processed::Handled { line: None, done: done }
            },
            AttendantCommand::StartGuard(filter, seconds) => {
                let ghost guards = self@.guards;
                self.input_filters.insert(keep_filter(filter), seconds * 1000);
                proof {
                    assert(self@.guards =~= guards.push(self@.guards.last()));
                    guards::keys_stay(guards, self@.guards);
                }
                assert(self@.blocked =~= old(self)@.blocked);
                Processed::Handled { line: None, done: done }
            },
            AttendantCommand::RenewGuard(filter, seconds) => {
                self.renew(&filter, seconds);
                Processed::Handled { line: None, done: done }
            },
            AttendantCommand::GetLine(slash, filter) => {
                outputs.push(filter);
                let mut line = slash;
                line.now_ends_with("\n");
                Processed::Handled { line: Some(line), done: done }
            },
        }
    }

    /// Sets the duration of a guard, if it is still active.
    fn renew(&mut self, filter: &OurInputFilter<S>, seconds: u64)
        requires
            old(self).wf(),
            old(self).has_room() && can_be_set(seconds) || expiroset::none_equal(
                old(self)@.guards,
                *filter,
            ),
        ensures
            final(self).wf(),
            final(self).idle() == old(self).idle(),
            final(self).room() + 1 >= old(self).room(),
            AttendantCommand::RenewGuard(*filter, seconds).applies(old(self)@, final(self)@),
    {
        if seconds > MAX_DELAY_MS / 1000 {
            return;
        }
        if let Some(i) = self.guard_pos(filter.0.key) {
            self.input_filters.reset_at(i, seconds * 1000);
            proof {
                let guards = old(self)@.guards;
                let timer = self@.guards[i as int].timer;
                let timeout_ms = (seconds * 1000) as u64;
                assert(self@.guards =~= guards.update(
                    i as int,
                    Element { timeout_ms, timer, ..guards[i as int] },
                ));
                assert(expiroset::first_equal(guards, *filter, i as int));
                assert(timer == guards[i as int].timer || expiroset::no_timer(guards, timer)) by {
                    assert forall|j: int|
                        0 <= j < guards.len() && expiroset::no_timer(
                            old(self).input_filters@,
                            timer,
                        ) implies (#[trigger] guards[j]).timer != timer by {
                        assert(old(self).input_filters@[j].timer != timer);
                    }
                }
            }
        }
        proof {
            guards::keys_stay(old(self)@.guards, self@.guards);
        }
        assert(self@.blocked =~= old(self)@.blocked);
    }

    /// Handles what polling the guards' timers gave: the requests that an expired guard blocked
    /// are requeued.
    pub fn guard_polled(&mut self, expiry: Expiry<OurInputFilter<S>>) -> (poll: GuardPoll<S>)
        requires
            old(self).consistent(),
        ensures
            final(self).consistent(),
            final(self).polls() == old(self).polls(),
            final(self).room() == old(self).room(),
            final(self).idle() == old(self).idle(),
            match expiry {
                Expiry::Pending => poll is Pending && final(self)@ == old(self)@,
                Expiry::Empty => poll is Empty && final(self)@ == old(self)@,
                Expiry::Failed { shutdown } => poll == (GuardPoll::<S>::Failed { shutdown })
                    && final(self)@ == old(self)@,
                Expiry::Expired(filter) => {
                    &&& poll == GuardPoll::Expired(filter)
                    &&& final(self)@ == old(self)@.requeued(filter.0.key)
                },
            },
    {
        match expiry {
            Expiry::Pending => GuardPoll::Pending,
            Expiry::Empty => GuardPoll::Empty,
            Expiry::Failed { shutdown } => GuardPoll::Failed { shutdown: shutdown },
            Expiry::Expired(filter) => {
                self.requeue(filter.0.key);
                GuardPoll::Expired(filter)
            },
        }
    }

    /// Waits for a guard to expire, and handles it once it has.
    pub fn poll_expired_guard(&mut self, cx: &mut Context<'_>) -> (poll: GuardPoll<S>)
        requires
            old(self).wf(),
        ensures
            final(self).wf(),
            final(self).room() >= old(self).room(),
            final(self).polls().len() > old(self).polls().len(),
            final(self).polls().take(old(self).polls().len() as int) == old(self).polls(),
            forall|i: int|
                old(self).polls().len() <= i < final(self).polls().len() - 1 ==> {
                    &&& #[trigger] final(self).polls()[i] matches DelayPoll::Expired(timer)
                    &&& expiroset::no_timer(old(self)@.guards, timer)
                },
            poll.tells(final(self).polls().last(), old(self)@.guards),
            poll matches GuardPoll::Expired(filter) ==> exists|i: int|
                {
                    &&& 0 <= i < old(self)@.guards.len()
                    &&& filter == (#[trigger] old(self)@.guards[i]).value
                    &&& final(self).polls().last() == DelayPoll::Expired(
                        old(self)@.guards[i].timer,
                    )
                    &&& final(self)@ == (Held {
                        guards: old(self)@.guards.remove(i),
                        ..old(self)@
                    }).requeued(filter.0.key)
                },
            !(poll is Expired) ==> final(self)@ == old(self)@,
            poll is Empty ==> final(self)@.guards.len() == 0,
            old(self).idle() ==> poll is Empty,
            poll is Empty ==> final(self).idle(),
            poll is Pending ==> !final(self).idle(),
    {
        let polled = self.input_filters.poll_expired(cx);
        proof {
            let elements = old(self).input_filters@;
            assert(self@.blocked =~= old(self)@.blocked);
            assert forall|timer: u64| #[trigger] expiroset::no_timer(
                elements,
                timer,
            ) implies expiroset::no_timer(old(self)@.guards, timer) by {
                assert forall|j: int| 0 <= j < old(self)@.guards.len() implies (#[trigger] old(
                    self,
                )@.guards[j]).timer != timer by {
                    assert(elements[j].timer != timer);
                }
            }
            if polled is Expired {
                let i = choose|i: int|
                    0 <= i < elements.len() && polled->Expired_0 == (#[trigger] elements[i]).value
                        && self.polls().last() == DelayPoll::Expired(elements[i].timer)
                        && self.input_filters@ == elements.remove(i);
                assert(self@.guards =~= old(self)@.guards.remove(i));
                assert(expiroset::has_timer(old(self)@.guards, elements[i].timer, i));
                guards::other_guards_stay(old(self)@.guards, i);
                assert(self@ =~= Held { guards: old(self)@.guards.remove(i), ..old(self)@ });
                assert(old(self)@.guards[i].value == OurInputFilter(polled->Expired_0@));
            } else {
                assert(self@.guards =~= old(self)@.guards);
            }
        }
        let expiry = match polled {
            Expiry::Pending => Expiry::Pending,
            Expiry::Empty => Expiry::Empty,
            Expiry::Expired(kept) => Expiry::Expired(OurInputFilter(kept.give_up())),
            Expiry::Failed { shutdown } => Expiry::Failed { shutdown: shutdown },
        };
        self.guard_polled(expiry)
    }

    /// Decides what to do about an event. Without requests to come, or a timer, there is nothing
    /// left to do.
    pub fn handle_event(
        &mut self,
        event: HandlerEvent<S>,
        outputs: &mut Vec<OutputFilter>,
    ) -> (action: HandlerAction<S>)
        requires
            old(self).wf(),
            event matches HandlerEvent::Request(request) ==> old(self).accepts(request),
        ensures
            final(self).wf(),
            final(self).room() + 1 >= old(self).room(),
            match event {
                HandlerEvent::Request(request) => final(self).idle() == Self::idle_after(
                    old(self).idle(),
                    request,
                ) && RequestHandler::<S>::processes(
                    old(self)@,
                    old(outputs)@,
                    request,
                    final(self)@,
                    final(outputs)@,
                    match action {
                        HandlerAction::Complete { line, done } => Processed::Handled { line, done },
                        _ => Processed::Queued,
                    },
                ) && (action is Complete || action is Continue),
                HandlerEvent::NoMoreRequests => {
                    action is Stop && *final(self) == *old(self) && *final(outputs) == *old(
                        outputs,
                    )
                },
                HandlerEvent::Guard(poll) => {
                    &&& action == match poll {
                        GuardPoll::Expired(filter) => HandlerAction::TellExpired(filter),
                        GuardPoll::Failed { shutdown: true } => HandlerAction::Stop,
                        _ => HandlerAction::Continue,
                    }
                    &&& *final(self) == *old(self)
                    &&& *final(outputs) == *old(outputs)
                },
            },
    {
        match event {
            HandlerEvent::Request(request) => match self.process_request(request, outputs) {
                Processed::Queued => HandlerAction::Continue,
                Processed::Handled { line, done } => HandlerAction::Complete {
                    line: line,
                    done: done,
                },
            },
            HandlerEvent::NoMoreRequests => HandlerAction::Stop,
            HandlerEvent::Guard(GuardPoll::Expired(filter)) => HandlerAction::TellExpired(filter),
            HandlerEvent::Guard(GuardPoll::Failed { shutdown: true }) => HandlerAction::Stop,
            HandlerEvent::Guard(_) => HandlerAction::Continue,
        }
    }
}

/// No request is lost: one that is processed is handled or kept, and those that were kept still
/// are.
pub proof fn no_request_is_lost<S>(
    before: Held<S>,
    outputs_before: Seq<OutputFilter>,
    request: AttendantRequest<S>,
    after: Held<S>,
    outputs_after: Seq<OutputFilter>,
    processed: Processed<S>,
    other: AttendantRequest<S>,
)
    requires
        RequestHandler::processes(
            before,
            outputs_before,
            request,
            after,
            outputs_after,
            processed,
        ),
    ensures
        processed.handles(request) || after.holds(request),
        before.holds(other) ==> after.holds(other),
{
    match request.command.slash() {
        None => {
            assert(after.blocked == before.blocked && after.unblocked == before.unblocked);
        },
        Some(slash) => {
            let stripped = text::without_leading_hspace(slash);
            let counts = choose|counts: Seq<usize>|
                {
                    let refreshed = #[trigger] before.refreshed(counts);
                    &&& guards::are_counts(before, counts)
                    &&& if guards::passes(refreshed.guards, stripped, request.client_id) {
                        &&& processed.handles(request)
                        &&& after == refreshed
                        &&& outputs_after == with_output_filter(outputs_before, request.command)
                    } else {
                        &&& processed is Queued
                        &&& outputs_after == outputs_before
                        &&& guards::admitted(
                            refreshed,
                            request,
                            stripped,
                            after,
                            None::<AttendantRequest<S>>,
                        )
                    }
                };
            let refreshed = before.refreshed(counts);
            guards::refreshing_keeps_every_request(before, counts, other);
            if !guards::passes(refreshed.guards, stripped, request.client_id) {
                let i = choose|i: int| #[trigger]
                    guards::blocks(refreshed.guards, stripped, request.client_id, i) && after
                        == refreshed.queued(refreshed.guards[i].value.0.key, request);
                let key = refreshed.guards[i].value.0.key;
                guards::queueing_keeps_every_request(refreshed, key, request, request);
                guards::queueing_keeps_every_request(refreshed, key, request, other);
            }
        },
    }
}

/// The handler takes the first of the requests that are no longer blocked, and processes it.
pub open spec fn takes_a_turn<S>(before: Held<S>, after: Held<S>) -> bool {
    &&& before.unblocked.len() > 0
    &&& exists|
        outputs_before: Seq<OutputFilter>,
        outputs_after: Seq<OutputFilter>,
        processed: Processed<S>,
    | #[trigger]
        RequestHandler::processes(
            Held { unblocked: before.unblocked.drop_first(), ..before },
            outputs_before,
            before.unblocked[0],
            after,
            outputs_after,
            processed,
        )
}

/// Processing a request leaves the requests that are unblocked where they are.
proof fn processing_adds_to_the_end<S>(
    before: Held<S>,
    outputs_before: Seq<OutputFilter>,
    request: AttendantRequest<S>,
    after: Held<S>,
    outputs_after: Seq<OutputFilter>,
    processed: Processed<S>,
)
    requires
        RequestHandler::processes(
            before,
            outputs_before,
            request,
            after,
            outputs_after,
            processed,
        ),
    ensures
        before.unblocked.is_prefix_of(after.unblocked),
{
    assert forall|counts: Seq<usize>| before.unblocked.is_prefix_of(
        (#[trigger] before.refreshed(counts)).unblocked,
    ) by {
        guards::dropping_adds_to_the_end(
            before,
            before.unused_keys(counts, before.guards.len()),
        );
    }
}

/// The requests that were unblocked are processed in their order, each once, and before anything
/// else is waited for: `run` is what the handler keeps before and after each turn. What a turn
/// unblocks comes after them.
pub proof fn unblocked_requests_come_first<S>(run: Seq<Held<S>>)
    requires
        run.len() > 0,
        run.len() <= run[0].unblocked.len() + 1,
        forall|i: int| 0 <= i < run.len() - 1 ==> takes_a_turn(#[trigger] run[i], run[i + 1]),
    ensures
        forall|i: int|
            0 <= i < run.len() - 1 ==> (#[trigger] run[i]).unblocked.len() > 0
                && run[i].unblocked[0] == run[0].unblocked[i],
        run.len() <= run[0].unblocked.len() ==> run.last().unblocked.len() > 0
            && run.last().unblocked[0] == run[0].unblocked[run.len() - 1],
{
    let waiting = run[0].unblocked;
    assert forall|i: int| 0 <= i < run.len() implies waiting.skip(i).is_prefix_of(
        (#[trigger] run[i]).unblocked,
    ) by {
        turns_so_far(run, i);
    }
    assert forall|i: int| 0 <= i < run.len() && i < waiting.len() implies (
    #[trigger] run[i]).unblocked.len() > 0 && run[i].unblocked[0] == waiting[i] by {
        assert(waiting.skip(i)[0] == waiting[i]);
        assert(run[i].unblocked.subrange(0, waiting.skip(i).len() as int)[0]
            == run[i].unblocked[0]);
    }
}

/// After `i` turns the requests that are left are still in front.
proof fn turns_so_far<S>(run: Seq<Held<S>>, i: int)
    requires
        0 <= i < run.len() <= run[0].unblocked.len() + 1,
        forall|j: int| 0 <= j < run.len() - 1 ==> takes_a_turn(#[trigger] run[j], run[j + 1]),
    ensures
        run[0].unblocked.skip(i).is_prefix_of(run[i].unblocked),
    decreases i,
{
    let waiting = run[0].unblocked;
    if i == 0 {
        assert(waiting.skip(0) =~= waiting);
        assert(waiting.subrange(0, waiting.len() as int) =~= waiting);
    } else {
        turns_so_far(run, i - 1);
        let before = run[i - 1];
        let after = run[i];
        assert(takes_a_turn(before, run[i - 1 + 1]));
        let rest = Held { unblocked: before.unblocked.drop_first(), ..before };
        let (ob, oa, p) = choose|
            ob: Seq<OutputFilter>,
            oa: Seq<OutputFilter>,
            p: Processed<S>,
        | #[trigger] RequestHandler::processes(rest, ob, before.unblocked[0], after, oa, p);
        processing_adds_to_the_end(rest, ob, before.unblocked[0], after, oa, p);
        let left = waiting.skip(i);
        assert forall|k: int| 0 <= k < left.len() implies left[k] == after.unblocked[k] by {
            assert(waiting.skip(i - 1)[k + 1] == before.unblocked[k + 1]);
            assert(rest.unblocked[k] == before.unblocked[k + 1]);
            assert(after.unblocked.subrange(0, rest.unblocked.len() as int)[k]
                == after.unblocked[k]);
        }
        assert(left =~= after.unblocked.subrange(0, left.len() as int));
    }
}

/// Requests that carry no console command are never blocked.
pub proof fn other_requests_are_never_blocked<S>(
    before: Held<S>,
    outputs_before: Seq<OutputFilter>,
    request: AttendantRequest<S>,
    after: Held<S>,
    outputs_after: Seq<OutputFilter>,
    processed: Processed<S>,
)
    requires
        request.command.slash() is None,
        RequestHandler::processes(
            before,
            outputs_before,
            request,
            after,
            outputs_after,
            processed,
        ),
    ensures
        processed.handles(request),
{
}

// === What each request comes to ===

/// The request carries this console command.
pub open spec fn carries<S>(command: AttendantCommand<S>, slash: Seq<char>) -> bool {
    match command {
        AttendantCommand::SendCommand(s) => s@ == slash,
        AttendantCommand::GetLine(s, _) => s@ == slash,
        _ => false,
    }
}

/// The text ends with a newline.
pub open spec fn ends_a_line(s: Seq<char>) -> bool {
    s.len() > 0 && s[s.len() - 1] == '\n'
}

/// A console command that is processed is written to the console as a whole, followed by a newline
/// if it does not end with one. No other request is written to the console. What signals completion
/// is handed back.
pub proof fn the_whole_command_is_written<S>(
    before: Held<S>,
    outputs_before: Seq<OutputFilter>,
    request: AttendantRequest<S>,
    after: Held<S>,
    outputs_after: Seq<OutputFilter>,
    processed: Processed<S>,
    slash: Seq<char>,
)
    requires
        RequestHandler::processes(
            before,
            outputs_before,
            request,
            after,
            outputs_after,
            processed,
        ),
        processed is Handled,
    ensures
        processed->Handled_done == request.done,
        carries(request.command, slash) ==> {
            &&& processed->Handled_line is Some
            &&& ends_a_line(slash) ==> processed->Handled_line->0@ == slash
            &&& !ends_a_line(slash) ==> processed->Handled_line->0@ == slash.push('\n')
        },
        (forall|s: Seq<char>| !#[trigger] carries(request.command, s))
            ==> processed->Handled_line is None,
{
    reveal_strlit("\n");
    let newline = "\n"@;
    assert(newline =~= seq!['\n']);
    match request.command {
        AttendantCommand::SendCommand(s) => {
            assert(carries(request.command, s@));
            slang::at_most_the_suffix_is_added(s@, newline);
            assert(s@ + newline =~= s@.push('\n'));
        },
        AttendantCommand::GetLine(s, _) => {
            assert(carries(request.command, s@));
            slang::at_most_the_suffix_is_added(s@, newline);
            assert(s@ + newline =~= s@.push('\n'));
        },
        _ => {},
    }
    if carries(request.command, slash) {
        if ends_a_line(slash) {
            assert forall|i: int| 0 <= i < newline.len() implies slash[slash.len() - newline.len()
                + i] == #[trigger] newline[i] by {}
        } else if slash.len() > 0 {
            assert(newline[0] == '\n');
            assert(slash[slash.len() - newline.len() + 0] != newline[0]);
        }
    }
}

/// The output filter of a request comes last among the output filters once the request is
/// processed, and they stay as they are otherwise.
pub proof fn an_output_filter_is_added_once<S>(
    before: Held<S>,
    outputs_before: Seq<OutputFilter>,
    request: AttendantRequest<S>,
    after: Held<S>,
    outputs_after: Seq<OutputFilter>,
    processed: Processed<S>,
)
    requires
        RequestHandler::processes(
            before,
            outputs_before,
            request,
            after,
            outputs_after,
            processed,
        ),
    ensures
        processed is Queued ==> outputs_after == outputs_before,
        processed is Handled ==> outputs_after == match request.command {
            AttendantCommand::AddOutputFilter(filter) => outputs_before.push(filter),
            AttendantCommand::GetLine(_, filter) => outputs_before.push(filter),
            AttendantCommand::SendCommand(_) => outputs_before,
            AttendantCommand::StartGuard(_, _) => outputs_before,
            AttendantCommand::RenewGuard(_, _) => outputs_before,
        },
{
}

/// A console command is processed if and only if the guards that are in use let it through, leading
/// spaces and tabs aside. Otherwise it waits for the first guard that matches it, which is another
/// client's, after the requests that wait for that guard already. `counts` are how many were found
/// to hold each guard.
pub proof fn a_console_command_is_processed_or_waits<S>(
    before: Held<S>,
    outputs_before: Seq<OutputFilter>,
    request: AttendantRequest<S>,
    after: Held<S>,
    outputs_after: Seq<OutputFilter>,
    processed: Processed<S>,
    slash: Seq<char>,
) -> (counts: Seq<usize>)
    requires
        RequestHandler::processes(
            before,
            outputs_before,
            request,
            after,
            outputs_after,
            processed,
        ),
        carries(request.command, slash),
    ensures
        guards::are_counts(before, counts),
        ({
            let kept = before.refreshed(counts);
            let command = text::without_leading_hspace(slash);
            &&& processed is Handled <==> guards::let_through(
                kept.guards,
                command,
                request.client_id,
            )
            &&& processed is Handled ==> after == kept
            &&& processed is Queued ==> exists|i: int|
                {
                    let key = kept.guards[i].value.0.key;
                    &&& #[trigger] guards::decides(kept.guards, command, i)
                    &&& kept.guards[i].value.0.client_id != request.client_id
                    &&& after.guards == kept.guards
                    &&& after.unblocked == kept.unblocked
                    &&& after.blocked.contains_key(key)
                    &&& after.blocked[key].last() == request
                    &&& after.blocked[key].drop_last() == (if kept.blocked.contains_key(key) {
                        kept.blocked[key]
                    } else {
                        Seq::empty()
                    })
                }
        }),
{
    let stripped = text::without_leading_hspace(slash);
    let counts = choose|counts: Seq<usize>|
        {
            let refreshed = #[trigger] before.refreshed(counts);
            &&& guards::are_counts(before, counts)
            &&& if guards::passes(refreshed.guards, stripped, request.client_id) {
                &&& processed.handles(request)
                &&& after == refreshed
                &&& outputs_after == with_output_filter(outputs_before, request.command)
            } else {
                &&& processed is Queued
                &&& outputs_after == outputs_before
                &&& guards::admitted(
                    refreshed,
                    request,
                    stripped,
                    after,
                    None::<AttendantRequest<S>>,
                )
            }
        };
    let kept = before.refreshed(counts);
    if guards::passes(kept.guards, stripped, request.client_id) {
        guards::a_command_passes_or_waits(kept, request, stripped, kept, Some(request));
    } else {
        guards::a_command_passes_or_waits(
            kept,
            request,
            stripped,
            after,
            None::<AttendantRequest<S>>,
        );
        let i = choose|i: int|
            {
                let key = kept.guards[i].value.0.key;
                &&& #[trigger] guards::decides(kept.guards, stripped, i)
                &&& kept.guards[i].value.0.client_id != request.client_id
                &&& after.guards == kept.guards
                &&& after.unblocked == kept.unblocked
                &&& after.blocked.dom() == kept.blocked.dom().insert(key)
                &&& after.blocked[key] == (if kept.blocked.contains_key(key) {
                    kept.blocked[key]
                } else {
                    Seq::empty()
                }).push(request)
            };
        let key = kept.guards[i].value.0.key;
        let queue = if kept.blocked.contains_key(key) {
            kept.blocked[key]
        } else {
            Seq::empty()
        };
        assert(after.blocked.dom().contains(key));
        assert(queue.push(request).drop_last() =~= queue);
    }
    counts
}

/// A guard that was ended is lifted at the next console command, wherever it stands among the
/// guards; one that its client still holds is not.
pub proof fn an_ended_guard_is_lifted<S>(
    before: Held<S>,
    outputs_before: Seq<OutputFilter>,
    request: AttendantRequest<S>,
    after: Held<S>,
    outputs_after: Seq<OutputFilter>,
    processed: Processed<S>,
    slash: Seq<char>,
    i: int,
)
    requires
        RequestHandler::processes(
            before,
            outputs_before,
            request,
            after,
            outputs_after,
            processed,
        ),
        carries(request.command, slash),
        guards::distinct_keys(before.guards),
        0 <= i < before.guards.len(),
    ensures
        (forall|holders: usize| #[trigger]
            before.guards[i].value.held_by(holders) ==> holders == 1) ==> forall|j: int|
            0 <= j < after.guards.len() ==> (#[trigger] after.guards[j]).value.0.key
                != before.guards[i].value.0.key,
        (forall|holders: usize| #[trigger]
            before.guards[i].value.held_by(holders) ==> holders >= 2) ==> after.guards.contains(
            before.guards[i],
        ),
{
    let counts = a_console_command_is_processed_or_waits(
        before,
        outputs_before,
        request,
        after,
        outputs_after,
        processed,
        slash,
    );
    guards::a_guard_lasts_while_somebody_holds_it(before, counts, i);
    assert(after.guards == before.refreshed(counts).guards);
}

/// A duration in seconds, as the milliseconds that it takes.
pub open spec fn lasts(timeout_ms: u64, seconds: u64) -> bool {
    timeout_ms / 1000 == seconds && timeout_ms % 1000 == 0
}

/// A guard lasts for as many seconds as were asked for when it was started. It comes last among the
/// guards, and nothing else changes.
pub proof fn a_guard_lasts_as_long_as_was_asked_for<S>(
    before: Held<S>,
    outputs_before: Seq<OutputFilter>,
    request: AttendantRequest<S>,
    after: Held<S>,
    outputs_after: Seq<OutputFilter>,
    processed: Processed<S>,
    filter: OurInputFilter<S>,
    seconds: u64,
)
    requires
        RequestHandler::processes(
            before,
            outputs_before,
            request,
            after,
            outputs_after,
            processed,
        ),
        request.command == AttendantCommand::StartGuard(filter, seconds),
        can_be_set(seconds),
    ensures
        after.guards.len() == before.guards.len() + 1,
        after.guards.drop_last() == before.guards,
        after.guards.last().value == filter,
        lasts(after.guards.last().timeout_ms, seconds),
        after.blocked == before.blocked,
        after.unblocked == before.unblocked,
{
    assert(after.guards.drop_last() =~= before.guards);
}

/// A guard that is renewed lasts for as many seconds as were asked for, just as if it was started
/// with them. The other guards last as long as before, and all stay in their order.
pub proof fn a_renewed_guard_lasts_as_long_as_was_asked_for<S>(
    before: Held<S>,
    outputs_before: Seq<OutputFilter>,
    request: AttendantRequest<S>,
    after: Held<S>,
    outputs_after: Seq<OutputFilter>,
    processed: Processed<S>,
    filter: OurInputFilter<S>,
    seconds: u64,
    i: int,
)
    requires
        RequestHandler::processes(
            before,
            outputs_before,
            request,
            after,
            outputs_after,
            processed,
        ),
        request.command == AttendantCommand::RenewGuard(filter, seconds),
        can_be_set(seconds),
        guards::distinct_keys(before.guards),
        0 <= i < before.guards.len(),
    ensures
        after.guards.len() == before.guards.len(),
        after.guards[i].value == before.guards[i].value,
        before.guards[i].value.0.key == filter.0.key ==> lasts(after.guards[i].timeout_ms, seconds),
        before.guards[i].value.0.key != filter.0.key ==> after.guards[i] == before.guards[i],
        after.blocked == before.blocked,
        after.unblocked == before.unblocked,
{
    if !expiroset::none_equal(before.guards, filter) {
        let at = choose|at: int| #[trigger]
            expiroset::first_equal(before.guards, filter, at) && {
                let timer = after.guards[at].timer;
                let timeout_ms = (seconds * 1000) as u64;
                &&& after.guards == before.guards.update(
                    at,
                    Element { timeout_ms, timer, ..before.guards[at] },
                )
                &&& timer == before.guards[at].timer || expiroset::no_timer(before.guards, timer)
            };
        if at < i {
            assert(before.guards[at].value.0.key != before.guards[i].value.0.key);
        } else if i < at {
            assert(before.guards[i].value.0.key != before.guards[at].value.0.key);
        }
    } else {
        assert(!(before.guards[i].value.eq_spec(&filter)));
    }
}

/// The longest that a guard can last is just over a year: 2^35 milliseconds are the limit.
pub proof fn a_guard_can_last_for_a_year(seconds: u64)
    ensures
        can_be_set(seconds) <==> seconds <= 34_359_738,
{
}

/// A request that starts no guard and renews none, and is no console command, leaves the guards and
/// the requests that wait as they are. One that renews a guard which is not active does so too.
pub proof fn other_requests_change_no_guard<S>(
    before: Held<S>,
    outputs_before: Seq<OutputFilter>,
    request: AttendantRequest<S>,
    after: Held<S>,
    outputs_after: Seq<OutputFilter>,
    processed: Processed<S>,
)
    requires
        RequestHandler::processes(
            before,
            outputs_before,
            request,
            after,
            outputs_after,
            processed,
        ),
    ensures
        request.command is AddOutputFilter ==> after == before && processed is Handled,
        request.command matches AttendantCommand::RenewGuard(filter, _) ==> (forall|i: int|
            0 <= i < before.guards.len() ==> (#[trigger] before.guards[i]).value.0.key
                != filter.0.key) ==> after == before && processed is Handled,
{
}

/// What the guards' timers answer is what is told, and of an expired timer, the guard that waits
/// for it.
pub proof fn an_expired_guard_is_told<S>(
    poll: GuardPoll<S>,
    polled: DelayPoll,
    guards: Seq<Element<OurInputFilter<S>>>,
)
    requires
        poll.tells(polled, guards),
    ensures
        poll is Pending <==> polled is Pending,
        poll is Empty <==> polled is Empty,
        poll is Expired <==> polled is Expired,
        poll matches GuardPoll::Failed { shutdown } ==> polled == (DelayPoll::Failed { shutdown }),
        poll matches GuardPoll::Expired(filter) ==> exists|i: int|
            {
                &&& 0 <= i < guards.len()
                &&& polled == DelayPoll::Expired((#[trigger] guards[i]).timer)
                &&& filter == guards[i].value
            },
{
    if polled is Expired {
        let i = choose|i: int| #[trigger]
            expiroset::has_timer(guards, polled->Expired_0, i) && poll == GuardPoll::Expired(
                guards[i].value,
            );
        assert(guards[i].timer == polled->Expired_0);
    }
}

/// What the handler accepts: to start a guard, or to renew one that is active, as long as there is
/// room and the guard lasts no longer than about a year; and everything else.
pub proof fn what_the_handler_accepts<S>(handler: RequestHandler<S>, request: AttendantRequest<S>)
    ensures
        request.command matches AttendantCommand::StartGuard(_, seconds) ==> (handler.accepts(
            request,
        ) <==> handler.room() > 0 && seconds <= 34_359_738),
        request.command matches AttendantCommand::RenewGuard(filter, seconds) ==> (handler.accepts(
            request,
        ) <==> (handler.room() > 0 && seconds <= 34_359_738) || forall|i: int|
            0 <= i < handler@.guards.len() ==> (#[trigger] handler@.guards[i]).value.0.key
                != filter.0.key),
        !(request.command is StartGuard) && !(request.command is RenewGuard) ==> handler.accepts(
            request,
        ),
{
}

} // verus!
