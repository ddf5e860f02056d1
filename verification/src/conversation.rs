//! What a client can count on in a conversation: each of its lines gets one answer, and what is
//! written to it comes in order.

use vstd::prelude::*;
use vstd::string::*;

use crate::command;
use crate::filters::FilterOutput;
use crate::secretary;
use crate::secretary::{
    AttendantAnswer, AttendantProcessor, ConnectionAction, ConnectionEvent, SendOutcome, Step,
};
use crate::text;

verus! {

// === One answer for each line ===

impl<S> Step<S> {
    /// The answer that the step sends, if any.
    pub open spec fn answer(self) -> Option<AttendantAnswer> {
        match self {
            Step::Reply(answer) => Some(answer),
            Step::GuardStarted { answer, .. } => Some(answer),
            _ => None,
        }
    }

    /// The header that is left to be answered, if any.
    pub open spec fn unanswered(self) -> Option<Seq<char>> {
        match self {
            Step::WaitReady { header } => Some(header@),
            Step::OpenGuard { header, .. } => Some(header@),
            Step::Send { header, .. } => Some(header@),
            Step::WaitLine { header, .. } => Some(header@),
            _ => None,
        }
    }
}

/// `next` can follow `step`, whatever came of what was waited for.
pub open spec fn goes_on<S>(step: Step<S>, next: Step<S>) -> bool {
    match step {
        Step::WaitReady { header } => {
            &&& next matches Step::Reply(answer)
            &&& exists|ready: Option<()>| #[trigger]
                secretary::ready_answer(header@, ready, answer)
        },
        Step::OpenGuard { header, regex, seconds } => exists|
            before: AttendantProcessor<S>,
            expired: S,
            after: AttendantProcessor<S>,
        | #[trigger]
            secretary::guard_opening(before, header@, regex, seconds, expired, after, next),
        Step::Send { header, command, pending } => exists|
            before: AttendantProcessor<S>,
            outcome: SendOutcome,
            after: AttendantProcessor<S>,
        | #[trigger]
            secretary::sent_step(before, header@, outcome, pending, after, next),
        Step::WaitLine { header, rx } => {
            &&& next matches Step::Reply(answer)
            &&& exists|output: Option<FilterOutput>| #[trigger]
                secretary::line_answer(header@, output, answer)
        },
        Step::Reply(_) => false,
        Step::GuardStarted { .. } => false,
    }
}

/// An answer to the line starts with this header: the command with its id; or the command alone, if
/// nobody knows it; or nothing, if there is none.
pub open spec fn heads(line: Seq<char>, header: Seq<char>) -> bool {
    ||| exists|start: int, end: int| #[trigger]
        command::is_request(line, start, end) && (header == line.take(end) || header
            == line.subrange(start, end))
    ||| header.len() == 0 && forall|start: int, end: int|
        !#[trigger] command::is_request(line, start, end)
}

/// Whatever is said with a status has the form of a reply.
proof fn said_is_replied(
    answer: AttendantAnswer,
    header: Seq<char>,
    status: Seq<char>,
    message: Seq<char>,
    end_connection: bool,
)
    requires
        answer.says(secretary::reply_line(header, status, message), end_connection),
        secretary::is_status(status),
        status == "bail"@ ==> end_connection,
        status == "error"@ ==> !end_connection,
    ensures
        answer.is_reply(header),
{
    secretary::reply_has_the_form_of_a_reply(header, status, message);
    assert(answer.line@ == secretary::replied(
        header,
        status,
        text::without_trailing_space(message),
    ));
}

/// Whatever is answered has the form of a reply.
proof fn answers_are_replies()
    ensures
        forall|answer: AttendantAnswer, header: Seq<char>, message: Seq<char>| #[trigger]
            answer.is_ok(header, message) ==> answer.is_reply(header),
        forall|answer: AttendantAnswer, header: Seq<char>, message: Seq<char>| #[trigger]
            answer.is_error(header, message) ==> answer.is_reply(header),
        forall|answer: AttendantAnswer, header: Seq<char>, message: Seq<char>| #[trigger]
            answer.is_bail(header, message) ==> answer.is_reply(header),
        forall|answer: AttendantAnswer, header: Seq<char>| #[trigger]
            answer.is_farewell(header) ==> answer.is_reply(header),
{
    reveal_strlit("ok");
    reveal_strlit("error");
    reveal_strlit("bail");
    assert("ok"@.len() == 2 && "error"@.len() == 5 && "bail"@.len() == 4);
    assert forall|answer: AttendantAnswer, header: Seq<char>, message: Seq<char>| #[trigger]
        answer.is_ok(header, message) implies answer.is_reply(header) by {
        said_is_replied(answer, header, "ok"@, message, false);
    }
    assert forall|answer: AttendantAnswer, header: Seq<char>, message: Seq<char>| #[trigger]
        answer.is_error(header, message) implies answer.is_reply(header) by {
        said_is_replied(answer, header, "error"@, message, false);
    }
    assert forall|answer: AttendantAnswer, header: Seq<char>, message: Seq<char>| #[trigger]
        answer.is_bail(header, message) implies answer.is_reply(header) by {
        said_is_replied(answer, header, "bail"@, message, true);
    }
    assert forall|answer: AttendantAnswer, header: Seq<char>| #[trigger]
        answer.is_farewell(header) implies answer.is_reply(header) by {
        said_is_replied(answer, header, "ok"@, ""@, true);
    }
}

/// The first step either answers the line or is left to do so.
proof fn first_step<S>(
    before: AttendantProcessor<S>,
    line: Seq<char>,
    after: AttendantProcessor<S>,
    step: Step<S>,
)
    requires
        secretary::line_step(before, line, after, step),
    ensures
        match step.answer() {
            Some(answer) => exists|header: Seq<char>| #[trigger]
                heads(line, header) && answer.is_reply(header),
            None => step.unanswered() matches Some(header) && heads(line, header),
        },
        !(step is WaitLine),
{
    answers_are_replies();
    if exists|start: int, end: int| #[trigger] command::is_request(line, start, end) {
        let (start, end) = choose|start: int, end: int| #[trigger]
            command::is_request(line, start, end);
        let header = line.take(end);
        let name = line.subrange(start, end);
        let args = command::args_after(line, end);
        assert(heads(line, header));
        assert(heads(line, name));
        assert(secretary::command_step(before, header, name, args, after, step));
        if name == "get-line"@ {
            if exists|close: int| #[trigger] command::is_get_line(args, close) {
                let close = choose|close: int| #[trigger] command::is_get_line(args, close);
                assert(step.answer() is Some || step.unanswered() == Some(header));
            }
        } else if name == "guard-begin"@ {
            if exists|close: int| #[trigger] command::is_timed_regex(args, close) {
                let close = choose|close: int| #[trigger] command::is_timed_regex(args, close);
                assert(step.answer() is Some || step.unanswered() == Some(header));
            }
        } else if name == "guard-renew"@ {
            if exists|space: int| #[trigger] command::is_timed_id(args, space) {
                let space = choose|space: int| #[trigger] command::is_timed_id(args, space);
                assert(step.answer() is Some || step.unanswered() == Some(header));
            }
        } else if name == "filter-start"@ {
            if exists|close: int| #[trigger] command::is_filter_start(args, close) {
                let close = choose|close: int| #[trigger] command::is_filter_start(args, close);
                assert(step.answer() is Some || step.unanswered() == Some(header));
            }
        }
    } else {
        assert(heads(line, Seq::empty()));
    }
}

/// A step that follows answers what was left to be answered, or is left to do so.
proof fn next_step<S>(step: Step<S>, next: Step<S>)
    requires
        goes_on(step, next),
    ensures
        step.answer() is None,
        step.unanswered() matches Some(header) && match next.answer() {
            Some(answer) => answer.is_reply(header),
            None => next.unanswered() == Some(header),
        },
        step is WaitReady || step is WaitLine ==> next is Reply,
        step is Send ==> next is Reply || next is GuardStarted || next is WaitLine && !(
        step->pending is GuardBegin),
        step is OpenGuard ==> next is Send && next->pending is GuardBegin,
{
    answers_are_replies();
}

/// Each line of a client gets exactly one answer, in the form of a reply: `steps` are what is done
/// for the line, one after the other, whatever comes of what is waited for in between. None but the
/// last sends an answer, and the third at the latest does.
pub proof fn every_line_gets_one_answer<S>(
    before: AttendantProcessor<S>,
    line: Seq<char>,
    after: AttendantProcessor<S>,
    steps: Seq<Step<S>>,
)
    requires
        steps.len() > 0,
        secretary::line_step(before, line, after, steps[0]),
        forall|i: int| 0 <= i < steps.len() - 1 ==> goes_on(#[trigger] steps[i], steps[i + 1]),
    ensures
        steps.len() <= 3,
        forall|i: int| 0 <= i < steps.len() - 1 ==> (#[trigger] steps[i]).answer() is None,
        steps.len() == 3 ==> steps.last().answer() is Some,
        steps.last().answer() matches Some(answer) ==> exists|header: Seq<char>| #[trigger]
            heads(line, header) && answer.is_reply(header),
{
    first_step(before, line, after, steps[0]);
    if steps.len() > 1 {
        assert(goes_on(steps[0], steps[0int + 1]));
        next_step(steps[0], steps[1]);
        if steps.len() > 2 {
            assert(goes_on(steps[1], steps[1int + 1]));
            next_step(steps[1], steps[2]);
            if steps.len() > 3 {
                assert(goes_on(steps[2], steps[2int + 1]));
                next_step(steps[2], steps[3]);
            }
        }
    }
}

// === In order, up to the end ===

/// The lines that are written because of the events, in their order.
pub open spec fn lines_for(events: Seq<ConnectionEvent>) -> Seq<Seq<char>>
    decreases events.len(),
{
    if events.len() == 0 {
        Seq::empty()
    } else {
        match events.last().line() {
            Some(line) => lines_for(events.drop_last()).push(line),
            None => lines_for(events.drop_last()),
        }
    }
}

/// The lines that the actions write, in their order.
pub open spec fn lines_written(actions: Seq<ConnectionAction>) -> Seq<Seq<char>>
    decreases actions.len(),
{
    if actions.len() == 0 {
        Seq::empty()
    } else {
        match actions.last().line() {
            Some(line) => lines_written(actions.drop_last()).push(line),
            None => lines_written(actions.drop_last()),
        }
    }
}

/// A connection is served until it is closed: at each event the processor goes from `befores` to
/// `afters`. What other tasks do to it in between does not matter.
pub open spec fn is_served<S>(
    befores: Seq<AttendantProcessor<S>>,
    events: Seq<ConnectionEvent>,
    afters: Seq<AttendantProcessor<S>>,
    actions: Seq<ConnectionAction>,
) -> bool {
    &&& befores.len() == events.len()
    &&& afters.len() == events.len()
    &&& actions.len() == events.len()
    &&& forall|i: int|
        0 <= i < events.len() ==> secretary::connection_step(
            befores[i],
            #[trigger] events[i],
            afters[i],
            actions[i],
        )
    &&& forall|i: int| 0 <= i < events.len() - 1 ==> !(#[trigger] actions[i]).closes()
}

/// The actions write the lines for the events.
proof fn lines_correspond(events: Seq<ConnectionEvent>, actions: Seq<ConnectionAction>)
    requires
        events.len() == actions.len(),
        forall|i: int| 0 <= i < events.len() ==> actions[i].line() == (#[trigger] events[i]).line(),
    ensures
        lines_written(actions) == lines_for(events),
    decreases events.len(),
{
    if events.len() > 0 {
        let last = events.len() - 1;
        assert(actions[last].line() == events[last].line());
        assert forall|i: int| 0 <= i < last implies actions.drop_last()[i].line() == (
        #[trigger] events.drop_last()[i]).line() by {
            assert(actions[i].line() == events[i].line());
        }
        lines_correspond(events.drop_last(), actions.drop_last());
    }
}

/// The client gets every answer and every output of its filters in the order in which they come,
/// up to the first answer that closes the connection, and that one too. Nothing is written after
/// it. The receiver of a filter is dropped with the last output of the filter, and not before.
pub proof fn everything_is_written_in_order<S>(
    befores: Seq<AttendantProcessor<S>>,
    events: Seq<ConnectionEvent>,
    afters: Seq<AttendantProcessor<S>>,
    actions: Seq<ConnectionAction>,
)
    requires
        is_served(befores, events, afters, actions),
    ensures
        lines_written(actions) == lines_for(events),
        forall|i: int| 0 <= i < events.len() - 1 ==> !(#[trigger] events[i]).closes(),
        events.len() > 0 ==> actions.last().closes() == events.last().closes(),
        forall|i: int|
            0 <= i < events.len() ==> ((#[trigger] events[i]) matches ConnectionEvent::FilterOutput(
                filter_id,
                output,
            ) ==> afters[i].output_filters@ == if secretary::is_last_output(output) {
                befores[i].output_filters@.remove(filter_id)
            } else {
                befores[i].output_filters@
            }),
{
    assert forall|i: int| 0 <= i < events.len() implies actions[i].line() == (
    #[trigger] events[i]).line() by {}
    lines_correspond(events, actions);
    assert forall|i: int| 0 <= i < events.len() - 1 implies !(#[trigger] events[i]).closes() by {
        assert(!actions[i].closes());
    }
    if events.len() > 0 {
        assert(secretary::connection_step(
            befores[events.len() - 1],
            events[events.len() - 1],
            afters[events.len() - 1],
            actions[events.len() - 1],
        ));
    }
}

} // verus!
