//! What is done with each line that the server writes to its console.

use vstd::prelude::*;
use vstd::string::*;

use crate::console_line;
use crate::console_line::{
    is_chat, is_server_closed, is_server_ready, remove_timestamp, strip_prompt_escapes,
};
use crate::external;
use crate::filters::OutputFilter;
use crate::slang;
use crate::slang::{StringExt, VecExt};
use crate::text;

verus! {

// === Server status ===

/// What a message says of the server.
#[derive(Clone, Copy, Debug, PartialEq, Eq)]
pub enum StatusChange {
    /// Nothing new.
    Nothing,
    /// The server is ready. This is to be signalled on the ready channel.
    Ready,
    /// The server is closing. This is to be signalled on the closed channel.
    Closed,
}

/// State for the server status checker, with the channels on which a change is to be signalled.
pub struct ServerStatusChecker<S> {
    pub is_ready: bool,
    pub is_closed: bool,
    pub tx_ready: S,
    pub tx_closed: S,
}

impl<S> ServerStatusChecker<S> {
    /// What the message changes.
    pub open spec fn change(self, message: Seq<char>) -> StatusChange {
        if !self.is_ready && console_line::is_ready_line(message) {
            StatusChange::Ready
        } else if !self.is_closed && console_line::is_closed_line(message) {
            StatusChange::Closed
        } else {
            StatusChange::Nothing
        }
    }

    /// The checker after a message.
    pub open spec fn after(self, message: Seq<char>) -> Self {
        ServerStatusChecker {
            is_ready: self.is_ready || console_line::is_ready_line(message),
            is_closed: self.is_closed || console_line::is_closed_line(message),
            ..self
        }
    }

    /// The checker after these messages, one after the other.
    pub open spec fn after_all(self, messages: Seq<Seq<char>>) -> Self
        decreases messages.len(),
    {
        if messages.len() == 0 {
            self
        } else {
            self.after_all(messages.drop_last()).after(messages.last())
        }
    }

    /// What the `i`-th of these messages changes.
    pub open spec fn change_at(self, messages: Seq<Seq<char>>, i: int) -> StatusChange {
        self.after_all(messages.take(i)).change(messages[i])
    }

    /// Creates a new status checker with these channels.
    pub fn new(tx_ready: S, tx_closed: S) -> (checker: Self)
        ensures
            checker == (ServerStatusChecker {
                is_ready: false,
                is_closed: false,
                tx_ready: tx_ready,
                tx_closed: tx_closed,
            }),
    {
        ServerStatusChecker {
            is_ready: false,
            is_closed: false,
            tx_ready: tx_ready,
            tx_closed: tx_closed,
        }
    }

    /// Checks if the message matches a server ready or close. Returns what is to be signalled.
    pub fn check(&mut self, message: &str) -> (change: StatusChange)
        ensures
            *final(self) == old(self).after(message@),
            change == old(self).change(message@),
    {
        proof {
            ready_is_not_closed(message@);
        }
        if !self.is_ready && is_server_ready(message) {
            self.is_ready = true;
            StatusChange::Ready
        } else if !self.is_closed && is_server_closed(message) {
            self.is_closed = true;
            StatusChange::Closed
        } else {
            StatusChange::Nothing
        }
    }
}

/// No message says both that the server is ready and that it is closing.
proof fn ready_is_not_closed(message: Seq<char>)
    ensures
        !(console_line::is_ready_line(message) && console_line::is_closed_line(message)),
{
    reveal_strlit("Done (");
    reveal_strlit("Closing Server");
    if console_line::is_ready_line(message) {
        let close = choose|close: int| console_line::done_closes_at(message, close);
        assert(message.subrange(0, "Done ("@.len() as int)[0] == message[0]);
        assert("Done ("@[0] == 'D');
        assert("Closing Server"@[0] == 'C');
    }
}

/// The checker remembers exactly what the messages said.
proof fn status_is_remembered<S>(checker: ServerStatusChecker<S>, messages: Seq<Seq<char>>)
    ensures
        checker.after_all(messages).is_ready <==> checker.is_ready || exists|j: int|
            0 <= j < messages.len() && console_line::is_ready_line(#[trigger] messages[j]),
        checker.after_all(messages).is_closed <==> checker.is_closed || exists|j: int|
            0 <= j < messages.len() && console_line::is_closed_line(#[trigger] messages[j]),
    decreases messages.len(),
{
    if messages.len() > 0 {
        let rest = messages.drop_last();
        status_is_remembered(checker, rest);
        assert forall|j: int| 0 <= j < rest.len() implies #[trigger] rest[j] == messages[j] by {}
        if exists|j: int|
            0 <= j < messages.len() && console_line::is_ready_line(#[trigger] messages[j]) {
            let j = choose|j: int|
                0 <= j < messages.len() && console_line::is_ready_line(#[trigger] messages[j]);
            if j < rest.len() {
                assert(console_line::is_ready_line(rest[j]));
            }
        }
        if exists|j: int|
            0 <= j < messages.len() && console_line::is_closed_line(#[trigger] messages[j]) {
            let j = choose|j: int|
                0 <= j < messages.len() && console_line::is_closed_line(#[trigger] messages[j]);
            if j < rest.len() {
                assert(console_line::is_closed_line(rest[j]));
            }
        }
    }
}

/// Each status is signalled once, whatever the server says: on the first message that tells of it,
/// and on no other.
pub proof fn status_is_signalled_once<S>(
    checker: ServerStatusChecker<S>,
    messages: Seq<Seq<char>>,
    i: int,
)
    requires
        !checker.is_ready,
        !checker.is_closed,
        0 <= i < messages.len(),
    ensures
        checker.change_at(messages, i) is Ready <==> {
            &&& console_line::is_ready_line(messages[i])
            &&& forall|j: int| 0 <= j < i ==> !console_line::is_ready_line(#[trigger] messages[j])
        },
        checker.change_at(messages, i) is Closed <==> {
            &&& console_line::is_closed_line(messages[i])
            &&& forall|j: int| 0 <= j < i ==> !console_line::is_closed_line(#[trigger] messages[j])
        },
{
    let earlier = messages.take(i);
    status_is_remembered(checker, earlier);
    ready_is_not_closed(messages[i]);
    assert forall|j: int| 0 <= j < i implies #[trigger] messages[j] == earlier[j] by {}
}

/// No line that a player said passes for a status of the server.
pub proof fn chat_is_no_status(message: Seq<char>)
    requires
        console_line::is_chat_line(message),
    ensures
        !console_line::is_ready_line(message),
        !console_line::is_closed_line(message),
{
    reveal_strlit("Done (");
    reveal_strlit("Closing Server");
    let n = choose|n: int| console_line::starts_with_name(message, n);
    assert(message[0] == '<');
    assert("Done ("@[0] == 'D');
    assert("Closing Server"@[0] == 'C');
    if console_line::is_ready_line(message) {
        let close = choose|close: int| console_line::done_closes_at(message, close);
        assert(message.subrange(0, "Done ("@.len() as int)[0] == message[0]);
    }
}

// === Output lines ===

/// A line of the console, once it is processed.
pub struct OutputLine {
    /// The line without the prompts and escapes that it started with.
    pub raw: String,
    /// The message: the line without its timestamp, ending with a colour reset. None if there is
    /// no timestamp.
    pub message: Option<String>,
    /// What the message said of the server, to be signalled.
    pub status: StatusChange,
}

/// What checking each filter against a message does: those that stay are in their order.
pub open spec fn filters_checked(
    before: Seq<OutputFilter>,
    message: Seq<char>,
    chat: bool,
    after: Seq<OutputFilter>,
) -> bool {
    exists|checked: Seq<OutputFilter>, keep: Seq<bool>|
        {
            &&& checked.len() == before.len()
            &&& keep.len() == before.len()
            &&& forall|i: int|
                #[trigger] slang::within(checked, i) ==> checked[i].same_filter(before[i])
                    && OutputFilter::checked(
                    before[i],
                    message,
                    chat,
                    external::regex_is_match(before[i].regex, message),
                    checked[i],
                    keep[i],
                )
            &&& after == #[trigger] slang::kept(checked, keep)
        }
}

/// All the filters can be counted down.
pub open spec fn all_wf(filters: Seq<OutputFilter>) -> bool {
    forall|i: int| 0 <= i < filters.len() ==> (#[trigger] filters[i]).wf()
}

/// Checks if all the filters can be counted down.
pub fn can_run(filters: &Vec<OutputFilter>) -> (can: bool)
    ensures
        can == all_wf(filters@),
{
    for i in 0..filters.len()
        invariant
            forall|j: int| 0 <= j < i ==> (#[trigger] filters@[j]).wf(),
    {
        if !filters[i].can_count() {
            return false;
        }
    }
    true
}

/// What is kept of filters that are fit to be kept is fit.
proof fn kept_are_wf(filters: Seq<OutputFilter>, keep: Seq<bool>)
    requires
        filters.len() == keep.len(),
        forall|i: int| 0 <= i < filters.len() && keep[i] ==> (#[trigger] filters[i]).wf(),
    ensures
        all_wf(slang::kept(filters, keep)),
    decreases filters.len(),
{
    if filters.len() > 0 {
        kept_are_wf(filters.drop_last(), keep.drop_last());
    }
}

/// Runs the output filters against a message, and removes those that are completed.
pub fn run_output_filters(filters: &mut Vec<OutputFilter>, message: &str, chat: bool)
    requires
        all_wf(old(filters)@),
    ensures
        filters_checked(old(filters)@, message@, chat, final(filters)@),
        all_wf(final(filters)@),
{
    let check = |filter: &mut OutputFilter| -> (keep: bool)
        requires
            old(filter).wf(),
        ensures
            final(filter).same_filter(*old(filter)),
            OutputFilter::checked(
                *old(filter),
                message@,
                chat,
                external::regex_is_match(old(filter).regex, message@),
                *final(filter),
                keep,
            ),
            keep ==> final(filter).wf(),
        { filter.check(message, chat) };
    let _ = filters.map_retain(check);
    proof {
        let (checked, keep) = choose|checked: Seq<OutputFilter>, keep: Seq<bool>|
            {
                &&& checked.len() == old(filters)@.len()
                &&& keep.len() == old(filters)@.len()
                &&& forall|i: int|
                    #[trigger] slang::within(checked, i) ==> exists|x: &mut OutputFilter|
                        *x == old(filters)@[i] && *final(x) == checked[i]
                            && #[trigger] check.ensures((x,), keep[i])
                &&& filters@ == #[trigger] slang::kept(checked, keep)
            };
        assert forall|i: int| 0 <= i < checked.len() && keep[i] implies (
        #[trigger] checked[i]).wf() by {
            assert(slang::within(checked, i));
        }
        kept_are_wf(checked, keep);
    }
}

/// `message` as the filters and clients get it: the colour is reset at its end.
pub open spec fn with_colour_reset(message: Seq<char>) -> Seq<char> {
    slang::ending_with(message, "\x1B[m"@)
}

/// Processes a line of the console: checks what it says of the server, and runs the output filters
/// against its message. A line without a timestamp has no message.
pub fn process_line<S>(
    line: &str,
    filters: &mut Vec<OutputFilter>,
    checker: &mut ServerStatusChecker<S>,
) -> (output: OutputLine)
    requires
        all_wf(old(filters)@),
    ensures
        all_wf(final(filters)@),
        output.raw@ == console_line::without_prompt_escapes(line@),
        match output.message {
            Some(message) => exists|open: int, close: int|
                {
                    let said = console_line::message_between(output.raw@, open, close);
                    let chat = console_line::is_chat_line(said);
                    &&& #[trigger] console_line::has_timestamp(output.raw@, open, close)
                    &&& message@ == with_colour_reset(said)
                    &&& filters_checked(old(filters)@, message@, chat, final(filters)@)
                    &&& if chat {
                        output.status is Nothing && *final(checker) == *old(checker)
                    } else {
                        output.status == old(checker).change(said) && *final(checker)
                            == old(checker).after(said)
                    }
                },
            None => {
                &&& forall|open: int, close: int|
                    !console_line::has_timestamp(output.raw@, open, close)
                &&& output.status is Nothing
                &&& *final(filters) == *old(filters)
                &&& *final(checker) == *old(checker)
            },
        },
{
    let raw = strip_prompt_escapes(line).to_owned();
    match remove_timestamp(raw.as_str()) {
        Some(said) => {
            let chat = is_chat(said.as_str());
            let ghost spoken = said@;
            // Chat messages never match a server status line
            let status = if chat {
                StatusChange::Nothing
            } else {
                checker.check(said.as_str())
            };
            let mut message = said;
            message.now_ends_with("\x1B[m");
            run_output_filters(filters, message.as_str(), chat);
            proof {
                let (open, close) = choose|open: int, close: int|
                    #[trigger] console_line::has_timestamp(raw@, open, close) && spoken
                        == console_line::message_between(raw@, open, close);
                assert(console_line::has_timestamp(raw@, open, close));
                assert(message@ == with_colour_reset(console_line::message_between(
                    raw@,
                    open,
                    close,
                )));
            }
            OutputLine { raw: raw, message: Some(message), status: status }
        },
        None => OutputLine { raw: raw, message: None, status: StatusChange::Nothing },
    }
}

/// Every filter is checked against a message, once each, and those that are to be kept stay in
/// their order: `from` are the places at which those that stay stood before. The others are gone
/// because their check said so.
pub proof fn every_filter_is_checked(
    before: Seq<OutputFilter>,
    message: Seq<char>,
    chat: bool,
    after: Seq<OutputFilter>,
) -> (from: Seq<int>)
    requires
        filters_checked(before, message, chat, after),
    ensures
        from.len() == after.len(),
        forall|j: int, k: int| 0 <= j < k < from.len() ==> #[trigger] from[j] < #[trigger] from[k],
        forall|k: int|
            0 <= k < from.len() ==> {
                &&& 0 <= #[trigger] from[k] < before.len()
                &&& OutputFilter::checked(
                    before[from[k]],
                    message,
                    chat,
                    external::regex_is_match(before[from[k]].regex, message),
                    after[k],
                    true,
                )
            },
        forall|i: int|
            0 <= i < before.len() && !from.contains(i) ==> exists|gone: OutputFilter|
                OutputFilter::checked(
                    #[trigger] before[i],
                    message,
                    chat,
                    external::regex_is_match(before[i].regex, message),
                    gone,
                    false,
                ),
{
    let (checked, keep) = choose|checked: Seq<OutputFilter>, keep: Seq<bool>|
        {
            &&& checked.len() == before.len()
            &&& keep.len() == before.len()
            &&& forall|i: int|
                #[trigger] slang::within(checked, i) ==> checked[i].same_filter(before[i])
                    && OutputFilter::checked(
                    before[i],
                    message,
                    chat,
                    external::regex_is_match(before[i].regex, message),
                    checked[i],
                    keep[i],
                )
            &&& after == #[trigger] slang::kept(checked, keep)
        };
    let from = slang::kept_values_come_from(checked, keep);
    assert forall|k: int| 0 <= k < from.len() implies {
        &&& 0 <= #[trigger] from[k] < before.len()
        &&& OutputFilter::checked(
            before[from[k]],
            message,
            chat,
            external::regex_is_match(before[from[k]].regex, message),
            after[k],
            true,
        )
    } by {
        assert(slang::within(checked, from[k]));
    }
    assert forall|i: int| 0 <= i < before.len() && !from.contains(i) implies exists|
        gone: OutputFilter,
    |
        OutputFilter::checked(
            #[trigger] before[i],
            message,
            chat,
            external::regex_is_match(before[i].regex, message),
            gone,
            false,
        ) by {
        assert(slang::within(checked, i));
        assert(!keep[i]);
    }
    from
}

/// The filters and the clients get the whole message, and after it the three characters that reset
/// the colour, unless it ends with them already.
pub proof fn the_whole_message_is_passed_on(message: Seq<char>)
    ensures
        message.is_prefix_of(with_colour_reset(message)),
        with_colour_reset(message) == message || with_colour_reset(message) == message + seq![
            '\x1B',
            '[',
            'm',
        ],
        with_colour_reset(message).len() >= 3,
        with_colour_reset(message)[with_colour_reset(message).len() - 3] == '\x1B',
        with_colour_reset(message)[with_colour_reset(message).len() - 2] == '[',
        with_colour_reset(message).last() == 'm',
{
    reveal_strlit("\x1B[m");
    let reset = seq!['\x1B', '[', 'm'];
    assert("\x1B[m"@ =~= reset);
    slang::at_most_the_suffix_is_added(message, reset);
    slang::ending_with_is_idempotent(message, reset);
    let all = with_colour_reset(message);
    text::a_part_stands_where_its_characters_do(all, reset, all.len() - 3);
    assert(all[all.len() - 3 + 0] == reset[0]);
    assert(all[all.len() - 3 + 1] == reset[1]);
    assert(all[all.len() - 3 + 2] == reset[2]);
}

/// Every filter can be run against the output unless one of its limits is the least number that
/// there is.
pub proof fn almost_all_filters_can_run(filters: Seq<OutputFilter>)
    ensures
        all_wf(filters) <==> forall|i: int|
            0 <= i < filters.len() ==> (#[trigger] filters[i]).count != Some(i32::MIN)
                && filters[i].fail != Some(i32::MIN),
{
    if all_wf(filters) {
        assert forall|i: int| 0 <= i < filters.len() implies (#[trigger] filters[i]).count != Some(
            i32::MIN,
        ) && filters[i].fail != Some(i32::MIN) by {
            assert(filters[i].wf());
        }
    }
}

} // verus!
