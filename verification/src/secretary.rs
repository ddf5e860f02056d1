//! Handles the commands of the clients on the socket.
//!
//! Replies look like this:
//!
//! ```text
//! ready: ok
//! [5] slash: ok
//! get-line: ok There are 0 of max 20 players online
//! guard-begin: ok 2
//! guard-renew: error no such guard
//! cya: ok
//!
//! filter 5: ok <pashiin> hi
//! guard 2: error expired
//! ```
//!
//! A processor decides what a command comes to. Waiting for the server, for the request handler and
//! for lines of the console belongs to whoever runs it: each step says what to wait for, and what
//! came of it is handed back.

use std::collections::HashMap;
use std::sync::Arc;

use regex::Regex;
use tokio::sync::broadcast;
use vstd::prelude::*;
use vstd::string::*;

use crate::command;
use crate::command::{
    filter_start_args, get_line_args, guard_begin_args, guard_renew_args, is_filter_id,
    number_up_to, parse_request, FilterOptions,
};
use crate::external;
use crate::filters::{FilterOutput, InputFilter, OurInputFilter, OutputFilter};
use crate::ids;
use crate::ids::{guard_key, IdGenerator};
use crate::minecraft::{AttendantCommand, AttendantRequest};
use crate::text;
use crate::util::strip_trailing_ascii_space;

verus! {

broadcast use vstd::std_specs::hash::group_hash_axioms;

/// How long a guard lasts by default, in seconds.
pub const GUARD_TIMEOUT_SECS: u64 = 15;

/// How much memory a client's regex can take once it is compiled, in bytes.
pub const REGEX_SIZE_LIMIT: usize = 0x10_0000;

/// The regex that a client's pattern compiles to. None if it is malformed or too expensive.
pub open spec fn compiled(pattern: Seq<char>) -> Option<Regex> {
    external::regex_built(pattern, REGEX_SIZE_LIMIT as nat, usize::BITS as nat)
}

// === Answers ===

/// What the attendant sends to the client.
#[derive(Debug)]
pub struct AttendantAnswer {
    /// The line to send. It ends with a newline.
    pub line: String,
    /// If we should close the connection.
    pub end_connection: bool,
}

/// `line` as it is sent: without trailing whitespace, and with a newline.
pub open spec fn sent_line(line: Seq<char>) -> Seq<char> {
    text::without_trailing_space(line).push('\n')
}

/// A reply to the command `header`.
pub open spec fn reply_line(header: Seq<char>, status: Seq<char>, message: Seq<char>) -> Seq<char> {
    header + ": "@ + status + " "@ + message
}

/// A status that a command can have.
pub open spec fn is_status(status: Seq<char>) -> bool {
    status == "ok"@ || status == "error"@ || status == "bail"@
}

/// The form of a reply: the header, a colon, the status, and the message if there is any.
pub open spec fn replied(header: Seq<char>, status: Seq<char>, message: Seq<char>) -> Seq<char> {
    header + ": "@ + status + (if message.len() == 0 {
        Seq::empty()
    } else {
        " "@ + message
    }) + "\n"@
}

/// What is left of `s` ends in no whitespace.
proof fn trimmed_end_is_clean(s: Seq<char>)
    ensures
        ({
            let t = text::without_trailing_space(s);
            t.len() > 0 ==> !text::is_hspace_or_newline(t.last())
        }),
    decreases s.len(),
{
    if s.len() > 0 && text::is_hspace_or_newline(s.last()) {
        trimmed_end_is_clean(s.drop_last());
    }
}

/// Taking whitespace off the end reaches the first part only if nothing is left of the second.
proof fn trimming_from_the_end(a: Seq<char>, b: Seq<char>)
    ensures
        text::without_trailing_space(a + b) == if text::without_trailing_space(b).len() == 0 {
            text::without_trailing_space(a)
        } else {
            a + text::without_trailing_space(b)
        },
    decreases b.len(),
{
    if b.len() == 0 {
        assert(a + b =~= a);
    } else {
        assert((a + b).last() == b.last());
        if text::is_hspace_or_newline(b.last()) {
            assert((a + b).drop_last() =~= a + b.drop_last());
            trimming_from_the_end(a, b.drop_last());
        }
    }
}

/// Every answer is one that ends with a newline, and with no other whitespace before it.
pub proof fn answer_ends_with_one_newline(line: Seq<char>)
    ensures
        sent_line(line).last() == '\n',
        sent_line(line).len() > 1 ==> !text::is_hspace_or_newline(
            sent_line(line)[sent_line(line).len() - 2],
        ),
{
    trimmed_end_is_clean(line);
}

/// Every reply has the form of a reply, trailing whitespace of the message aside.
pub proof fn reply_has_the_form_of_a_reply(
    header: Seq<char>,
    status: Seq<char>,
    message: Seq<char>,
)
    requires
        is_status(status),
    ensures
        sent_line(reply_line(header, status, message)) == replied(
            header,
            status,
            text::without_trailing_space(message),
        ),
{
    reveal_strlit("ok");
    reveal_strlit("error");
    reveal_strlit("bail");
    reveal_strlit(" ");
    reveal_strlit("\n");
    let start = header + ": "@ + status;
    let trimmed = text::without_trailing_space(message);
    trimming_from_the_end(start + " "@, message);
    assert((start + " "@).drop_last() =~= start);
    assert(start.last() == status.last());
    assert(text::without_trailing_space(start) == start);
    if trimmed.len() == 0 {
        assert(sent_line(reply_line(header, status, message)) =~= start + Seq::empty() + "\n"@);
    } else {
        assert(sent_line(reply_line(header, status, message)) =~= start + (" "@ + trimmed) + "\n"@);
    }
}

impl AttendantAnswer {
    /// The answer says this, and closes the connection or not.
    pub open spec fn says(self, line: Seq<char>, end_connection: bool) -> bool {
        self.line@ == sent_line(line) && self.end_connection == end_connection
    }

    /// A reply that the command succeeded.
    pub open spec fn is_ok(self, header: Seq<char>, message: Seq<char>) -> bool {
        self.says(reply_line(header, "ok"@, message), false)
    }

    /// A reply that the command failed.
    pub open spec fn is_error(self, header: Seq<char>, message: Seq<char>) -> bool {
        self.says(reply_line(header, "error"@, message), false)
    }

    /// A reply that closes the connection.
    pub open spec fn is_bail(self, header: Seq<char>, message: Seq<char>) -> bool {
        self.says(reply_line(header, "bail"@, message), true)
    }

    /// A reply that the command succeeded, which closes the connection.
    pub open spec fn is_farewell(self, header: Seq<char>) -> bool {
        self.says(reply_line(header, "ok"@, ""@), true)
    }

    /// A reply to the command `header` in the form that clients know. One that bails closes the
    /// connection, and an error does not.
    pub open spec fn is_reply(self, header: Seq<char>) -> bool {
        exists|status: Seq<char>, message: Seq<char>|
            {
                &&& self.line@ == #[trigger] replied(header, status, message)
                &&& is_status(status)
                &&& status == "bail"@ ==> self.end_connection
                &&& status == "error"@ ==> !self.end_connection
            }
    }

    /// Creates a normal answer without trailing whitespace.
    pub fn new(line: String) -> (answer: Self)
        ensures
            answer.says(line@, false),
    {
        AttendantAnswer { line: to_be_sent(line.as_str()), end_connection: false }
    }

    /// Creates a closing answer without trailing whitespace.
    pub fn closed(line: String) -> (answer: Self)
        ensures
            answer.says(line@, true),
    {
        AttendantAnswer { line: to_be_sent(line.as_str()), end_connection: true }
    }
}

/// The line as it is sent.
fn to_be_sent(line: &str) -> (sent: String)
    ensures
        sent@ == sent_line(line@),
{
    let mut sent = strip_trailing_ascii_space(line).to_owned();
    proof {
        reveal_strlit("\n");
    }
    sent.append("\n");
    assert(sent@ =~= sent_line(line@));
    sent
}

/// A reply before it is made ready to be sent.
fn reply(header: &str, status: &str, message: &str) -> (line: String)
    ensures
        line@ == reply_line(header@, status@, message@),
{
    let mut line = header.to_owned();
    line.append(": ");
    line.append(status);
    line.append(" ");
    line.append(message);
    line
}

/// Formatted ok client answer.
pub fn reply_ok(command: &str, msg: &str) -> (answer: AttendantAnswer)
    ensures
        answer.is_ok(command@, msg@),
{
    AttendantAnswer::new(reply(command, "ok", msg))
}

/// Formatted error client answer.
pub fn reply_err(command: &str, msg: &str) -> (answer: AttendantAnswer)
    ensures
        answer.is_error(command@, msg@),
{
    AttendantAnswer::new(reply(command, "error", msg))
}

/// Formatted bail client answer that closes the connection.
pub fn reply_bail(command: &str, msg: &str) -> (answer: AttendantAnswer)
    ensures
        answer.is_bail(command@, msg@),
{
    AttendantAnswer::closed(reply(command, "bail", msg))
}

/// Formatted ok client answer that closes the connection.
pub fn reply_farewell(command: &str) -> (answer: AttendantAnswer)
    ensures
        answer.is_farewell(command@),
{
    AttendantAnswer::closed(reply(command, "ok", ""))
}

// === Output of filters ===

/// Why no output could be received from a filter.
#[derive(Clone, Copy, Debug, PartialEq, Eq)]
pub enum RecvFailure {
    /// The client was too slow: this many outputs are lost.
    Lagged(u64),
    /// The filter is gone.
    Closed,
}

/// What the client is told of the output of a filter.
pub open spec fn filter_message(output: Result<FilterOutput, RecvFailure>) -> Seq<char> {
    match output {
        Ok(FilterOutput::Line(line)) => "ok "@ + line@,
        Err(RecvFailure::Lagged(count)) => "error lagged "@ + text::decimal(count as nat),
        Ok(FilterOutput::Expired) => "ok done"@,
        Err(RecvFailure::Closed) => "ok done"@,
    }
}

/// The line that tells the client of the output of a filter.
pub open spec fn filter_line(filter_id: u32, output: Result<FilterOutput, RecvFailure>) -> Seq<
    char,
> {
    "filter "@ + text::decimal(filter_id as nat) + ": "@ + filter_message(output) + "\n"@
}

/// Nothing more will come from the filter.
pub open spec fn is_last_output(output: Result<FilterOutput, RecvFailure>) -> bool {
    output matches Ok(FilterOutput::Expired) || output matches Err(RecvFailure::Closed)
}

/// Formatted string for filter output. Also returns whether to remove the receiver or not.
pub fn filter_reply(filter_id: u32, output: Result<FilterOutput, RecvFailure>) -> (reply: (
    String,
    bool,
))
    ensures
        reply.0@ == filter_line(filter_id, output),
        reply.1 == is_last_output(output),
{
    let mut line = "filter ".to_owned();
    line.append(text::decimal_text(filter_id as u64).as_str());
    line.append(": ");
    let ghost start = line@;
    let remove_rx = match output {
        Ok(FilterOutput::Line(s)) => {
            line.append("ok ");
            line.append(s.as_str());
            assert(line@ =~= start + ("ok "@ + s@));
            false
        },
        Err(RecvFailure::Lagged(count)) => {
            let count_text = text::decimal_text(count);
            line.append("error lagged ");
            line.append(count_text.as_str());
            assert(line@ =~= start + ("error lagged "@ + count_text@));
            false
        },
        Ok(FilterOutput::Expired) | Err(RecvFailure::Closed) => {
            line.append("ok done");
            true
        },
    };
    line.append("\n");
    (line, remove_rx)
}

// === Steps ===

/// What is left to do for a command once its request was handled.
pub enum Pending<S> {
    /// Tell the client.
    Slash,
    /// Wait for the line.
    GetLine { rx: broadcast::Receiver<FilterOutput> },
    /// Keep the guard, and tell the client its id.
    GuardBegin { filter: OurInputFilter<S> },
    /// Tell the client the id again.
    GuardRenew { filter_id: String },
    /// Keep the receiver, and tell the client its id.
    FilterStart { rx: broadcast::Receiver<FilterOutput> },
}

/// The next thing to do for a command.
pub enum Step<S> {
    /// Send this answer. That is all.
    Reply(AttendantAnswer),
    /// Wait for the server to be ready, then go on with `server_ready`.
    WaitReady { header: String },
    /// Open a channel for the guard's expiration, then go on with `open_guard`.
    OpenGuard { header: String, regex: Regex, seconds: u64 },
    /// Send the command to the request handler and wait until it is done, then go on with
    /// `request_sent`.
    Send { header: String, command: AttendantCommand<S>, pending: Pending<S> },
    /// Wait for an output of the filter, then go on with `line_received`.
    WaitLine { header: String, rx: broadcast::Receiver<FilterOutput> },
    /// Send this answer, and wait for the guard to expire, then go on with `guard_expired`.
    GuardStarted { answer: AttendantAnswer, filter_id: u32 },
}

/// What came of sending a request to the request handler.
#[derive(Clone, Copy, Debug, PartialEq, Eq)]
pub enum SendOutcome {
    /// It was handled.
    Done,
    /// There is no request handler any more.
    NotSent,
    /// The request handler dropped it.
    NotHandled,
}

impl<S> Step<S> {
    /// Reply that the command succeeded.
    pub open spec fn replies_ok(self, header: Seq<char>, message: Seq<char>) -> bool {
        self matches Step::Reply(answer) && answer.is_ok(header, message)
    }

    /// Reply that the command failed.
    pub open spec fn replies_error(self, header: Seq<char>, message: Seq<char>) -> bool {
        self matches Step::Reply(answer) && answer.is_error(header, message)
    }

    /// Send a console command.
    pub open spec fn sends_slash(self, header: Seq<char>, slash: Seq<char>) -> bool {
        self matches Step::Send {
            header: h,
            command: AttendantCommand::SendCommand(s),
            pending: Pending::Slash,
        } && h@ == header && s@ == slash
    }

    /// Send a console command with a filter for its first matching line.
    pub open spec fn sends_get_line(
        self,
        header: Seq<char>,
        regex: Regex,
        slash: Seq<char>,
    ) -> bool {
        self matches Step::Send {
            header: h,
            command: AttendantCommand::GetLine(s, filter),
            pending: Pending::GetLine { rx },
        } && h@ == header && s@ == slash && is_new_filter(filter, regex, Some(1), Some(64), true)
            && filter.feeds(rx)
    }

    /// Open a guard.
    pub open spec fn opens_guard(self, header: Seq<char>, regex: Regex, seconds: u64) -> bool {
        self matches Step::OpenGuard { header: h, regex: r, seconds: s } && h@ == header && r
            == regex && s == seconds
    }

    /// Renew a guard.
    pub open spec fn sends_renewal(
        self,
        header: Seq<char>,
        filter: OurInputFilter<S>,
        seconds: u64,
        filter_id: Seq<char>,
    ) -> bool {
        self matches Step::Send {
            header: h,
            command: AttendantCommand::RenewGuard(f, s),
            pending: Pending::GuardRenew { filter_id: id },
        } && h@ == header && f == filter && s == seconds && id@ == filter_id
    }

    /// Add an output filter.
    pub open spec fn sends_filter(
        self,
        header: Seq<char>,
        regex: Regex,
        options: FilterOptions,
    ) -> bool {
        self matches Step::Send {
            header: h,
            command: AttendantCommand::AddOutputFilter(filter),
            pending: Pending::FilterStart { rx },
        } && h@ == header && is_new_filter(
            filter,
            regex,
            options.count,
            options.fail,
            options.ignore_chat,
        ) && filter.feeds(rx)
    }
}

/// A filter with these options that has sent nothing yet, whose channel retains 16 outputs.
pub open spec fn is_new_filter(
    filter: OutputFilter,
    regex: Regex,
    count: Option<i32>,
    fail: Option<i32>,
    ignore_chat: bool,
) -> bool {
    &&& filter.regex == regex
    &&& filter.count == count
    &&& filter.fail == fail
    &&& filter.ignore_chat == ignore_chat
    &&& filter.offers() == Seq::<(Option<Seq<char>>, bool)>::empty()
    &&& external::rounded_capacity(16, external::broadcast_capacity(filter.chan))
}

// === What the commands come to ===

/// What `get-line` comes to.
pub open spec fn get_line_step<S>(header: Seq<char>, args: Seq<char>, step: Step<S>) -> bool {
    &&& (forall|close: int| !#[trigger] command::is_get_line(args, close)) ==> step.replies_error(
        header,
        "invalid arguments"@,
    )
    &&& forall|close: int| #[trigger]
        command::is_get_line(args, close) ==> match compiled(args.subrange(3, close)) {
            Some(regex) => step.sends_get_line(header, regex, args.skip(close + 3)),
            None => step.replies_error(header, "invalid or expensive regex"@),
        }
}

/// What a guard with this duration comes to.
pub open spec fn guard_step<S>(
    header: Seq<char>,
    regex: Regex,
    seconds: Option<Seq<char>>,
    step: Step<S>,
) -> bool {
    match seconds {
        Some(digits) => if text::number_value(digits) <= u64::MAX {
            step.opens_guard(header, regex, text::number_value(digits) as u64)
        } else {
            step.replies_error(header, "invalid duration"@)
        },
        None => step.opens_guard(header, regex, GUARD_TIMEOUT_SECS),
    }
}

/// What a guard with this pattern and duration comes to.
pub open spec fn guard_pattern_step<S>(
    header: Seq<char>,
    pattern: Seq<char>,
    seconds: Option<Seq<char>>,
    step: Step<S>,
) -> bool {
    match compiled(pattern) {
        Some(regex) => guard_step(header, regex, seconds, step),
        None => step.replies_error(header, "invalid or expensive regex"@),
    }
}

/// What `guard-begin` comes to.
pub open spec fn guard_begin_step<S>(header: Seq<char>, args: Seq<char>, step: Step<S>) -> bool {
    &&& command::is_lone_regex(args) ==> guard_pattern_step(
        header,
        args.subrange(3, args.len() - 2),
        None,
        step,
    )
    &&& forall|close: int| #[trigger]
        command::is_timed_regex(args, close) ==> guard_pattern_step(
            header,
            args.subrange(3, close),
            Some(args.subrange(close + 3, args.len() - 1)),
            step,
        )
    &&& !command::is_lone_regex(args) && (forall|close: int|
        !#[trigger] command::is_timed_regex(args, close)) ==> step.replies_error(
        header,
        "invalid arguments"@,
    )
}

/// What renewing the guard with this id comes to. `seconds` are the digits of the duration, if any.
pub open spec fn renewal_step<S>(
    guards: Map<u32, OurInputFilter<S>>,
    header: Seq<char>,
    id: Seq<char>,
    seconds: Option<Seq<char>>,
    step: Step<S>,
) -> bool {
    let filter_id = text::number_value(id);
    let duration = match seconds {
        Some(digits) => text::number_value(digits),
        None => GUARD_TIMEOUT_SECS as nat,
    };
    if filter_id > u32::MAX {
        step.replies_error(header, "invalid filter id"@)
    } else if duration > u64::MAX {
        step.replies_error(header, "invalid duration"@)
    } else if !guards.contains_key(filter_id as u32) {
        step.replies_error(header, "no such guard"@)
    } else {
        step.sends_renewal(header, guards[filter_id as u32], duration as u64, id)
    }
}

/// What `guard-renew` comes to.
pub open spec fn guard_renew_step<S>(
    guards: Map<u32, OurInputFilter<S>>,
    header: Seq<char>,
    args: Seq<char>,
    step: Step<S>,
) -> bool {
    &&& text::is_number(args) ==> renewal_step(guards, header, args, None, step)
    &&& forall|space: int| #[trigger]
        command::is_timed_id(args, space) ==> renewal_step(
            guards,
            header,
            args.take(space),
            Some(args.subrange(space + 1, args.len() - 1)),
            step,
        )
    &&& !text::is_number(args) && (forall|space: int| !#[trigger] command::is_timed_id(args, space))
        ==> step.replies_error(header, "invalid arguments"@)
}

/// What taking the id `args` out of a set of ids comes to: `before` and `after` are what is kept
/// under the ids, `missing` is the message if there is no such id.
pub open spec fn removal_step<V, S>(
    before: Map<u32, V>,
    header: Seq<char>,
    args: Seq<char>,
    missing: Seq<char>,
    after: Map<u32, V>,
    step: Step<S>,
) -> bool {
    let filter_id = text::number_value(args);
    if !text::is_number(args) {
        step.replies_error(header, "invalid arguments"@) && after == before
    } else if filter_id > u32::MAX {
        step.replies_error(header, "invalid filter id"@) && after == before
    } else if !before.contains_key(filter_id as u32) {
        step.replies_error(header, missing) && after == before
    } else {
        step.replies_ok(header, args) && after == before.remove(filter_id as u32)
    }
}

/// What `filter-start` comes to.
pub open spec fn filter_start_step<S>(header: Seq<char>, args: Seq<char>, step: Step<S>) -> bool {
    &&& (forall|close: int| !#[trigger] command::is_filter_start(args, close))
        ==> step.replies_error(header, "invalid arguments"@)
    &&& forall|close: int| #[trigger]
        command::is_filter_start(args, close) ==> match compiled(args.subrange(3, close)) {
            Some(regex) => step.sends_filter(
                header,
                regex,
                command::options_from(args, close + 2, command::no_options())->0,
            ),
            None => step.replies_error(header, "invalid or expensive regex"@),
        }
}

// === The processor ===

/// Processes the commands of one client.
pub struct AttendantProcessor<S> {
    /// Identifies the attendant.
    pub id: u32,
    /// The guards that the client thinks are active.
    pub input_filters: HashMap<u32, OurInputFilter<S>>,
    /// Where the output of the client's filters arrives.
    pub output_filters: HashMap<u32, broadcast::Receiver<FilterOutput>>,
    /// Hands out the ids of guards and filters.
    pub request_ids: IdGenerator,
    /// Counts the guards.
    pub guard_ids: IdGenerator,
}

/// What a command comes to, given its parts: `before` and `after` are the processor.
pub open spec fn command_step<S>(
    before: AttendantProcessor<S>,
    header: Seq<char>,
    name: Seq<char>,
    args: Seq<char>,
    after: AttendantProcessor<S>,
    step: Step<S>,
) -> bool {
    if name == "guard-end"@ {
        removal_step(
            before.input_filters@,
            header,
            args,
            "no such guard"@,
            after.input_filters@,
            step,
        ) && after == (AttendantProcessor { input_filters: after.input_filters, ..before })
    } else if name == "filter-stop"@ {
        removal_step(
            before.output_filters@,
            header,
            args,
            "no such filter"@,
            after.output_filters@,
            step,
        ) && after == (AttendantProcessor { output_filters: after.output_filters, ..before })
    } else {
        &&& after == before
        &&& if name == "ready"@ {
            step matches Step::WaitReady { header: h } && h@ == header
        } else if name == "slash"@ {
            if args.len() == 0 {
                step.replies_error(header, "missing command"@)
            } else {
                step.sends_slash(header, args)
            }
        } else if name == "get-line"@ {
            get_line_step(header, args, step)
        } else if name == "guard-begin"@ {
            guard_begin_step(header, args, step)
        } else if name == "guard-renew"@ {
            guard_renew_step(before.input_filters@, header, args, step)
        } else if name == "filter-start"@ {
            filter_start_step(header, args, step)
        } else if name == "cya"@ {
            step matches Step::Reply(answer) && answer.is_farewell(header)
        } else {
            step.replies_error(name, "unknown command"@)
        }
    }
}

/// What a line from the client comes to.
pub open spec fn line_step<S>(
    before: AttendantProcessor<S>,
    line: Seq<char>,
    after: AttendantProcessor<S>,
    step: Step<S>,
) -> bool {
    &&& (forall|start: int, end: int| !#[trigger] command::is_request(line, start, end)) ==> after
        == before && step.replies_error(Seq::empty(), "invalid request"@)
    &&& forall|start: int, end: int| #[trigger]
        command::is_request(line, start, end) ==> command_step(
            before,
            line.take(end),
            line.subrange(start, end),
            command::args_after(line, end),
            after,
            step,
        )
}

/// What `ready` is answered once the server is ready, or (None) nobody can tell.
pub open spec fn ready_answer(
    header: Seq<char>,
    ready: Option<()>,
    answer: AttendantAnswer,
) -> bool {
    match ready {
        Some(_) => answer.is_ok(header, ""@),
        None => answer.is_bail(header, "unknown server status"@),
    }
}

/// What `get-line` is answered once there is an output of the filter, or (None) none will come.
pub open spec fn line_answer(
    header: Seq<char>,
    output: Option<FilterOutput>,
    answer: AttendantAnswer,
) -> bool {
    match output {
        Some(FilterOutput::Line(line)) => answer.is_ok(header, line@),
        _ => answer.is_error(header, "line not found"@),
    }
}

/// What `guard-begin` comes to once there is a channel for the guard's expiration.
pub open spec fn guard_opening<S>(
    before: AttendantProcessor<S>,
    header: Seq<char>,
    regex: Regex,
    seconds: u64,
    expired: S,
    after: AttendantProcessor<S>,
    step: Step<S>,
) -> bool {
    &&& step matches Step::Send {
        header: h,
        command: AttendantCommand::StartGuard(filter, s),
        pending: Pending::GuardBegin { filter: kept },
    }
    &&& h@ == header
    &&& s == seconds
    &&& kept == filter
    &&& *filter.0 == (InputFilter {
        regex: regex,
        expired: expired,
        client_id: before.id,
        key: ids::key_of(before.id, before.guard_ids.next),
    })
    &&& after == (AttendantProcessor {
        guard_ids: IdGenerator { next: ids::id_after(before.guard_ids.next, 1) },
        ..before
    })
}

/// What a command comes to once its request was sent.
pub open spec fn sent_step<S>(
    before: AttendantProcessor<S>,
    header: Seq<char>,
    outcome: SendOutcome,
    pending: Pending<S>,
    after: AttendantProcessor<S>,
    step: Step<S>,
) -> bool {
    let id = before.request_ids.next;
    let next = IdGenerator { next: ids::id_after(id, 1) };
    match outcome {
        SendOutcome::NotSent => step.replies_error(header, "server stopped handling commands"@)
            && after == before,
        SendOutcome::NotHandled => step.replies_error(header, "command was not handled"@) && after
            == before,
        SendOutcome::Done => match pending {
            Pending::Slash => step.replies_ok(header, ""@) && after == before,
            Pending::GetLine { rx } => step matches Step::WaitLine { header: h, rx: waiting } && h@
                == header && waiting == rx && after == before,
            Pending::GuardBegin { filter } => {
                &&& step matches Step::GuardStarted { answer, filter_id }
                &&& filter_id == id
                &&& answer.is_ok(header, text::decimal(id as nat))
                &&& after.input_filters@ == before.input_filters@.insert(id, filter)
                &&& after == (AttendantProcessor {
                    input_filters: after.input_filters,
                    request_ids: next,
                    ..before
                })
            },
            Pending::GuardRenew { filter_id } => step.replies_ok(header, filter_id@) && after
                == before,
            Pending::FilterStart { rx } => {
                &&& step.replies_ok(header, text::decimal(id as nat))
                &&& after.output_filters@ == before.output_filters@.insert(id, rx)
                &&& after == (AttendantProcessor {
                    output_filters: after.output_filters,
                    request_ids: next,
                    ..before
                })
            },
        },
    }
}

/// The id that `guard-begin` replied ends the guard: `guard-end` succeeds with it, and the guard is
/// no longer kept.
pub proof fn guard_end_undoes_guard_begin<S>(
    before: Map<u32, OurInputFilter<S>>,
    id: u32,
    filter: OurInputFilter<S>,
    header: Seq<char>,
    after: Map<u32, OurInputFilter<S>>,
    step: Step<S>,
)
    requires
        removal_step(
            before.insert(id, filter),
            header,
            text::decimal(id as nat),
            "no such guard"@,
            after,
            step,
        ),
    ensures
        step.replies_ok(header, text::decimal(id as nat)),
        after == before.remove(id),
{
    text::decimal_reads_back(id as nat);
    assert(before.insert(id, filter).remove(id) =~= before.remove(id));
}

/// The id that `filter-start` replied stops the filter: `filter-stop` succeeds with it, and the
/// receiver is no longer kept.
pub proof fn filter_stop_undoes_filter_start<S>(
    before: Map<u32, broadcast::Receiver<FilterOutput>>,
    id: u32,
    rx: broadcast::Receiver<FilterOutput>,
    header: Seq<char>,
    after: Map<u32, broadcast::Receiver<FilterOutput>>,
    step: Step<S>,
)
    requires
        removal_step(
            before.insert(id, rx),
            header,
            text::decimal(id as nat),
            "no such filter"@,
            after,
            step,
        ),
    ensures
        step.replies_ok(header, text::decimal(id as nat)),
        after == before.remove(id),
{
    text::decimal_reads_back(id as nat);
    assert(before.insert(id, rx).remove(id) =~= before.remove(id));
}

/// The id that `guard-begin` replied renews that very guard, for as long as is asked for, or else
/// as long as a guard lasts by default.
pub proof fn guard_renew_finds_the_guard<S>(
    guards: Map<u32, OurInputFilter<S>>,
    id: u32,
    header: Seq<char>,
    seconds: u64,
    step: Step<S>,
    default_step: Step<S>,
)
    requires
        guards.contains_key(id),
        renewal_step(
            guards,
            header,
            text::decimal(id as nat),
            Some(text::decimal(seconds as nat)),
            step,
        ),
        guard_renew_step(guards, header, text::decimal(id as nat), default_step),
    ensures
        step.sends_renewal(header, guards[id], seconds, text::decimal(id as nat)),
        default_step.sends_renewal(
            header,
            guards[id],
            GUARD_TIMEOUT_SECS,
            text::decimal(id as nat),
        ),
{
    text::decimal_reads_back(id as nat);
    text::decimal_reads_back(seconds as nat);
}

/// A guard that was ended or has expired can be neither renewed nor ended again.
pub proof fn gone_guard_is_gone<S>(
    guards: Map<u32, OurInputFilter<S>>,
    id: u32,
    header: Seq<char>,
    seconds: Option<Seq<char>>,
    renewal: Step<S>,
    after: Map<u32, OurInputFilter<S>>,
    removal: Step<S>,
)
    requires
        seconds matches Some(digits) ==> text::number_value(digits) <= u64::MAX,
        renewal_step(
            guards.remove(id),
            header,
            text::decimal(id as nat),
            seconds,
            renewal,
        ),
        removal_step(
            guards.remove(id),
            header,
            text::decimal(id as nat),
            "no such guard"@,
            after,
            removal,
        ),
    ensures
        renewal.replies_error(header, "no such guard"@),
        removal.replies_error(header, "no such guard"@),
        after == guards.remove(id),
{
    text::decimal_reads_back(id as nat);
}

/// Tries to compile a regex, or returns the failure message.
pub fn compile_regex(name: &str, text: &str) -> (built: Result<Regex, AttendantAnswer>)
    ensures
        match built {
            Ok(regex) => compiled(text@) == Some(regex),
            Err(answer) => compiled(text@) is None && answer.is_error(
                name@,
                "invalid or expensive regex"@,
            ),
        },
{
    match external::build_regex(text, REGEX_SIZE_LIMIT) {
        Ok(regex) => Ok(regex),
        Err(_) => Err(reply_err(name, "invalid or expensive regex")),
    }
}

/// What came of a request, or the failure message.
pub fn check_outcome(name: &str, outcome: SendOutcome) -> (handled: Result<(), AttendantAnswer>)
    ensures
        match outcome {
            SendOutcome::Done => handled is Ok,
            SendOutcome::NotSent => handled matches Err(answer) && answer.is_error(
                name@,
                "server stopped handling commands"@,
            ),
            SendOutcome::NotHandled => handled matches Err(answer) && answer.is_error(
                name@,
                "command was not handled"@,
            ),
        },
{
    match outcome {
        SendOutcome::Done => Ok(()),
        SendOutcome::NotSent => Err(reply_err(name, "server stopped handling commands")),
        SendOutcome::NotHandled => Err(reply_err(name, "command was not handled")),
    }
}

impl<S> AttendantProcessor<S> {
    /// Creates the processor of an attendant.
    pub fn new(id: u32) -> (processor: Self)
        ensures
            processor.id == id,
            processor.input_filters@ == Map::<u32, OurInputFilter<S>>::empty(),
            processor.output_filters@ == Map::<u32, broadcast::Receiver<FilterOutput>>::empty(),
            processor.request_ids.next == 0,
            processor.guard_ids.next == 0,
    {
        AttendantProcessor {
            id: id,
            input_filters: HashMap::new(),
            output_filters: HashMap::new(),
            request_ids: IdGenerator::new(),
            guard_ids: IdGenerator::new(),
        }
    }

    /// Handles a single command: what to do for it first.
    pub fn process_command(&mut self, line: &str) -> (step: Step<S>)
        ensures
            line_step(*old(self), line@, *final(self), step),
    {
        let request = match parse_request(line) {
            Some(request) => request,
            None => {
                proof {
                    reveal_strlit("");
                    assert(""@ =~= Seq::empty());
                }
                return Step::Reply(reply_err("", "invalid request"));
            },
        };
        proof {
            let (start, end) = choose|start: int, end: int| #[trigger]
                command::is_request(line@, start, end) && request.header@ == line@.take(end)
                    && request.command@ == line@.subrange(start, end) && request.args@
                    == command::args_after(line@, end);
            assert forall|s: int, e: int| #[trigger] command::is_request(line@, s, e) implies s
                == start && e == end by {
                command::request_is_unambiguous(line@, s, e, start, end);
            }
        }
        let header = request.header;
        let name = request.command;
        let args = request.args;
        if text::same_text(name, "guard-end") {
            self.guard_end(header, args)
        } else if text::same_text(name, "filter-stop") {
            self.filter_stop(header, args)
        } else if text::same_text(name, "ready") {
            Step::WaitReady { header: header.to_owned() }
        } else if text::same_text(name, "slash") {
            if args.unicode_len() == 0 {
                Step::Reply(reply_err(header, "missing command"))
            } else {
                Step::Send {
                    header: header.to_owned(),
                    command: AttendantCommand::SendCommand(args.to_owned()),
                    pending: Pending::Slash,
                }
            }
        } else if text::same_text(name, "get-line") {
            Self::get_line(header, args)
        } else if text::same_text(name, "guard-begin") {
            Self::guard_begin(header, args)
        } else if text::same_text(name, "guard-renew") {
            self.guard_renew(header, args)
        } else if text::same_text(name, "filter-start") {
            Self::filter_start(header, args)
        } else if text::same_text(name, "cya") {
            Step::Reply(reply_farewell(header))
        } else {
            Step::Reply(reply_err(name, "unknown command"))
        }
    }

    /// Goes on with `ready`: the server is ready, or (None) nobody can tell.
    pub fn server_ready(header: &str, ready: Option<()>) -> (answer: AttendantAnswer)
        ensures
            ready_answer(header@, ready, answer),
    {
        match ready {
            Some(_) => reply_ok(header, ""),
            None => reply_bail(header, "unknown server status"),
        }
    }

    /// `get-line`: runs a console command and waits for a line that matches.
    pub fn get_line(header: &str, rest: &str) -> (step: Step<S>)
        ensures
            get_line_step(header@, rest@, step),
    {
        match get_line_args(rest) {
            Some((pattern, slash)) => match compile_regex(header, pattern) {
                Ok(regex) => Self::get_line_with(header, regex, slash),
                Err(answer) => Step::Reply(answer),
            },
            None => Step::Reply(reply_err(header, "invalid arguments")),
        }
    }

    /// Goes on with `get-line` once the regex is compiled.
    pub fn get_line_with(header: &str, regex: Regex, slash: &str) -> (step: Step<S>)
        ensures
            step.sends_get_line(header@, regex, slash@),
    {
        let (filter, rx) = OutputFilter::new(regex).count(Some(1)).fail(Some(64)).build();
        Step::Send {
            header: header.to_owned(),
            command: AttendantCommand::GetLine(slash.to_owned(), filter),
            pending: Pending::GetLine { rx: rx },
        }
    }

    /// Goes on with `get-line` once there is an output of the filter, or (None) none will come.
    pub fn line_received(header: &str, output: Option<FilterOutput>) -> (answer: AttendantAnswer)
        ensures
            line_answer(header@, output, answer),
    {
        let line = match output {
            Some(output) => output.take_line(),
            None => None,
        };
        match line {
            Some(line) => reply_ok(header, line.as_str()),
            None => reply_err(header, "line not found"),
        }
    }

    /// `guard-begin`: holds back the console commands of other clients that match.
    pub fn guard_begin(header: &str, rest: &str) -> (step: Step<S>)
        ensures
            guard_begin_step(header@, rest@, step),
    {
        proof {
            assert forall|at: int, close: int|
                #[trigger] command::is_timed_regex(rest@, at)
                    && #[trigger] command::is_timed_regex(rest@, close) implies at == close by {
                command::guard_begin_is_unambiguous(rest@, at, close);
            }
            assert forall|at: int| #[trigger] command::is_timed_regex(
                rest@,
                at,
            ) implies !command::is_lone_regex(rest@) by {
                command::guard_begin_is_unambiguous(rest@, at, at);
            }
        }
        match guard_begin_args(rest) {
            Some((pattern, seconds)) => match compile_regex(header, pattern) {
                Ok(regex) => Self::guard_begin_with(header, regex, seconds),
                Err(answer) => Step::Reply(answer),
            },
            None => Step::Reply(reply_err(header, "invalid arguments")),
        }
    }

    /// Goes on with `guard-begin` once the regex is compiled. `seconds` are the digits of the
    /// duration, if any.
    pub fn guard_begin_with(header: &str, regex: Regex, seconds: Option<&str>) -> (step: Step<S>)
        requires
            seconds matches Some(digits) ==> text::is_number(digits@),
        ensures
            guard_step(
                header@,
                regex,
                match seconds {
                    Some(digits) => Some(digits@),
                    None => None,
                },
                step,
            ),
    {
        let seconds = match seconds {
            Some(digits) => match number_up_to(digits, u64::MAX) {
                Some(seconds) => seconds,
                None => {
                    return Step::Reply(reply_err(header, "invalid duration"));
                },
            },
            None => GUARD_TIMEOUT_SECS,
        };
        Step::OpenGuard { header: header.to_owned(), regex: regex, seconds: seconds }
    }

    /// Creates a new input filter, which signals on `expired` once it expires.
    pub fn new_input_filter(&mut self, regex: Regex, expired: S) -> (filter: OurInputFilter<S>)
        ensures
            *filter.0 == (InputFilter {
                regex: regex,
                expired: expired,
                client_id: old(self).id,
                key: ids::key_of(old(self).id, old(self).guard_ids.next),
            }),
            *final(self) == (AttendantProcessor {
                guard_ids: IdGenerator { next: ids::id_after(old(self).guard_ids.next, 1) },
                ..*old(self)
            }),
    {
        let n = self.guard_ids.next_id();
        OurInputFilter(
            Arc::new(
                InputFilter {
                    regex: regex,
                    expired: expired,
                    client_id: self.id,
                    key: guard_key(self.id, n),
                },
            ),
        )
    }

    /// Goes on with `guard-begin` once there is a channel for the guard's expiration.
    pub fn open_guard(&mut self, header: String, regex: Regex, seconds: u64, expired: S) -> (step:
        Step<S>)
        ensures
            guard_opening(
                *old(self),
                header@,
                regex,
                seconds,
                expired,
                *final(self),
                step,
            ),
    {
        let filter = self.new_input_filter(regex, expired);
        Step::Send {
            header: header,
            command: AttendantCommand::StartGuard(filter.clone(), seconds),
            pending: Pending::GuardBegin { filter: filter },
        }
    }

    /// `guard-renew`: makes a guard last longer.
    pub fn guard_renew(&self, header: &str, rest: &str) -> (step: Step<S>)
        ensures
            guard_renew_step(self.input_filters@, header@, rest@, step),
    {
        proof {
            assert forall|at: int, space: int|
                #[trigger] command::is_timed_id(rest@, at) && #[trigger] command::is_timed_id(
                    rest@,
                    space,
                ) implies at == space by {
                command::guard_renew_is_unambiguous(rest@, at, space);
            }
            assert forall|at: int| #[trigger] command::is_timed_id(
                rest@,
                at,
            ) implies !text::is_number(rest@) by {
                command::guard_renew_is_unambiguous(rest@, at, at);
            }
        }
        let (raw_filter_id, raw_seconds) = match guard_renew_args(rest) {
            Some(parsed) => parsed,
            None => {
                return Step::Reply(reply_err(header, "invalid arguments"));
            },
        };
        let filter_id: u32 = match number_up_to(raw_filter_id, u32::MAX as u64) {
            Some(filter_id) => filter_id as u32,
            None => {
                return Step::Reply(reply_err(header, "invalid filter id"));
            },
        };
        let seconds: u64 = match raw_seconds {
            Some(digits) => match number_up_to(digits, u64::MAX) {
                Some(seconds) => seconds,
                None => {
                    return Step::Reply(reply_err(header, "invalid duration"));
                },
            },
            None => GUARD_TIMEOUT_SECS,
        };
        match self.input_filters.get(&filter_id) {
            Some(filter) => Step::Send {
                header: header.to_owned(),
                command: AttendantCommand::RenewGuard(filter.clone(), seconds),
                pending: Pending::GuardRenew { filter_id: raw_filter_id.to_owned() },
            },
            None => Step::Reply(reply_err(header, "no such guard")),
        }
    }

    /// `guard-end`: ends a guard.
    pub fn guard_end(&mut self, header: &str, rest: &str) -> (step: Step<S>)
        ensures
            removal_step(
                old(self).input_filters@,
                header@,
                rest@,
                "no such guard"@,
                final(self).input_filters@,
                step,
            ),
            *final(self) == (AttendantProcessor {
                input_filters: final(self).input_filters,
                ..*old(self)
            }),
    {
        if !is_filter_id(rest) {
            return Step::Reply(reply_err(header, "invalid arguments"));
        }
        let filter_id: u32 = match number_up_to(rest, u32::MAX as u64) {
            Some(filter_id) => filter_id as u32,
            None => {
                return Step::Reply(reply_err(header, "invalid filter id"));
            },
        };
        if self.remove_input_filter(filter_id) {
            Step::Reply(reply_ok(header, rest))
        } else {
            assert(self.input_filters@ =~= old(self).input_filters@);
            Step::Reply(reply_err(header, "no such guard"))
        }
    }

    /// `filter-start`: passes the console lines that match on to the client.
    pub fn filter_start(header: &str, rest: &str) -> (step: Step<S>)
        ensures
            filter_start_step(header@, rest@, step),
    {
        proof {
            assert forall|at: int, close: int|
                #[trigger] command::is_filter_start(rest@, at)
                    && #[trigger] command::is_filter_start(rest@, close) implies at == close by {
                command::filter_start_is_unambiguous(rest@, at, close);
            }
        }
        match filter_start_args(rest) {
            Some((pattern, options)) => match compile_regex(header, pattern) {
                Ok(regex) => Self::filter_start_with(header, regex, options),
                Err(answer) => Step::Reply(answer),
            },
            None => Step::Reply(reply_err(header, "invalid arguments")),
        }
    }

    /// Goes on with `filter-start` once the regex is compiled.
    pub fn filter_start_with(header: &str, regex: Regex, options: FilterOptions) -> (step: Step<S>)
        ensures
            step.sends_filter(header@, regex, options),
    {
        let (filter, rx) = OutputFilter::new(regex).ignore_chat(options.ignore_chat).count(
            options.count,
        ).fail(options.fail).build();
        Step::Send {
            header: header.to_owned(),
            command: AttendantCommand::AddOutputFilter(filter),
            pending: Pending::FilterStart { rx: rx },
        }
    }

    /// `filter-stop`: stops a filter.
    pub fn filter_stop(&mut self, header: &str, rest: &str) -> (step: Step<S>)
        ensures
            removal_step(
                old(self).output_filters@,
                header@,
                rest@,
                "no such filter"@,
                final(self).output_filters@,
                step,
            ),
            *final(self) == (AttendantProcessor {
                output_filters: final(self).output_filters,
                ..*old(self)
            }),
    {
        if !is_filter_id(rest) {
            return Step::Reply(reply_err(header, "invalid arguments"));
        }
        let filter_id: u32 = match number_up_to(rest, u32::MAX as u64) {
            Some(filter_id) => filter_id as u32,
            None => {
                return Step::Reply(reply_err(header, "invalid filter id"));
            },
        };
        if self.remove_output_filter_rx(filter_id) {
            Step::Reply(reply_ok(header, rest))
        } else {
            assert(self.output_filters@ =~= old(self).output_filters@);
            Step::Reply(reply_err(header, "no such filter"))
        }
    }

    /// Creates the request for a command, which signals on `done` once it is handled.
    pub fn new_request(&self, done: S, command: AttendantCommand<S>) -> (request: AttendantRequest<
        S,
    >)
        ensures
            request == (AttendantRequest { done: done, command: command, client_id: self.id }),
    {
        AttendantRequest { done: done, command: command, client_id: self.id }
    }

    /// Goes on with a command once its request was sent.
    pub fn request_sent(
        &mut self,
        header: &str,
        outcome: SendOutcome,
        pending: Pending<S>,
    ) -> (step: Step<S>)
        ensures
            sent_step(*old(self), header@, outcome, pending, *final(self), step),
    {
        match check_outcome(header, outcome) {
            Ok(_) => {},
            Err(answer) => {
                return Step::Reply(answer);
            },
        }
        match pending {
            Pending::Slash => Step::Reply(reply_ok(header, "")),
            Pending::GetLine { rx } => Step::WaitLine { header: header.to_owned(), rx: rx },
            Pending::GuardBegin { filter } => {
                let filter_id = self.track_input_filter(filter);
                let id = text::decimal_text(filter_id as u64);
                Step::GuardStarted { answer: reply_ok(header, id.as_str()), filter_id: filter_id }
            },
            Pending::GuardRenew { filter_id } => Step::Reply(reply_ok(header, filter_id.as_str())),
            Pending::FilterStart { rx } => {
                let filter_id = self.add_output_filter_rx(rx);
                let id = text::decimal_text(filter_id as u64);
                Step::Reply(reply_ok(header, id.as_str()))
            },
        }
    }

    /// Goes on with a guard once it has expired. It expired if the client still thinks it's active;
    /// then the client is told.
    pub fn guard_expired(&mut self, filter_id: u32) -> (answer: Option<AttendantAnswer>)
        ensures
            match answer {
                Some(a) => old(self).input_filters@.contains_key(filter_id) && a.is_error(
                    "guard "@ + text::decimal(filter_id as nat),
                    "expired"@,
                ),
                None => !old(self).input_filters@.contains_key(filter_id),
            },
            final(self).input_filters@ == old(self).input_filters@.remove(filter_id),
            *final(self) == (AttendantProcessor {
                input_filters: final(self).input_filters,
                ..*old(self)
            }),
    {
        if self.remove_input_filter(filter_id) {
            let mut guard_name = "guard ".to_owned();
            guard_name.append(text::decimal_text(filter_id as u64).as_str());
            Some(reply_err(guard_name.as_str(), "expired"))
        } else {
            None
        }
    }

    /// Handles the output of one of the client's filters: what to write to the client. After the
    /// last output the receiver is dropped.
    pub fn filter_output(
        &mut self,
        filter_id: u32,
        output: Result<FilterOutput, RecvFailure>,
    ) -> (line: String)
        ensures
            line@ == filter_line(filter_id, output),
            final(self).output_filters@ == if is_last_output(output) {
                old(self).output_filters@.remove(filter_id)
            } else {
                old(self).output_filters@
            },
            *final(self) == (AttendantProcessor {
                output_filters: final(self).output_filters,
                ..*old(self)
            }),
    {
        let (line, remove_rx) = filter_reply(filter_id, output);
        if remove_rx {
            let _ = self.remove_output_filter_rx(filter_id);
        }
        line
    }

    /// Gets a new request id. This _can_ overflow.
    pub fn new_request_id(&mut self) -> (id: u32)
        ensures
            id == old(self).request_ids.next,
            *final(self) == (AttendantProcessor {
                request_ids: IdGenerator { next: ids::id_after(id, 1) },
                ..*old(self)
            }),
    {
        self.request_ids.next_id()
    }

    /// Adds an input filter into the client's set and returns its id.
    pub fn track_input_filter(&mut self, filter: OurInputFilter<S>) -> (filter_id: u32)
        ensures
            filter_id == old(self).request_ids.next,
            final(self).input_filters@ == old(self).input_filters@.insert(filter_id, filter),
            *final(self) == (AttendantProcessor {
                input_filters: final(self).input_filters,
                request_ids: IdGenerator { next: ids::id_after(filter_id, 1) },
                ..*old(self)
            }),
    {
        let filter_id = self.new_request_id();
        self.input_filters.insert(filter_id, filter);
        filter_id
    }

    /// Removes an input filter and returns whether it was present before. The request handler drops
    /// its copy once we drop ours.
    pub fn remove_input_filter(&mut self, filter_id: u32) -> (present: bool)
        ensures
            present == old(self).input_filters@.contains_key(filter_id),
            final(self).input_filters@ == old(self).input_filters@.remove(filter_id),
            *final(self) == (AttendantProcessor {
                input_filters: final(self).input_filters,
                ..*old(self)
            }),
    {
        self.input_filters.remove(&filter_id).is_some()
    }

    /// Adds an output filter receiver to the client's set and returns its id.
    pub fn add_output_filter_rx(
        &mut self,
        filter_rx: broadcast::Receiver<FilterOutput>,
    ) -> (filter_id: u32)
        ensures
            filter_id == old(self).request_ids.next,
            final(self).output_filters@ == old(self).output_filters@.insert(filter_id, filter_rx),
            *final(self) == (AttendantProcessor {
                output_filters: final(self).output_filters,
                request_ids: IdGenerator { next: ids::id_after(filter_id, 1) },
                ..*old(self)
            }),
    {
        let filter_id = self.new_request_id();
        self.output_filters.insert(filter_id, filter_rx);
        filter_id
    }

    /// Removes an output filter receiver. Returns whether it was present before.
    pub fn remove_output_filter_rx(&mut self, filter_id: u32) -> (present: bool)
        ensures
            present == old(self).output_filters@.contains_key(filter_id),
            final(self).output_filters@ == old(self).output_filters@.remove(filter_id),
            *final(self) == (AttendantProcessor {
                output_filters: final(self).output_filters,
                ..*old(self)
            }),
    {
        self.output_filters.remove(&filter_id).is_some()
    }
}

// === The connection ===

/// What happened on the connection of a client.
pub enum ConnectionEvent {
    /// One of the client's filters has an output.
    FilterOutput(u32, Result<FilterOutput, RecvFailure>),
    /// There is an answer to a command.
    Answer(AttendantAnswer),
    /// The client sent a line.
    Command(String),
    /// The client sent what cannot be read.
    Unreadable,
    /// Nothing more can happen.
    Exhausted,
}

/// What to do about it.
pub enum ConnectionAction {
    /// Write the line to the client, and then close the connection or not.
    Write { line: String, close: bool },
    /// Process the line as a command.
    Process(String),
    /// Close the connection.
    Close,
}

impl ConnectionEvent {
    /// The line that is written to the client because of the event, if any.
    pub open spec fn line(self) -> Option<Seq<char>> {
        match self {
            ConnectionEvent::FilterOutput(filter_id, output) => Some(
                filter_line(filter_id, output),
            ),
            ConnectionEvent::Answer(answer) => Some(answer.line@),
            _ => None,
        }
    }

    /// The connection is closed because of the event.
    pub open spec fn closes(self) -> bool {
        match self {
            ConnectionEvent::FilterOutput(_, _) => false,
            ConnectionEvent::Answer(answer) => answer.end_connection,
            ConnectionEvent::Command(_) => false,
            ConnectionEvent::Unreadable => true,
            ConnectionEvent::Exhausted => true,
        }
    }
}

impl ConnectionAction {
    /// The line that is written to the client, if any.
    pub open spec fn line(self) -> Option<Seq<char>> {
        match self {
            ConnectionAction::Write { line, .. } => Some(line@),
            _ => None,
        }
    }

    /// The connection is closed.
    pub open spec fn closes(self) -> bool {
        match self {
            ConnectionAction::Write { close, .. } => close,
            ConnectionAction::Process(_) => false,
            ConnectionAction::Close => true,
        }
    }
}

/// What an event on the connection comes to: `before` and `after` are the processor.
pub open spec fn connection_step<S>(
    before: AttendantProcessor<S>,
    event: ConnectionEvent,
    after: AttendantProcessor<S>,
    action: ConnectionAction,
) -> bool {
    &&& action.line() == event.line()
    &&& action.closes() == event.closes()
    &&& match event {
        ConnectionEvent::Command(line) => action == ConnectionAction::Process(line),
        _ => !(action is Process),
    }
    &&& match event {
        ConnectionEvent::FilterOutput(filter_id, output) => {
            &&& after.output_filters@ == if is_last_output(output) {
                before.output_filters@.remove(filter_id)
            } else {
                before.output_filters@
            }
            &&& after == (AttendantProcessor { output_filters: after.output_filters, ..before })
        },
        _ => after == before,
    }
}

impl<S> AttendantProcessor<S> {
    /// Decides what to do about an event on the connection.
    pub fn connection_event(&mut self, event: ConnectionEvent) -> (action: ConnectionAction)
        ensures
            connection_step(*old(self), event, *final(self), action),
    {
        match event {
            ConnectionEvent::FilterOutput(filter_id, output) => ConnectionAction::Write {
                line: self.filter_output(filter_id, output),
                close: false,
            },
            ConnectionEvent::Answer(answer) => ConnectionAction::Write {
                line: answer.line,
                close: answer.end_connection,
            },
            ConnectionEvent::Command(line) => ConnectionAction::Process(line),
            ConnectionEvent::Unreadable => ConnectionAction::Close,
            ConnectionEvent::Exhausted => ConnectionAction::Close,
        }
    }
}

} // verus!
